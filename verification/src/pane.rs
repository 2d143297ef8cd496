//! Pane bookkeeping for the interactive multiplexer: translating key
//! presses to the terminal control bytes they stand for, the two input
//! modes, the sweep that drops exited panes, and the resize debounce.

use vstd::prelude::*;

use crate::features::idx_view;

verus! {

/// A key, reduced to what the multiplexer routes.
#[derive(Debug, Clone, Copy, PartialEq, Eq, Structural)]
pub enum Key {
    Char(char),
    Enter,
    Backspace,
    Left,
    Right,
    Up,
    Down,
    Tab,
    Home,
    End,
    PageUp,
    PageDown,
    BackTab,
    Delete,
    Insert,
    Esc,
    Other,
}

/// A key press with its modifier state.
#[derive(Debug, Clone, Copy, PartialEq, Eq, Structural)]
pub struct KeyPress {
    pub key: Key,
    pub ctrl: bool,
    pub alt: bool,
    pub shift: bool,
}

/// The code of `c` with an ASCII lowercase letter raised to its uppercase.
pub open spec fn spec_upper_code(c: char) -> int {
    let u = c as int;
    if 97 <= u <= 122 {
        u - 32
    } else {
        u
    }
}

/// The bytes sent for a character key: under a bare control modifier the
/// standard control-code mapping, otherwise the character's low byte.
pub open spec fn spec_char_bytes(c: char, ctrl_only: bool) -> Seq<u8> {
    let plain = seq![((c as int) % 256) as u8];
    if ctrl_only {
        let up = spec_upper_code(c);
        if up == 50 || up == 64 || up == 32 {
            seq![0u8]
        } else if up == 51 || up == 91 {
            seq![27u8]
        } else if up == 52 || up == 92 {
            seq![28u8]
        } else if up == 53 || up == 93 {
            seq![29u8]
        } else if up == 54 || up == 94 {
            seq![30u8]
        } else if up == 55 || up == 45 || up == 95 {
            seq![31u8]
        } else if 65 <= up <= 95 {
            seq![(up - 64) as u8]
        } else {
            plain
        }
    } else {
        plain
    }
}

/// The bytes a key press sends to the pane's terminal, per the standard
/// terminal control-code mapping; `None` for keys that send nothing.
pub open spec fn spec_key_bytes(k: KeyPress) -> Option<Seq<u8>> {
    match k.key {
        Key::Char(c) => Some(spec_char_bytes(c, k.ctrl && !k.alt && !k.shift)),
        Key::Enter => Some(seq![13u8]),
        Key::Backspace => Some(seq![8u8]),
        Key::Left => Some(seq![27u8, 91u8, 68u8]),
        Key::Right => Some(seq![27u8, 91u8, 67u8]),
        Key::Up => Some(seq![27u8, 91u8, 65u8]),
        Key::Down => Some(seq![27u8, 91u8, 66u8]),
        Key::Tab => Some(seq![9u8]),
        Key::Home => Some(seq![27u8, 91u8, 72u8]),
        Key::End => Some(seq![27u8, 91u8, 70u8]),
        Key::PageUp => Some(seq![27u8, 91u8, 53u8, 126u8]),
        Key::PageDown => Some(seq![27u8, 91u8, 54u8, 126u8]),
        Key::BackTab => Some(seq![27u8, 91u8, 90u8]),
        Key::Delete => Some(seq![27u8, 91u8, 51u8, 126u8]),
        Key::Insert => Some(seq![27u8, 91u8, 50u8, 126u8]),
        Key::Esc => Some(seq![27u8]),
        Key::Other => None,
    }
}

/// Translate a key press into the bytes forwarded to the active pane.
pub fn key_input_bytes(k: &KeyPress) -> (r: Option<Vec<u8>>)
    ensures
        match r {
            Some(v) => spec_key_bytes(*k) matches Some(s) && v@ == s,
            None => spec_key_bytes(*k) is None,
        },
{
    match k.key {
        Key::Char(c) => {
            let code: u32 = c as u32;
            let plain: u8 = (code % 256) as u8;
            let ctrl_only = k.ctrl && !k.alt && !k.shift;
            if ctrl_only {
                let up: u32 = if 97 <= code && code <= 122 {
                    code - 32
                } else {
                    code
                };
                let v: Vec<u8> = if up == 50 || up == 64 || up == 32 {
                    vec![0u8]
                } else if up == 51 || up == 91 {
                    vec![27u8]
                } else if up == 52 || up == 92 {
                    vec![28u8]
                } else if up == 53 || up == 93 {
                    vec![29u8]
                } else if up == 54 || up == 94 {
                    vec![30u8]
                } else if up == 55 || up == 45 || up == 95 {
                    vec![31u8]
                } else if 65 <= up && up <= 95 {
                    vec![(up - 64) as u8]
                } else {
                    vec![plain]
                };
                proof {
                    assert(v@ =~= spec_char_bytes(c, true));
                }
                Some(v)
            } else {
                let v = vec![plain];
                proof {
                    assert(v@ =~= spec_char_bytes(c, false));
                }
                Some(v)
            }
        }
        Key::Enter => Some(vec![13u8]),
        Key::Backspace => Some(vec![8u8]),
        Key::Left => Some(vec![27u8, 91u8, 68u8]),
        Key::Right => Some(vec![27u8, 91u8, 67u8]),
        Key::Up => Some(vec![27u8, 91u8, 65u8]),
        Key::Down => Some(vec![27u8, 91u8, 66u8]),
        Key::Tab => Some(vec![9u8]),
        Key::Home => Some(vec![27u8, 91u8, 72u8]),
        Key::End => Some(vec![27u8, 91u8, 70u8]),
        Key::PageUp => Some(vec![27u8, 91u8, 53u8, 126u8]),
        Key::PageDown => Some(vec![27u8, 91u8, 54u8, 126u8]),
        Key::BackTab => Some(vec![27u8, 91u8, 90u8]),
        Key::Delete => Some(vec![27u8, 91u8, 51u8, 126u8]),
        Key::Insert => Some(vec![27u8, 91u8, 50u8, 126u8]),
        Key::Esc => Some(vec![27u8]),
        Key::Other => None,
    }
}

/// The reserved chord that enters command mode: control-g, with no other
/// modifier.
pub fn is_ctrl_g(k: &KeyPress) -> (r: bool)
    ensures
        r == (k.key == Key::Char('g') && k.ctrl && !k.alt && !k.shift),
{
    match k.key {
        Key::Char(c) => c == 'g' && k.ctrl && !k.alt && !k.shift,
        _ => false,
    }
}

/// A multiplexer command, entered as the single key after the command
/// chord.
#[derive(Debug, Clone, Copy, PartialEq, Eq, Structural)]
pub enum Command {
    /// Jump to the pane at this position (zero-based).
    Goto(usize),
    /// Move the active index down.
    NextPane,
    /// Move the active index up.
    PrevPane,
    /// Spawn a pane for the next schedulable feature.
    NewPane,
    /// Close the active pane.
    ClosePane,
    /// Leave the multiplexer.
    Quit,
    /// Any other key: back to normal mode with no effect.
    Cancel,
}

/// The command a key stands for in command mode: digits 1-9 jump to that
/// pane, j/k and the arrows move the active index, n spawns, x closes,
/// q quits; everything else cancels.
pub open spec fn spec_parse_command(k: KeyPress) -> Command {
    match k.key {
        Key::Char(c) => {
            let u = c as int;
            if 49 <= u <= 57 {
                Command::Goto((u - 49) as usize)
            } else if c == 'j' {
                Command::NextPane
            } else if c == 'k' {
                Command::PrevPane
            } else if c == 'n' {
                Command::NewPane
            } else if c == 'x' {
                Command::ClosePane
            } else if c == 'q' {
                Command::Quit
            } else {
                Command::Cancel
            }
        }
        Key::Down => Command::NextPane,
        Key::Up => Command::PrevPane,
        _ => Command::Cancel,
    }
}

/// Interpret the single key that follows the command chord.
pub fn parse_command(k: &KeyPress) -> (r: Command)
    ensures
        r == spec_parse_command(*k),
{
    match k.key {
        Key::Char(c) => {
            let u = c as u32;
            if 49 <= u && u <= 57 {
                Command::Goto((u - 49) as usize)
            } else if c == 'j' {
                Command::NextPane
            } else if c == 'k' {
                Command::PrevPane
            } else if c == 'n' {
                Command::NewPane
            } else if c == 'x' {
                Command::ClosePane
            } else if c == 'q' {
                Command::Quit
            } else {
                Command::Cancel
            }
        }
        Key::Down => Command::NextPane,
        Key::Up => Command::PrevPane,
        _ => Command::Cancel,
    }
}

/// The multiplexer's input mode.
#[derive(Debug, Clone, Copy, PartialEq, Eq, Structural)]
pub enum InputMode {
    Normal,
    Command,
}

/// What the multiplexer does with one key press.
#[derive(Debug)]
pub enum InputAction {
    /// Send these bytes to the active pane.
    Forward(Vec<u8>),
    /// The command chord: wait for the command key.
    EnterCommand,
    /// Run this command.
    Run(Command),
    /// Nothing to do.
    Ignore,
}

/// Route one key press: in command mode the key is a command and the mode
/// returns to normal — command mode consumes exactly one key; in normal
/// mode the chord enters command mode and every other key is forwarded to
/// the active pane as its control bytes.
pub fn route_key(mode: InputMode, k: &KeyPress) -> (r: (InputMode, InputAction))
    ensures
        mode is Command ==> r.0 is Normal && (r.1 matches InputAction::Run(c) && c
            == spec_parse_command(*k)),
        mode is Normal && (k.key == Key::Char('g') && k.ctrl && !k.alt && !k.shift) ==> r.0
            is Command && r.1 is EnterCommand,
        mode is Normal && !(k.key == Key::Char('g') && k.ctrl && !k.alt && !k.shift) ==> r.0
            is Normal && match spec_key_bytes(*k) {
            Some(s) => r.1 matches InputAction::Forward(v) && v@ == s,
            None => r.1 is Ignore,
        },
{
    match mode {
        InputMode::Command => (InputMode::Normal, InputAction::Run(parse_command(k))),
        InputMode::Normal => {
            if is_ctrl_g(k) {
                (InputMode::Command, InputAction::EnterCommand)
            } else {
                match key_input_bytes(k) {
                    Some(v) => (InputMode::Normal, InputAction::Forward(v)),
                    None => (InputMode::Normal, InputAction::Ignore),
                }
            }
        }
    }
}

/// How many of the first `end` panes are alive.
pub open spec fn count_alive(alive: Seq<bool>, end: int) -> int
    decreases end,
{
    if end <= 0 {
        0
    } else {
        count_alive(alive, end - 1) + if alive[end - 1] {
            1int
        } else {
            0int
        }
    }
}

/// The indices of the alive panes among the first `end`, in order.
pub open spec fn alive_indices(alive: Seq<bool>, end: int) -> Seq<int>
    decreases end,
{
    if end <= 0 {
        Seq::empty()
    } else {
        let pre = alive_indices(alive, end - 1);
        if alive[end - 1] {
            pre.push(end - 1)
        } else {
            pre
        }
    }
}

/// Where the active index lands after the exited panes are removed: gone
/// when nothing survives, otherwise shifted down by the dead panes before
/// it and clamped to the last survivor.
pub open spec fn spec_active_after_cleanup(alive: Seq<bool>, active: Option<usize>) -> Option<
    usize,
> {
    match active {
        None => None,
        Some(a) => {
            let kept = count_alive(alive, alive.len() as int);
            if kept == 0 {
                None
            } else {
                let shifted = count_alive(alive, a as int);
                if shifted <= kept - 1 {
                    Some(shifted as usize)
                } else {
                    Some((kept - 1) as usize)
                }
            }
        }
    }
}

/// Sweep the pane list: keep exactly the alive panes (their indices, in
/// order) and move the active index as the removals demand.
pub fn cleanup_plan(alive: &Vec<bool>, active: Option<usize>) -> (r: (Vec<usize>, Option<usize>))
    requires
        active matches Some(a) ==> a < alive@.len(),
    ensures
        idx_view(r.0@) == alive_indices(alive@, alive@.len() as int),
        r.1 == spec_active_after_cleanup(alive@, active),
{
    let n = alive.len();
    let mut kept: Vec<usize> = Vec::new();
    let mut i: usize = 0;
    while i < n
        invariant
            0 <= i <= n,
            n == alive@.len(),
            idx_view(kept@) == alive_indices(alive@, i as int),
            kept@.len() == count_alive(alive@, i as int),
        decreases n - i,
    {
        if alive[i] {
            kept.push(i);
            proof {
                assert(idx_view(kept@) =~= alive_indices(alive@, i as int + 1));
            }
        }
        i += 1;
    }
    let new_active = match active {
        None => None,
        Some(a) => {
            if kept.len() == 0 {
                None
            } else {
                let shifted = count_alive_upto(alive, a);
                if shifted <= kept.len() - 1 {
                    Some(shifted)
                } else {
                    Some(kept.len() - 1)
                }
            }
        }
    };
    (kept, new_active)
}

/// Count the alive panes before index `upto`.
fn count_alive_upto(alive: &Vec<bool>, upto: usize) -> (r: usize)
    requires
        upto <= alive@.len(),
    ensures
        r == count_alive(alive@, upto as int),
{
    let mut c: usize = 0;
    let mut i: usize = 0;
    while i < upto
        invariant
            0 <= i <= upto,
            upto <= alive@.len(),
            c == count_alive(alive@, i as int),
            c <= i,
        decreases upto - i,
    {
        if alive[i] {
            c += 1;
        }
        i += 1;
    }
    c
}

/// The last size applied to a pane's terminal.
#[derive(Debug, Clone, Copy, PartialEq, Eq, Structural)]
pub struct PaneSize {
    pub rows: u16,
    pub cols: u16,
}

/// Decide a resize. Asking for the size already applied, or for a size
/// with a zero dimension, is a no-op: nothing is recorded and the caller
/// must re-issue neither the parser resize nor the window-size signal. A
/// genuinely different size is recorded and must be applied.
pub fn plan_resize(last: &mut PaneSize, rows: u16, cols: u16) -> (changed: bool)
    ensures
        changed == (!(rows == old(last).rows && cols == old(last).cols) && rows != 0 && cols != 0),
        changed ==> final(last).rows == rows && final(last).cols == cols,
        !changed ==> *final(last) == *old(last),
{
    if rows == last.rows && cols == last.cols {
        return false;
    }
    if rows == 0 || cols == 0 {
        return false;
    }
    last.rows = rows;
    last.cols = cols;
    true
}

/// Law: the debounce is idempotent. Once a size stands recorded, asking
/// for that same size again decides no change — the parser resize and the
/// window-size signal are issued at most once per genuine change.
pub proof fn lemma_resize_debounced(s: PaneSize, rows: u16, cols: u16)
    requires
        s.rows == rows,
        s.cols == cols,
    ensures
        !(!(rows == s.rows && cols == s.cols) && rows != 0 && cols != 0),
{
}

} // verus!
