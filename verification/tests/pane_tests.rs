use forge::pane::{
    cleanup_plan, is_ctrl_g, key_input_bytes, parse_command, route_key, Command, InputAction,
    InputMode, Key, KeyPress,
};

fn make_key(key: Key, ctrl: bool, alt: bool, shift: bool) -> KeyPress {
    KeyPress { key, ctrl, alt, shift }
}

fn plain(key: Key) -> KeyPress {
    make_key(key, false, false, false)
}

fn bytes_for(k: KeyPress) -> Vec<u8> {
    key_input_bytes(&k).unwrap_or_default()
}

#[test]
fn key_event_enter() {
    assert_eq!(bytes_for(plain(Key::Enter)), vec![0x0D]);
}

#[test]
fn key_event_char_a() {
    assert_eq!(bytes_for(plain(Key::Char('a'))), vec![b'a']);
}

#[test]
fn key_event_ctrl_c() {
    let bytes = bytes_for(make_key(Key::Char('c'), true, false, false));
    assert_eq!(bytes, vec![3]); // 'C' - 64 = 3
}

#[test]
fn key_event_esc() {
    assert_eq!(bytes_for(plain(Key::Esc)), vec![27]);
}

#[test]
fn key_event_arrow_up() {
    assert_eq!(bytes_for(plain(Key::Up)), vec![27, 91, 65]);
}

#[test]
fn key_event_arrow_down() {
    assert_eq!(bytes_for(plain(Key::Down)), vec![27, 91, 66]);
}

#[test]
fn key_event_arrow_right() {
    assert_eq!(bytes_for(plain(Key::Right)), vec![27, 91, 67]);
}

#[test]
fn key_event_arrow_left() {
    assert_eq!(bytes_for(plain(Key::Left)), vec![27, 91, 68]);
}

#[test]
fn key_event_tab() {
    assert_eq!(bytes_for(plain(Key::Tab)), vec![9]);
}

#[test]
fn key_event_backspace() {
    assert_eq!(bytes_for(plain(Key::Backspace)), vec![8]);
}

#[test]
fn key_event_unhandled_sends_nothing() {
    assert!(key_input_bytes(&plain(Key::Other)).is_none());
}

#[test]
fn key_event_ctrl_space_sends_nul() {
    let bytes = bytes_for(make_key(Key::Char(' '), true, false, false));
    assert_eq!(bytes, vec![0]);
}

#[test]
fn is_ctrl_g_true() {
    assert!(is_ctrl_g(&make_key(Key::Char('g'), true, false, false)));
}

#[test]
fn is_ctrl_g_plain_g() {
    assert!(!is_ctrl_g(&plain(Key::Char('g'))));
}

#[test]
fn is_ctrl_g_ctrl_h() {
    assert!(!is_ctrl_g(&make_key(Key::Char('h'), true, false, false)));
}

#[test]
fn is_ctrl_g_shift_g() {
    assert!(!is_ctrl_g(&make_key(Key::Char('g'), false, false, true)));
}

#[test]
fn command_keys_map_to_commands() {
    assert_eq!(parse_command(&plain(Key::Char('1'))), Command::Goto(0));
    assert_eq!(parse_command(&plain(Key::Char('9'))), Command::Goto(8));
    assert_eq!(parse_command(&plain(Key::Char('j'))), Command::NextPane);
    assert_eq!(parse_command(&plain(Key::Char('k'))), Command::PrevPane);
    assert_eq!(parse_command(&plain(Key::Down)), Command::NextPane);
    assert_eq!(parse_command(&plain(Key::Up)), Command::PrevPane);
    assert_eq!(parse_command(&plain(Key::Char('n'))), Command::NewPane);
    assert_eq!(parse_command(&plain(Key::Char('x'))), Command::ClosePane);
    assert_eq!(parse_command(&plain(Key::Char('q'))), Command::Quit);
    assert_eq!(parse_command(&plain(Key::Esc)), Command::Cancel);
    assert_eq!(parse_command(&plain(Key::Char('z'))), Command::Cancel);
}

#[test]
fn command_mode_consumes_exactly_one_key() {
    // the command chord enters command mode; the next key runs a command
    // and drops back to normal mode
    let (mode, action) = route_key(InputMode::Normal, &make_key(Key::Char('g'), true, false, false));
    assert_eq!(mode, InputMode::Command);
    assert!(matches!(action, InputAction::EnterCommand));
    let (mode, action) = route_key(InputMode::Command, &plain(Key::Char('q')));
    assert_eq!(mode, InputMode::Normal);
    assert!(matches!(action, InputAction::Run(Command::Quit)));
    // a key in normal mode is forwarded to the pane
    let (mode, action) = route_key(InputMode::Normal, &plain(Key::Char('a')));
    assert_eq!(mode, InputMode::Normal);
    match action {
        InputAction::Forward(v) => assert_eq!(v, vec![b'a']),
        other => panic!("expected forwarded bytes, got {other:?}"),
    }
}

#[test]
fn cleanup_all_alive() {
    let alive = vec![true, true, true];
    let (kept, active) = cleanup_plan(&alive, Some(1));
    assert_eq!(kept.len(), 3);
    assert_eq!(active, Some(1));
}

#[test]
fn cleanup_first_dead_active_zero() {
    let alive = vec![false, true, true];
    let (kept, active) = cleanup_plan(&alive, Some(0));
    assert_eq!(kept.len(), 2);
    // active was pointing to the removed pane (index 0), should stay at 0
    // since there are still panes
    assert_eq!(active, Some(0));
}

#[test]
fn cleanup_middle_dead_active_above() {
    let alive = vec![true, false, true];
    let (kept, active) = cleanup_plan(&alive, Some(2));
    assert_eq!(kept.len(), 2);
    assert_eq!(active, Some(1)); // decremented because removed index was below
}

#[test]
fn cleanup_last_dead() {
    let alive = vec![true, true, false];
    let (kept, active) = cleanup_plan(&alive, Some(2));
    assert_eq!(kept.len(), 2);
    assert_eq!(active, Some(1)); // clamped to last index
}

#[test]
fn cleanup_all_dead() {
    let alive = vec![false, false, false];
    let (kept, active) = cleanup_plan(&alive, Some(1));
    assert_eq!(kept.len(), 0);
    assert_eq!(active, None);
}

#[test]
fn cleanup_multiple_dead_scattered() {
    let alive = vec![false, true, false, true];
    let (kept, active) = cleanup_plan(&alive, Some(3));
    assert_eq!(kept.len(), 2);
    assert_eq!(kept[0], 1);
    assert_eq!(kept[1], 3);
    // active was 3 -> two panes removed before it, should be 1
    assert_eq!(active, Some(1));
}
