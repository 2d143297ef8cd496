//! The terminal-emulation state of one pane. The parser itself comes from
//! the outside `vt100` crate; Verus sees it only through the trusted
//! wrappers below, whose contracts follow that crate's source: feeding
//! bytes never changes the screen size, resizing sets exactly the given
//! size, and the text contents are a function of the parser state alone.

use vstd::prelude::*;

use crate::pane::PaneSize;

verus! {

/// One terminal-emulation parser; holds the outside crate's state.
#[verifier::external_body]
pub struct TermParser {
    inner: vt100::Parser,
}

/// The screen size (rows, cols) a parser currently holds.
pub uninterp spec fn term_size(p: TermParser) -> (u16, u16);

/// The plain-text screen contents of a parser state.
pub uninterp spec fn term_text(p: TermParser) -> Seq<char>;

/// The parser state after processing a byte string: terminal emulation is
/// deterministic, so the result depends on the prior state and the bytes
/// alone.
pub uninterp spec fn vt_processed(p: TermParser, bytes: Seq<u8>) -> TermParser;

/// The parser state after a resize.
pub uninterp spec fn vt_resized(p: TermParser, rows: u16, cols: u16) -> TermParser;

/// Relies on vt100::Parser::new: the new parser's screen has exactly the
/// given size.
#[verifier::external_body]
pub fn term_new(rows: u16, cols: u16, scrollback: usize) -> (r: TermParser)
    requires
        rows >= 1,
        cols >= 1,
    ensures
        term_size(r) == (rows, cols),
{
    TermParser { inner: vt100::Parser::new(rows, cols, scrollback) }
}

/// Relies on vt100::Parser::process: the in-memory terminal state advances
/// by the given bytes; nothing in that path touches the screen size.
#[verifier::external_body]
pub fn term_process(p: &mut TermParser, bytes: &[u8])
    ensures
        *final(p) == vt_processed(*old(p), bytes@),
        term_size(*final(p)) == term_size(*old(p)),
{
    p.inner.process(bytes);
}

/// Relies on vt100::Screen::set_size: both grids take exactly the given
/// size.
#[verifier::external_body]
pub fn term_set_size(p: &mut TermParser, rows: u16, cols: u16)
    requires
        rows >= 1,
        cols >= 1,
    ensures
        *final(p) == vt_resized(*old(p), rows, cols),
        term_size(*final(p)) == (rows, cols),
{
    p.inner.screen_mut().set_size(rows, cols);
}

/// Relies on vt100::Screen::contents: the plain-text contents of the
/// terminal, a function of the parser state alone.
#[verifier::external_body]
pub fn term_contents(p: &TermParser) -> (r: String)
    ensures
        r@ == term_text(*p),
{
    p.inner.screen().contents()
}

/// Relies on vt100::Screen::size: reports (rows, cols).
#[verifier::external_body]
pub fn term_screen_size(p: &TermParser) -> (r: (u16, u16))
    ensures
        r == term_size(*p),
{
    p.inner.screen().size()
}

/// A pane's terminal: the parser and the size last applied to it.
pub struct PaneTerm {
    pub parser: TermParser,
    pub last: PaneSize,
}

impl PaneTerm {
    /// A fresh pane terminal of the given size.
    pub fn new(rows: u16, cols: u16, scrollback: usize) -> (r: PaneTerm)
        requires
            rows >= 1,
            cols >= 1,
        ensures
            term_size(r.parser) == (rows, cols),
            r.last == (PaneSize { rows, cols }),
    {
        PaneTerm { parser: term_new(rows, cols, scrollback), last: PaneSize { rows, cols } }
    }

    /// Feed child output into the terminal; the recorded size stands.
    pub fn feed(&mut self, bytes: &[u8])
        ensures
            final(self).parser == vt_processed(old(self).parser, bytes@),
            term_size(final(self).parser) == term_size(old(self).parser),
            final(self).last == old(self).last,
    {
        term_process(&mut self.parser, bytes);
    }

    /// Resize the pane's terminal, debounced: asking for the size last
    /// applied, or for a zero dimension, changes nothing — the parser's
    /// buffer is not touched and the caller must not re-issue the
    /// window-size signal. A genuinely different size resizes the parser
    /// to exactly (rows, cols) and is recorded; the caller then signals
    /// the child once.
    pub fn resize_to(&mut self, rows: u16, cols: u16) -> (changed: bool)
        ensures
            changed == (!(rows == old(self).last.rows && cols == old(self).last.cols) && rows != 0
                && cols != 0),
            !changed ==> *final(self) == *old(self),
            changed ==> final(self).parser == vt_resized(old(self).parser, rows, cols)
                && term_size(final(self).parser) == (rows, cols) && final(self).last == (PaneSize {
                rows,
                cols,
            }),
    {
        let changed = crate::pane::plan_resize(&mut self.last, rows, cols);
        if changed {
            term_set_size(&mut self.parser, rows, cols);
        }
        changed
    }

    /// The plain-text screen contents.
    pub fn contents(&self) -> (r: String)
        ensures
            r@ == term_text(self.parser),
    {
        term_contents(&self.parser)
    }

    /// The screen size the parser holds.
    pub fn size(&self) -> (r: (u16, u16))
        ensures
            r == term_size(self.parser),
    {
        term_screen_size(&self.parser)
    }
}

} // verus!
