//! The terminal command language the renderer speaks.
//!
//! Rendering produces a sequence of `Command` values instead of writing
//! escape sequences itself: the surrounding program replays them on a real
//! terminal, and a test can inspect them as plain data.

use vstd::prelude::*;

verus! {

/// One terminal control step. A full frame is a sequence of these, in the
/// exact order they must reach the terminal.
#[derive(Clone, Copy, PartialEq, Eq, Structural, Debug)]
pub enum Command {
    /// Stop drawing the cursor while the frame is painted.
    HideCursor,
    /// Move the cursor to the given column and row (zero-based).
    MoveTo(u16, u16),
    /// Set the background color to the given RGB triple.
    SetBackground(u8, u8, u8),
    /// Set the foreground color to the given RGB triple.
    SetForeground(u8, u8, u8),
    /// Print one character at the cursor; the cursor advances by one column.
    Print(char),
    /// Restore the terminal's default colors.
    ResetColor,
    /// Draw the cursor again.
    ShowCursor,
    /// Push everything queued so far out to the terminal in one batch.
    Flush,
}

} // verus!
