//! The events the chat reacts to: terminal input and model output.
use vstd::prelude::*;

use crate::chat::RequestId;

verus! {

/// The modifiers of a key that is pressed alone.
pub const NO_MODIFIERS: u8 = 0;

/// The shift key; the modifiers of a key press are the sum of those held.
pub const SHIFT: u8 = 1;

/// The control key.
pub const CONTROL: u8 = 2;

/// The alt key.
pub const ALT: u8 = 4;

/// A key of the keyboard.
#[derive(Debug, Clone, Copy, PartialEq, Eq, Structural)]
pub enum KeyCode {
    Char(char),
    Enter,
    Esc,
    Backspace,
    Up,
    Down,
    PageUp,
    PageDown,
    End,
    /// Any other key.
    Other,
}

/// A key that was pressed, held or released.
#[derive(Debug, Clone, Copy, PartialEq, Eq, Structural)]
pub struct KeyEvent {
    pub code: KeyCode,
    pub modifiers: u8,
    /// Whether the key went down just now.
    pub press: bool,
}

/// What the mouse did.
#[derive(Debug, Clone, Copy, PartialEq, Eq, Structural)]
pub enum MouseKind {
    /// The left button went down.
    LeftDown,
    ScrollUp,
    ScrollDown,
    /// Anything else.
    Other,
}

/// What the mouse did, and where.
#[derive(Debug, Clone, Copy, PartialEq, Eq, Structural)]
pub struct MouseEvent {
    pub kind: MouseKind,
    pub column: u16,
    pub row: u16,
}

/// A key press, paste, or resize from the terminal.
#[derive(Debug)]
pub enum TerminalEvent {
    Key(KeyEvent),
    Paste(String),
    Mouse(MouseEvent),
    /// Anything else, such as a resize.
    Other,
}

/// A piece of a streamed reply.
#[derive(Debug)]
pub enum ReplyPiece {
    /// More generated text, and how many tokens it took.
    Text { text: String, token_count: u32 },
    /// The reply is complete.
    Finished,
    /// The request failed; the message explains why.
    Failed(String),
}

/// Something the chat has to react to.
#[derive(Debug)]
pub enum Event {
    Terminal(TerminalEvent),
    /// A piece of the reply to request `request_id`.
    Reply { request_id: RequestId, piece: ReplyPiece },
}

} // verus!
