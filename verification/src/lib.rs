//! The core of a small modal text editor: a line buffer, a cursor that stays
//! inside it, and the state machine that turns key presses into edits.
//!
//! Nothing here touches a terminal or a file. The caller reads keys and file
//! contents, hands them in as plain values, and paints the frames that come
//! back.

pub mod buffer;
pub mod cursor;
pub mod editor;
pub mod error;
pub mod key;
pub mod text;

pub use buffer::{Buffer, FileRead};
pub use cursor::Cursor;
pub use editor::{Action, Editor, Frame, Mode};
pub use error::EditorError;
pub use key::{Key, KeyPress, CONTROL, NO_MODIFIERS};
