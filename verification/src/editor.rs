//! The editor: a buffer, a cursor in it, and the mode that decides what a
//! key means.

use crate::buffer::{
    can_delete_before, can_insert, with_char_deleted, with_char_inserted, Buffer, BufferView,
};
use crate::cursor::{Cursor, Position};
use crate::error::EditorError;
use crate::key::{Key, KeyPress};
use vstd::prelude::*;
use vstd::string::StringExecFns;

verus! {

/// What the keys mean at the moment.
#[derive(Clone, Copy, Debug, PartialEq, Eq)]
pub enum Mode {
    /// Keys move the cursor and give commands.
    Normal,
    /// Keys type text.
    Insert,
}

/// What the caller has to do after a key.
#[derive(Clone, Copy, Debug, PartialEq, Eq)]
pub enum Action {
    /// Nothing but to paint the screen and read the next key.
    Continue,
    /// Leave the editor.
    Quit,
    /// Write the buffer to its file, then report how that went.
    Save,
}

/// An editor as contracts see it.
pub struct EditorView {
    pub buffer: BufferView,
    pub cursor: Position,
    pub mode: Mode,
    pub status: Option<Seq<char>>,
}

/// The key that leaves the editor, in normal mode.
pub open spec fn is_quit_key(key: Key) -> bool {
    key == Key::Char('q')
}

/// The key that starts typing, in normal mode.
pub open spec fn is_insert_key(key: Key) -> bool {
    key == Key::Char('i')
}

/// What the caller has to do after `press` arrives in `mode`.
pub open spec fn action_for(mode: Mode, press: KeyPress) -> Action {
    match mode {
        Mode::Normal => if is_quit_key(press.key) {
            Action::Quit
        } else {
            Action::Continue
        },
        Mode::Insert => if press.is_save_chord() {
            Action::Save
        } else {
            Action::Continue
        },
    }
}

/// The editor after a key in normal mode.
pub open spec fn after_normal_key(state: EditorView, key: Key) -> EditorView {
    let lines = state.buffer.lines;
    match key {
        Key::Char(_) => if is_insert_key(key) {
            EditorView { mode: Mode::Insert, ..state }
        } else {
            state
        },
        Key::Up => EditorView { cursor: state.cursor.up(lines), ..state },
        Key::Down => EditorView { cursor: state.cursor.down(lines), ..state },
        Key::Left => EditorView { cursor: state.cursor.left(lines), ..state },
        Key::Right => EditorView { cursor: state.cursor.right(lines), ..state },
        _ => state,
    }
}

/// The editor after a character is typed at the cursor: the character goes
/// in and the cursor steps over it. Nothing changes where the cursor is not
/// at a place in the buffer.
pub open spec fn after_typing(state: EditorView, ch: char) -> EditorView {
    let row = state.cursor.row as int;
    let column = state.cursor.column as int;
    if can_insert(state.buffer.lines, row, column) {
        EditorView {
            buffer: BufferView {
                lines: with_char_inserted(state.buffer.lines, row, column, ch),
                ..state.buffer
            },
            cursor: Position { column: state.cursor.column + 1, ..state.cursor },
            ..state
        }
    } else {
        state
    }
}

/// The editor after backspace: the character before the cursor goes and the
/// cursor steps back. Nothing changes where there is no such character.
pub open spec fn after_backspace(state: EditorView) -> EditorView {
    let row = state.cursor.row as int;
    let column = state.cursor.column as int;
    if can_delete_before(state.buffer.lines, row, column) {
        EditorView {
            buffer: BufferView {
                lines: with_char_deleted(state.buffer.lines, row, column),
                ..state.buffer
            },
            cursor: Position { column: (column - 1) as nat, ..state.cursor },
            ..state
        }
    } else {
        state
    }
}

/// The editor after a key in insert mode.
pub open spec fn after_insert_key(state: EditorView, press: KeyPress) -> EditorView {
    if press.is_save_chord() {
        state
    } else {
        match press.key {
            Key::Escape => EditorView { mode: Mode::Normal, ..state },
            Key::Char(c) => after_typing(state, c),
            Key::Backspace => after_backspace(state),
            _ => state,
        }
    }
}

/// The editor after a key.
pub open spec fn after_key(state: EditorView, press: KeyPress) -> EditorView {
    match state.mode {
        Mode::Normal => after_normal_key(state, press.key),
        Mode::Insert => after_insert_key(state, press),
    }
}

/// The editor after the same key `times` times.
pub open spec fn after_repeated_key(state: EditorView, press: KeyPress, times: nat) -> EditorView
    decreases times,
{
    if times == 0 {
        state
    } else {
        after_repeated_key(after_key(state, press), press, (times - 1) as nat)
    }
}

/// What the user is told after a save.
pub open spec fn save_message(saved: bool) -> Seq<char> {
    if saved {
        "File Saved"@
    } else {
        EditorError::RecoverableSave.text()
    }
}

/// The editor after a save that went well, or did not.
pub open spec fn after_save(state: EditorView, saved: bool) -> EditorView {
    EditorView { status: Some(save_message(saved)), ..state }
}

/// The line under the text that names the mode and, in normal mode, the
/// keys to start with.
pub open spec fn status_line(mode: Mode) -> Seq<char> {
    match mode {
        Mode::Insert => "-- INSERT --"@,
        Mode::Normal => "-- NORMAL -- (press 'i' to insert, 'q' to quit)"@,
    }
}

/// The rows of the screen, from the top: the buffer's lines, the status
/// line, and the message of the last save where there was one.
pub open spec fn screen_rows(state: EditorView) -> Seq<Seq<char>> {
    let above = state.buffer.lines.push(status_line(state.mode));
    match state.status {
        Some(message) => above.push(message),
        None => above,
    }
}

/// What to paint: the rows of the screen from the top, and where to leave
/// the cursor.
#[derive(Debug)]
pub struct Frame {
    pub rows: Vec<String>,
    pub cursor: Cursor,
}

impl Frame {
    /// The text of the rows.
    pub open spec fn row_texts(self) -> Seq<Seq<char>> {
        self.rows@.map_values(|row: String| row@)
    }
}

/// The editor's state. The cursor is always at a place in the buffer.
#[derive(Debug)]
pub struct Editor {
    buffer: Buffer,
    cursor: Cursor,
    mode: Mode,
    status: Option<String>,
}

impl View for Editor {
    type V = EditorView;

    closed spec fn view(&self) -> EditorView {
        EditorView {
            buffer: self.buffer@,
            cursor: self.cursor@,
            mode: self.mode,
            status: match self.status {
                Some(message) => Some(message@),
                None => None,
            },
        }
    }
}

impl Editor {
    /// What holds of every editor: its cursor is at a place in its buffer.
    #[verifier::type_invariant]
    pub open spec fn cursor_in_buffer(self) -> bool {
        self@.cursor.in_bounds(self@.buffer.lines)
    }

    /// An editor on `buffer`: in normal mode, the cursor at the start of the
    /// first line, nothing to tell.
    pub fn new(buffer: Buffer) -> (editor: Editor)
        ensures
            editor@ == (EditorView {
                buffer: buffer@,
                cursor: Position { column: 0, row: 0 },
                mode: Mode::Normal,
                status: None,
            }),
    {
        proof {
            use_type_invariant(&buffer);
        }
        Editor { buffer, cursor: Cursor::origin(), mode: Mode::Normal, status: None }
    }

    /// The mode.
    pub fn mode(&self) -> (mode: Mode)
        ensures
            mode == self@.mode,
    {
        self.mode
    }

    /// The cursor: a place in the buffer.
    pub fn cursor(&self) -> (cursor: Cursor)
        ensures
            cursor@ == self@.cursor,
            cursor@.in_bounds(self@.buffer.lines),
    {
        proof {
            use_type_invariant(self);
        }
        self.cursor
    }

    /// The buffer.
    pub fn buffer(&self) -> (buffer: &Buffer)
        ensures
            buffer@ == self@.buffer,
    {
        &self.buffer
    }

    /// What the last save left to tell, if there was one.
    pub fn status(&self) -> (status: Option<String>)
        ensures
            match status {
                Some(message) => self@.status == Some(message@),
                None => self@.status is None,
            },
    {
        match &self.status {
            Some(message) => Some(message.clone()),
            None => None,
        }
    }

    /// Takes one key: moves, types, changes mode, or does nothing, as the
    /// mode has it. Gives the editor as it then is, and what is left for
    /// the caller to do.
    pub fn handle_key(self, press: KeyPress) -> (next: (Editor, Action))
        ensures
            next.0@ == after_key(self@, press),
            next.1 == action_for(self@.mode, press),
    {
        proof {
            use_type_invariant(&self);
        }
        let Editor { mut buffer, mut cursor, mut mode, status } = self;
        let mut action = Action::Continue;
        match mode {
            Mode::Normal => match press.key {
                Key::Char(c) => {
                    if c == 'q' {
                        action = Action::Quit;
                    } else if c == 'i' {
                        mode = Mode::Insert;
                    }
                },
                Key::Up => {
                    cursor.move_up(&buffer);
                },
                Key::Down => {
                    cursor.move_down(&buffer);
                },
                Key::Left => {
                    cursor.move_left(&buffer);
                },
                Key::Right => {
                    cursor.move_right(&buffer);
                },
                _ => {},
            },
            Mode::Insert => match press.key {
                Key::Char(c) => {
                    if c == 's' && press.holds_control() {
                        action = Action::Save;
                    } else if buffer.insert_char(cursor.row, cursor.column, c) {
                        proof {
                            buffer.lemma_addressable();
                            let row = cursor.row as int;
                            assert(buffer@.lines[row].len() == self@.buffer.lines[row].len() + 1);
                        }
                        cursor.column += 1;
                    }
                },
                Key::Escape => {
                    mode = Mode::Normal;
                },
                Key::Backspace => {
                    if buffer.delete_char_before(cursor.row, cursor.column) {
                        cursor.column -= 1;
                    }
                },
                _ => {},
            },
        }
        (Editor { buffer, cursor, mode, status }, action)
    }

    /// Takes the outcome of the save that `handle_key` asked for, and keeps
    /// what to tell the user about it. A failed save stops nothing.
    pub fn save_finished(self, outcome: Result<(), EditorError>) -> (next: Editor)
        ensures
            next@ == after_save(self@, outcome is Ok),
    {
        proof {
            use_type_invariant(&self);
        }
        let message = match outcome {
            Ok(_) => String::from_str("File Saved"),
            Err(_) => EditorError::RecoverableSave.message(),
        };
        let Editor { buffer, cursor, mode, status: _ } = self;
        Editor { buffer, cursor, mode, status: Some(message) }
    }

    /// What to paint after a key: every line of the buffer from the top of
    /// the screen, the status line under the last of them, under that the
    /// message of the last save where there was one; and the cursor's place.
    pub fn render(&self) -> (frame: Frame)
        ensures
            frame.row_texts() == screen_rows(self@),
            frame.cursor@ == self@.cursor.shown(self@.buffer.lines),
            frame.cursor@.in_bounds(self@.buffer.lines),
    {
        let mut rows: Vec<String> = Vec::new();
        let count = self.buffer.line_count();
        let mut row: usize = 0;
        while row < count
            invariant
                row <= count,
                count == self@.buffer.lines.len(),
                rows@.map_values(|r: String| r@) == self@.buffer.lines.take(row as int),
            decreases count - row,
        {
            let ghost before = rows@.map_values(|r: String| r@);
            match self.buffer.line(row) {
                Some(text) => {
                    rows.push(text);
                },
                None => {},
            }
            row += 1;
            assert(rows@.map_values(|r: String| r@) =~= before.push(
                self@.buffer.lines[row - 1],
            ));
            assert(self@.buffer.lines.take(row as int) =~= before.push(
                self@.buffer.lines[row - 1],
            ));
        }
        assert(self@.buffer.lines.take(row as int) =~= self@.buffer.lines);
        let ghost lines = rows@.map_values(|r: String| r@);
        let status = match self.mode {
            Mode::Insert => String::from_str("-- INSERT --"),
            Mode::Normal => String::from_str("-- NORMAL -- (press 'i' to insert, 'q' to quit)"),
        };
        rows.push(status);
        assert(rows@.map_values(|r: String| r@) =~= lines.push(status_line(self.mode)));
        let ghost above = rows@.map_values(|r: String| r@);
        match &self.status {
            Some(message) => {
                rows.push(message.clone());
                assert(rows@.map_values(|r: String| r@) =~= above.push(message@));
            },
            None => {},
        }
        Frame { rows, cursor: self.cursor.clamp_for_render(&self.buffer) }
    }
}

/// Escape does nothing in normal mode, however often it is pressed and
/// whatever is held with it: mode, buffer, cursor and message stay as they
/// are, and the editor goes on.
pub proof fn lemma_escape_in_normal_mode_is_idle(state: EditorView, modifiers: u8, times: nat)
    requires
        state.mode == Mode::Normal,
    ensures
        after_repeated_key(state, KeyPress { key: Key::Escape, modifiers }, times) == state,
        action_for(state.mode, KeyPress { key: Key::Escape, modifiers }) == Action::Continue,
    decreases times,
{
    if times > 0 {
        lemma_escape_in_normal_mode_is_idle(state, modifiers, (times - 1) as nat);
    }
}

/// No key takes the cursor out of the buffer, and no key changes how many
/// lines the buffer holds or the path of its file.
pub proof fn lemma_keys_keep_cursor_in_buffer(state: EditorView, press: KeyPress)
    requires
        state.cursor.in_bounds(state.buffer.lines),
    ensures
        after_key(state, press).cursor.in_bounds(after_key(state, press).buffer.lines),
        after_key(state, press).buffer.lines.len() == state.buffer.lines.len(),
        after_key(state, press).buffer.path == state.buffer.path,
{
}

} // verus!
