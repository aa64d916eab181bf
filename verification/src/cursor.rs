//! The cursor: a column and a row, and the moves that keep it inside the
//! buffer.

use crate::buffer::Buffer;
use vstd::prelude::*;

verus! {

/// A position in the buffer. Column and row count from zero. The column may
/// stand one past the last character of its line, where the next character
/// would go.
#[derive(Clone, Copy, Debug, PartialEq, Eq)]
pub struct Cursor {
    pub column: usize,
    pub row: usize,
}

/// A cursor as contracts see it.
pub struct Position {
    pub column: nat,
    pub row: nat,
}

impl View for Cursor {
    type V = Position;

    open spec fn view(&self) -> Position {
        Position { column: self.column as nat, row: self.row as nat }
    }
}

/// The length of line `row`; 0 where there is no such line.
pub open spec fn line_len_at(lines: Seq<Seq<char>>, row: int) -> nat {
    if 0 <= row < lines.len() {
        lines[row].len()
    } else {
        0
    }
}

/// The smaller of two numbers.
pub open spec fn at_most(column: nat, len: nat) -> nat {
    if column <= len {
        column
    } else {
        len
    }
}

impl Position {
    /// Whether the position is on a line of `lines`, at or before that
    /// line's end.
    pub open spec fn in_bounds(self, lines: Seq<Seq<char>>) -> bool {
        &&& self.row < lines.len()
        &&& self.column <= lines[self.row as int].len()
    }

    /// One line up, the column held back to that line's end; the position
    /// as it is, where there is no such line.
    pub open spec fn up(self, lines: Seq<Seq<char>>) -> Position {
        if 0 <= self.row - 1 < lines.len() {
            Position {
                column: at_most(self.column, lines[self.row - 1].len()),
                row: (self.row - 1) as nat,
            }
        } else {
            self
        }
    }

    /// One line down, the column held back to that line's end; the position
    /// as it is, where there is no such line.
    pub open spec fn down(self, lines: Seq<Seq<char>>) -> Position {
        if self.row + 1 < lines.len() {
            Position {
                column: at_most(self.column, lines[self.row as int + 1].len()),
                row: self.row + 1,
            }
        } else {
            self
        }
    }

    /// One column to the left; the position as it is, where that column is
    /// not within its line.
    pub open spec fn left(self, lines: Seq<Seq<char>>) -> Position {
        if 0 <= self.column - 1 <= line_len_at(lines, self.row as int) {
            Position { column: (self.column - 1) as nat, row: self.row }
        } else {
            self
        }
    }

    /// One column to the right; the position as it is, where that column is
    /// past the end of its line.
    pub open spec fn right(self, lines: Seq<Seq<char>>) -> Position {
        if self.column + 1 <= line_len_at(lines, self.row as int) {
            Position { column: self.column + 1, row: self.row }
        } else {
            self
        }
    }

    /// Where to show a cursor that stands here: the row held back to the
    /// last line, the column to the end of the line it is then on.
    pub open spec fn shown(self, lines: Seq<Seq<char>>) -> Position
        recommends
            lines.len() >= 1,
    {
        let row = if self.row < lines.len() {
            self.row
        } else {
            (lines.len() - 1) as nat
        };
        Position { column: at_most(self.column, lines[row as int].len()), row }
    }
}

impl Cursor {
    /// A cursor at the given column and row.
    pub fn new(column: usize, row: usize) -> (cursor: Cursor)
        ensures
            cursor == (Cursor { column, row }),
    {
        Cursor { column, row }
    }

    /// The cursor at the start of the first line.
    pub fn origin() -> (cursor: Cursor)
        ensures
            cursor == (Cursor { column: 0, row: 0 }),
    {
        Cursor { column: 0, row: 0 }
    }

    /// Moves one line up.
    pub fn move_up(&mut self, buffer: &Buffer)
        ensures
            final(self)@ == old(self)@.up(buffer@.lines),
    {
        if self.row > 0 && self.row - 1 < buffer.line_count() {
            self.row -= 1;
            let len = buffer.line_len(self.row);
            if self.column > len {
                self.column = len;
            }
        }
    }

    /// Moves one line down.
    pub fn move_down(&mut self, buffer: &Buffer)
        ensures
            final(self)@ == old(self)@.down(buffer@.lines),
    {
        if self.row < buffer.line_count() - 1 {
            self.row += 1;
            let len = buffer.line_len(self.row);
            if self.column > len {
                self.column = len;
            }
        }
    }

    /// Moves one column to the left.
    pub fn move_left(&mut self, buffer: &Buffer)
        ensures
            final(self)@ == old(self)@.left(buffer@.lines),
    {
        if self.column > 0 && self.column - 1 <= buffer.line_len(self.row) {
            self.column -= 1;
        }
    }

    /// Moves one column to the right.
    pub fn move_right(&mut self, buffer: &Buffer)
        ensures
            final(self)@ == old(self)@.right(buffer@.lines),
    {
        if self.column < buffer.line_len(self.row) {
            self.column += 1;
        }
    }

    /// Where to show the cursor on the screen, whatever it holds: a place
    /// inside the buffer. The cursor itself stays as it is.
    pub fn clamp_for_render(&self, buffer: &Buffer) -> (shown: Cursor)
        ensures
            shown@ == self@.shown(buffer@.lines),
            shown@.in_bounds(buffer@.lines),
    {
        let count = buffer.line_count();
        let row = if self.row < count {
            self.row
        } else {
            count - 1
        };
        let len = buffer.line_len(row);
        let column = if self.column <= len {
            self.column
        } else {
            len
        };
        Cursor { column, row }
    }
}

/// The start of the first line is a place in every buffer.
pub proof fn lemma_origin_in_bounds(lines: Seq<Seq<char>>)
    requires
        lines.len() >= 1,
    ensures
        (Position { column: 0, row: 0 }).in_bounds(lines),
{
}

/// No move takes a cursor out of the buffer: from a place in the buffer,
/// each of the four moves leads to a place in the buffer.
pub proof fn lemma_moves_stay_in_bounds(position: Position, lines: Seq<Seq<char>>)
    requires
        position.in_bounds(lines),
    ensures
        position.up(lines).in_bounds(lines),
        position.down(lines).in_bounds(lines),
        position.left(lines).in_bounds(lines),
        position.right(lines).in_bounds(lines),
{
}

/// The place where a cursor is shown is a place in the buffer, and it is
/// the cursor's own place where that is one.
pub proof fn lemma_shown_in_bounds(position: Position, lines: Seq<Seq<char>>)
    requires
        lines.len() >= 1,
    ensures
        position.shown(lines).in_bounds(lines),
        position.in_bounds(lines) ==> position.shown(lines) == position,
{
}

} // verus!
