//! The line buffer: the text under edit, and the file it belongs to.

use crate::error::EditorError;
use crate::text::{
    bytes_of_lines, holds_no_newline, join_lines, lemma_lines_hold_no_newline,
    lemma_lines_round_trip, line_seqs, lines_of_bytes, split_lines, string_of,
};
use vstd::prelude::*;

verus! {

/// What came of reading the file at start-up.
#[derive(Debug)]
pub enum FileRead {
    /// The file was there, with these bytes in it.
    Contents(Vec<u8>),
    /// There was no such file, and an empty one was made in its place.
    Missing,
    /// The file was there and could not be read, or was not there and could
    /// not be made.
    Unreadable,
}

/// The lines a buffer starts with, given a file's lines: the same lines, or
/// one empty line where the file has none.
pub open spec fn at_least_one_line(lines: Seq<Seq<char>>) -> Seq<Seq<char>> {
    if lines.len() == 0 {
        seq![Seq::empty()]
    } else {
        lines
    }
}

/// Whether lines can be held in memory: their number, and the length of
/// each, is within `usize`. The lines of every buffer are.
pub open spec fn addressable(lines: Seq<Seq<char>>) -> bool {
    &&& lines.len() <= usize::MAX
    &&& forall|i: int| 0 <= i < lines.len() ==> (#[trigger] lines[i]).len() <= usize::MAX
}

/// Whether a character can go in at `column` of line `row`.
pub open spec fn can_insert(lines: Seq<Seq<char>>, row: int, column: int) -> bool {
    0 <= row < lines.len() && 0 <= column <= lines[row].len()
}

/// The lines with `ch` put in at `column` of line `row`; the lines as they
/// are, where there is no such place.
pub open spec fn with_char_inserted(lines: Seq<Seq<char>>, row: int, column: int, ch: char) -> Seq<
    Seq<char>,
> {
    if can_insert(lines, row, column) {
        lines.update(row, lines[row].insert(column, ch))
    } else {
        lines
    }
}

/// Whether line `row` has a character directly before `column`.
pub open spec fn can_delete_before(lines: Seq<Seq<char>>, row: int, column: int) -> bool {
    0 <= row < lines.len() && 0 < column <= lines[row].len()
}

/// The lines without the character before `column` of line `row`; the lines
/// as they are, where there is no such character.
pub open spec fn with_char_deleted(lines: Seq<Seq<char>>, row: int, column: int) -> Seq<
    Seq<char>,
> {
    if can_delete_before(lines, row, column) {
        lines.update(row, lines[row].remove(column - 1))
    } else {
        lines
    }
}

/// A buffer as contracts see it.
pub struct BufferView {
    pub lines: Seq<Seq<char>>,
    pub path: Seq<char>,
}

/// The text under edit, line by line, with the path of its file. It always
/// holds at least one line.
#[derive(Debug)]
pub struct Buffer {
    lines: Vec<Vec<char>>,
    path: String,
}

impl View for Buffer {
    type V = BufferView;

    closed spec fn view(&self) -> BufferView {
        BufferView { lines: line_seqs(self.lines@), path: self.path@ }
    }
}

impl Buffer {
    /// What holds of every buffer: it has a line.
    #[verifier::type_invariant]
    pub open spec fn has_a_line(self) -> bool {
        self@.lines.len() >= 1
    }

    /// The buffer for the file at `path`, given what reading it gave.
    ///
    /// A file that was missing gives one empty line, and so does a file with
    /// no line in it. Only a file that could be neither read nor made is an
    /// error.
    pub fn load(path: String, read: FileRead) -> (loaded: Result<Buffer, EditorError>)
        ensures
            match read {
                FileRead::Contents(bytes) => loaded is Ok && loaded.unwrap()@ == (BufferView {
                    lines: at_least_one_line(lines_of_bytes(bytes@)),
                    path: path@,
                }),
                FileRead::Missing => loaded is Ok && loaded.unwrap()@ == (BufferView {
                    lines: seq![Seq::empty()],
                    path: path@,
                }),
                FileRead::Unreadable => loaded == Err::<Buffer, EditorError>(
                    EditorError::FatalStartup,
                ),
            },
            loaded is Ok ==> loaded.unwrap()@.lines.len() >= 1,
    {
        let mut lines = match read {
            FileRead::Contents(bytes) => split_lines(bytes.as_slice()),
            FileRead::Missing => Vec::new(),
            FileRead::Unreadable => {
                return Err(EditorError::FatalStartup);
            },
        };
        if lines.len() == 0 {
            lines.push(Vec::new());
            assert(line_seqs(lines@) =~= seq![Seq::<char>::empty()]);
        }
        Ok(Buffer { lines, path })
    }

    /// A buffer's lines are held in memory.
    pub proof fn lemma_addressable(&self)
        ensures
            addressable(self@.lines),
    {
        assert(self.lines.len() == self.lines@.len());
        assert forall|i: int| 0 <= i < self@.lines.len() implies (#[trigger] self@.lines[i]).len()
            <= usize::MAX by {
            assert(self.lines@[i].len() == self.lines@[i]@.len());
        }
    }

    /// The path of the buffer's file.
    pub fn path(&self) -> (path: &str)
        ensures
            path@ == self@.path,
    {
        self.path.as_str()
    }

    /// How many lines the buffer holds: never none.
    pub fn line_count(&self) -> (count: usize)
        ensures
            count == self@.lines.len(),
            count >= 1,
    {
        proof {
            use_type_invariant(self);
        }
        self.lines.len()
    }

    /// How many characters line `row` holds; 0 where there is no such line.
    pub fn line_len(&self, row: usize) -> (len: usize)
        ensures
            len == if row < self@.lines.len() {
                self@.lines[row as int].len()
            } else {
                0
            },
    {
        if row < self.lines.len() {
            self.lines[row].len()
        } else {
            0
        }
    }

    /// The text of line `row`, where there is such a line.
    pub fn line(&self, row: usize) -> (text: Option<String>)
        ensures
            text is Some <==> row < self@.lines.len(),
            text matches Some(t) ==> t@ == self@.lines[row as int],
    {
        if row < self.lines.len() {
            Some(string_of(&self.lines[row]))
        } else {
            None
        }
    }

    /// Puts `ch` in at `column` of line `row`, and says whether it did.
    /// Where there is no such place the buffer stays as it is.
    pub fn insert_char(&mut self, row: usize, column: usize, ch: char) -> (inserted: bool)
        ensures
            inserted == can_insert(old(self)@.lines, row as int, column as int),
            final(self)@.lines == with_char_inserted(
                old(self)@.lines,
                row as int,
                column as int,
                ch,
            ),
            final(self)@.path == old(self)@.path,
            final(self)@.lines.len() == old(self)@.lines.len(),
    {
        if row < self.lines.len() {
            if column <= self.lines[row].len() {
                self.lines[row].insert(column, ch);
                assert(self@.lines =~= with_char_inserted(
                    old(self)@.lines,
                    row as int,
                    column as int,
                    ch,
                ));
                return true;
            }
        }
        false
    }

    /// Takes out the character before `column` of line `row`, and says
    /// whether it did. Where there is no such character the buffer stays as
    /// it is.
    pub fn delete_char_before(&mut self, row: usize, column: usize) -> (deleted: bool)
        ensures
            deleted == can_delete_before(old(self)@.lines, row as int, column as int),
            final(self)@.lines == with_char_deleted(old(self)@.lines, row as int, column as int),
            final(self)@.path == old(self)@.path,
            final(self)@.lines.len() == old(self)@.lines.len(),
    {
        if row < self.lines.len() {
            if column > 0 && column <= self.lines[row].len() {
                self.lines[row].remove(column - 1);
                assert(self@.lines =~= with_char_deleted(
                    old(self)@.lines,
                    row as int,
                    column as int,
                ));
                return true;
            }
        }
        false
    }

    /// The bytes to write to the buffer's file: every line, each followed by
    /// a newline.
    pub fn to_bytes(&self) -> (bytes: Vec<u8>)
        ensures
            bytes@ == bytes_of_lines(self@.lines),
    {
        join_lines(&self.lines)
    }
}

/// Saving and loading again gives the same lines: the bytes written for a
/// buffer's lines, read as the contents of its file, make a buffer with
/// those lines, where none of them holds a newline.
pub proof fn lemma_saved_lines_load_back(lines: Seq<Seq<char>>)
    requires
        lines.len() >= 1,
        forall|i: int| 0 <= i < lines.len() ==> holds_no_newline(#[trigger] lines[i]),
    ensures
        at_least_one_line(lines_of_bytes(bytes_of_lines(lines))) == lines,
{
    lemma_lines_round_trip(lines);
}

/// A buffer that was loaded and saved at once loads back with the same
/// lines, whatever the file held: no line of a file holds a newline.
pub proof fn lemma_loaded_lines_load_back(bytes: Seq<u8>)
    ensures
        at_least_one_line(
            lines_of_bytes(bytes_of_lines(at_least_one_line(lines_of_bytes(bytes)))),
        ) == at_least_one_line(lines_of_bytes(bytes)),
{
    let lines = at_least_one_line(lines_of_bytes(bytes));
    lemma_lines_hold_no_newline(bytes);
    assert forall|k: int| 0 <= k < lines.len() implies holds_no_newline(#[trigger] lines[k]) by {
        if lines_of_bytes(bytes).len() > 0 {
            assert(lines[k] == lines_of_bytes(bytes)[k]);
        }
    }
    lemma_saved_lines_load_back(lines);
}

/// Typing and deleting leave the number of lines as it is: an edit never
/// empties a buffer.
pub proof fn lemma_edits_keep_line_count(lines: Seq<Seq<char>>, row: int, column: int, ch: char)
    ensures
        with_char_inserted(lines, row, column, ch).len() == lines.len(),
        with_char_deleted(lines, row, column).len() == lines.len(),
        at_least_one_line(lines).len() >= 1,
{
}

} // verus!
