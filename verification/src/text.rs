//! Text as the buffer holds it (sequences of characters), as the screen wants
//! it (strings), and as a file holds it (UTF-8 bytes cut into lines).

use vstd::prelude::*;
use vstd::slice::slice_subrange;
use vstd::utf8::*;

verus! {

/// `String::push` appends one character to the end of the string.
#[verifier::external_body]
fn push_char(text: &mut String, ch: char)
    ensures
        final(text)@ == old(text)@.push(ch),
{
    text.push(ch)
}

/// `std::str::from_utf8` accepts exactly the byte strings that are well-formed
/// UTF-8, and the string slice it then returns holds the characters those
/// bytes encode.
#[verifier::external_body]
fn utf8_text(bytes: &[u8]) -> (text: Option<&str>)
    ensures
        text is Some <==> valid_utf8(bytes@),
        text matches Some(s) ==> s@ == decode_utf8(bytes@),
{
    match std::str::from_utf8(bytes) {
        Ok(s) => Some(s),
        Err(_) => None,
    }
}

/// The string that holds the given characters.
pub fn string_of(chars: &Vec<char>) -> (text: String)
    ensures
        text@ == chars@,
{
    let mut text = String::new();
    let mut i: usize = 0;
    while i < chars.len()
        invariant
            i <= chars.len(),
            text@ == chars@.take(i as int),
        decreases chars.len() - i,
    {
        push_char(&mut text, chars[i]);
        i += 1;
        assert(chars@.take(i as int) == chars@.take(i - 1).push(chars@[i - 1]));
    }
    assert(chars@.take(i as int) == chars@);
    text
}

/// The characters of a string, in order.
pub fn chars_of(text: &str) -> (chars: Vec<char>)
    ensures
        chars@ == text@,
{
    let mut chars: Vec<char> = Vec::new();
    for ch in it: text.chars()
        invariant
            chars@ == it.seq().take(it.index()),
    {
        chars.push(ch);
    }
    chars
}

/// Whether a character is white space: one of the twenty-five characters
/// with the Unicode property White_Space.
pub open spec fn white_space(ch: char) -> bool {
    let code = ch as u32;
    ||| 0x09 <= code <= 0x0D
    ||| code == 0x20
    ||| code == 0x85
    ||| code == 0xA0
    ||| code == 0x1680
    ||| 0x2000 <= code <= 0x200A
    ||| code == 0x2028
    ||| code == 0x2029
    ||| code == 0x202F
    ||| code == 0x205F
    ||| code == 0x3000
}

/// Whether a character is white space.
pub fn is_white_space(ch: char) -> (white: bool)
    ensures
        white == white_space(ch),
{
    let code = ch as u32;
    (0x09 <= code && code <= 0x0D) || code == 0x20 || code == 0x85 || code == 0xA0 || code
        == 0x1680 || (0x2000 <= code && code <= 0x200A) || code == 0x2028 || code == 0x2029
        || code == 0x202F || code == 0x205F || code == 0x3000
}

/// The text from its first character that is not white space on.
pub open spec fn without_leading_space(text: Seq<char>) -> Seq<char>
    decreases text.len(),
{
    if text.len() > 0 && white_space(text[0]) {
        without_leading_space(text.drop_first())
    } else {
        text
    }
}

/// The text up to its last character that is not white space.
pub open spec fn without_trailing_space(text: Seq<char>) -> Seq<char>
    decreases text.len(),
{
    if text.len() > 0 && white_space(text.last()) {
        without_trailing_space(text.drop_last())
    } else {
        text
    }
}

/// The text without the white space around it.
pub open spec fn trimmed(text: Seq<char>) -> Seq<char> {
    without_trailing_space(without_leading_space(text))
}

/// A line of input without the white space around it: the path that was
/// typed, where the line holds a path and the newline after it.
pub fn trim_line(line: &str) -> (text: String)
    ensures
        text@ == trimmed(line@),
{
    let chars = chars_of(line);
    let mut start: usize = 0;
    assert(chars@.skip(0) == chars@);
    while start < chars.len() && is_white_space(chars[start])
        invariant
            start <= chars.len(),
            without_leading_space(chars@) == without_leading_space(chars@.skip(start as int)),
        decreases chars.len() - start,
    {
        assert(chars@.skip(start as int).drop_first() == chars@.skip(start + 1));
        start += 1;
    }
    let mut end: usize = chars.len();
    assert(chars@.subrange(start as int, end as int) == chars@.skip(start as int));
    while end > start && is_white_space(chars[end - 1])
        invariant
            start <= end <= chars.len(),
            trimmed(chars@) == without_trailing_space(chars@.subrange(start as int, end as int)),
        decreases end,
    {
        assert(chars@.subrange(start as int, end as int).drop_last() == chars@.subrange(
            start as int,
            end - 1,
        ));
        end -= 1;
    }
    let mut text = String::new();
    let mut i: usize = start;
    while i < end
        invariant
            start <= i <= end <= chars.len(),
            text@ == chars@.subrange(start as int, i as int),
        decreases end - i,
    {
        push_char(&mut text, chars[i]);
        i += 1;
        assert(chars@.subrange(start as int, i as int) == chars@.subrange(
            start as int,
            i - 1,
        ).push(chars@[i - 1]));
    }
    text
}

/// The byte that ends a line in a file.
pub const NEWLINE: u8 = 0x0A;

/// The lines held by a vector of character vectors.
pub open spec fn line_seqs(lines: Seq<Vec<char>>) -> Seq<Seq<char>> {
    lines.map_values(|line: Vec<char>| line@)
}

/// How many bytes stand before the first newline byte; all of them, where
/// there is none.
pub open spec fn line_end(bytes: Seq<u8>) -> int
    decreases bytes.len(),
{
    if bytes.len() == 0 || bytes[0] == NEWLINE {
        0
    } else {
        1 + line_end(bytes.drop_first())
    }
}

/// The lines of a file's bytes.
///
/// A line runs up to the next newline byte, or to the end of the bytes for a
/// last line that no newline ends. The newline is not part of the line;
/// every other byte of the line is. A line whose bytes are not well-formed
/// UTF-8 is left out.
pub open spec fn lines_of_bytes(bytes: Seq<u8>) -> Seq<Seq<char>>
    decreases bytes.len(),
{
    let end = line_end(bytes);
    let chunk = bytes.take(end);
    if bytes.len() == 0 {
        Seq::empty()
    } else if 0 <= end < bytes.len() {
        let rest = lines_of_bytes(bytes.skip(end + 1));
        if valid_utf8(chunk) {
            seq![decode_utf8(chunk)] + rest
        } else {
            rest
        }
    } else if valid_utf8(bytes) {
        seq![decode_utf8(bytes)]
    } else {
        Seq::empty()
    }
}

/// The bytes of a file that holds the given lines: each line in UTF-8,
/// followed by a newline byte.
pub open spec fn bytes_of_lines(lines: Seq<Seq<char>>) -> Seq<u8>
    decreases lines.len(),
{
    if lines.len() == 0 {
        Seq::empty()
    } else {
        encode_utf8(lines[0]) + seq![NEWLINE] + bytes_of_lines(lines.drop_first())
    }
}

/// Whether a line holds no newline: such a line comes back from a file as
/// it was written.
pub open spec fn holds_no_newline(line: Seq<char>) -> bool {
    forall|i: int| 0 <= i < line.len() ==> line[i] != '\n'
}

/// `line_end` is the one position that has no newline before it and either
/// a newline at it or nothing.
pub proof fn lemma_line_end_is(bytes: Seq<u8>, end: int)
    requires
        0 <= end <= bytes.len(),
        forall|i: int| 0 <= i < end ==> bytes[i] != NEWLINE,
        end < bytes.len() ==> bytes[end] == NEWLINE,
    ensures
        line_end(bytes) == end,
    decreases end,
{
    if end > 0 {
        lemma_line_end_is(bytes.drop_first(), end - 1);
    }
}

/// Adding a line to the lines adds its bytes and a newline to the file.
pub proof fn lemma_bytes_of_lines_push(lines: Seq<Seq<char>>, line: Seq<char>)
    ensures
        bytes_of_lines(lines.push(line)) == bytes_of_lines(lines) + encode_utf8(line) + seq![
            NEWLINE,
        ],
    decreases lines.len(),
{
    if lines.len() == 0 {
        assert(lines.push(line).drop_first() =~= lines);
        assert(bytes_of_lines(lines.push(line)) =~= encode_utf8(line) + seq![NEWLINE]
            + bytes_of_lines(lines));
    } else {
        assert(lines.push(line).drop_first() =~= lines.drop_first().push(line));
        lemma_bytes_of_lines_push(lines.drop_first(), line);
        assert(bytes_of_lines(lines.push(line)) =~= bytes_of_lines(lines) + encode_utf8(line)
            + seq![NEWLINE]);
    }
}

proof fn lemma_one_byte_newline(scalar: u32)
    by (bit_vector)
    requires
        scalar <= 0x7F,
        scalar != 0x0A,
    ensures
        (scalar & 0x7F) as u8 != 0x0Au8,
{
}

proof fn lemma_longer_encodings_have_high_bytes(scalar: u32)
    by (bit_vector)
    ensures
        0xC0 | ((scalar >> 6) & 0x1F) as u8 >= 0x80u8,
        0xE0 | ((scalar >> 12) & 0x0F) as u8 >= 0x80u8,
        0xF0 | ((scalar >> 18) & 0x7) as u8 >= 0x80u8,
        0x80 | (scalar & 0x3F) as u8 >= 0x80u8,
        0x80 | ((scalar >> 6) & 0x3F) as u8 >= 0x80u8,
        0x80 | ((scalar >> 12) & 0x3F) as u8 >= 0x80u8,
{
}

/// The UTF-8 encoding of characters other than the newline holds no newline
/// byte.
pub proof fn lemma_encoding_has_no_newline(chars: Seq<char>)
    requires
        forall|i: int| 0 <= i < chars.len() ==> chars[i] != '\n',
    ensures
        forall|j: int| 0 <= j < encode_utf8(chars).len() ==> encode_utf8(chars)[j] != NEWLINE,
    decreases chars.len(),
{
    if chars.len() > 0 {
        let scalar = chars[0] as u32;
        let head = encode_scalar(scalar);
        let rest = chars.drop_first();
        assert(scalar != 0x0A) by {
            char_u32_cast(chars[0], scalar);
            char_u32_cast('\n', 0x0Au32);
        }
        char_is_scalar(chars[0]);
        if has_width_1_encoding(scalar) {
            lemma_one_byte_newline(scalar);
        }
        lemma_longer_encodings_have_high_bytes(scalar);
        assert(forall|j: int| 0 <= j < head.len() ==> head[j] != NEWLINE);
        assert forall|i: int| 0 <= i < rest.len() implies rest[i] != '\n' by {
            assert(rest[i] == chars[i + 1]);
        }
        lemma_encoding_has_no_newline(rest);
        assert(encode_utf8(chars) == head + encode_utf8(rest));
    }
}

/// Where `line_end` stands: within the bytes, with no newline before it,
/// and at a newline unless it is at the end.
pub proof fn lemma_line_end_bounds(bytes: Seq<u8>)
    ensures
        0 <= line_end(bytes) <= bytes.len(),
        forall|i: int| 0 <= i < line_end(bytes) ==> bytes[i] != NEWLINE,
        line_end(bytes) < bytes.len() ==> bytes[line_end(bytes)] == NEWLINE,
    decreases bytes.len(),
{
    if bytes.len() > 0 && bytes[0] != NEWLINE {
        let rest = bytes.drop_first();
        lemma_line_end_bounds(rest);
        assert forall|i: int| 0 <= i < line_end(bytes) implies bytes[i] != NEWLINE by {
            if i > 0 {
                assert(bytes[i] == rest[i - 1]);
            }
        }
    }
}

/// Characters with a newline among them have a newline byte in their UTF-8
/// encoding.
pub proof fn lemma_newline_is_encoded(chars: Seq<char>, at: int)
    requires
        0 <= at < chars.len(),
        chars[at] == '\n',
    ensures
        exists|j: int| 0 <= j < encode_utf8(chars).len() && encode_utf8(chars)[j] == NEWLINE,
    decreases chars.len(),
{
    let head = encode_scalar(chars[0] as u32);
    let rest = chars.drop_first();
    assert(encode_utf8(chars) == head + encode_utf8(rest));
    if at == 0 {
        assert(chars[0] as u32 == 0x0Au32);
        assert((0x0Au32 & 0x7F) as u8 == 0x0Au8) by (bit_vector);
        assert(encode_utf8(chars)[0] == NEWLINE);
    } else {
        assert(rest[at - 1] == chars[at]);
        lemma_newline_is_encoded(rest, at - 1);
        let j = choose|j: int| 0 <= j < encode_utf8(rest).len() && encode_utf8(rest)[j] == NEWLINE;
        assert(encode_utf8(chars)[head.len() + j] == NEWLINE);
    }
}

/// No line of a file holds a newline.
pub proof fn lemma_lines_hold_no_newline(bytes: Seq<u8>)
    ensures
        forall|k: int, i: int|
            0 <= k < lines_of_bytes(bytes).len() && 0 <= i < lines_of_bytes(bytes)[k].len()
                ==> lines_of_bytes(bytes)[k][i] != '\n',
    decreases bytes.len(),
{
    if bytes.len() > 0 {
        let end = line_end(bytes);
        let chunk = bytes.take(end);
        lemma_line_end_bounds(bytes);
        let rest = if end < bytes.len() {
            lines_of_bytes(bytes.skip(end + 1))
        } else {
            Seq::empty()
        };
        if end < bytes.len() {
            lemma_lines_hold_no_newline(bytes.skip(end + 1));
        } else {
            assert(chunk =~= bytes);
        }
        if valid_utf8(chunk) {
            let chars = decode_utf8(chunk);
            assert(lines_of_bytes(bytes) == seq![chars] + rest);
            assert forall|i: int| 0 <= i < chars.len() implies chars[i] != '\n' by {
                if chars[i] == '\n' {
                    decode_utf8_encode_utf8(chunk);
                    lemma_newline_is_encoded(chars, i);
                }
            }
            assert forall|k: int, i: int|
                0 <= k < lines_of_bytes(bytes).len() && 0 <= i < lines_of_bytes(
                    bytes,
                )[k].len() implies lines_of_bytes(bytes)[k][i] != '\n' by {
                if k > 0 {
                    assert(lines_of_bytes(bytes)[k] == rest[k - 1]);
                }
            }
        } else {
            assert(lines_of_bytes(bytes) == rest);
        }
    }
}

/// The lines of bytes that start with a line and its newline: that line,
/// where it is well-formed, and then the lines of the bytes after the
/// newline.
pub proof fn lemma_lines_after_first(chunk: Seq<u8>, rest: Seq<u8>)
    requires
        forall|i: int| 0 <= i < chunk.len() ==> chunk[i] != NEWLINE,
    ensures
        lines_of_bytes(chunk + seq![NEWLINE] + rest) == if valid_utf8(chunk) {
            seq![decode_utf8(chunk)] + lines_of_bytes(rest)
        } else {
            lines_of_bytes(rest)
        },
{
    let bytes = chunk + seq![NEWLINE] + rest;
    let end = chunk.len() as int;
    assert(bytes[end] == NEWLINE);
    assert forall|i: int| 0 <= i < end implies bytes[i] != NEWLINE by {
        assert(bytes[i] == chunk[i]);
    }
    lemma_line_end_is(bytes, end);
    assert(bytes.take(end) =~= chunk);
    assert(bytes.skip(end + 1) =~= rest);
}

/// Lines written out and cut up again are the lines that were written,
/// where none of them holds a newline.
pub proof fn lemma_lines_round_trip(lines: Seq<Seq<char>>)
    requires
        forall|i: int| 0 <= i < lines.len() ==> holds_no_newline(#[trigger] lines[i]),
    ensures
        lines_of_bytes(bytes_of_lines(lines)) == lines,
    decreases lines.len(),
{
    if lines.len() > 0 {
        let first = lines[0];
        let rest = lines.drop_first();
        assert(holds_no_newline(first));
        assert forall|i: int| 0 <= i < rest.len() implies holds_no_newline(#[trigger] rest[i]) by {
            assert(rest[i] == lines[i + 1]);
        }
        lemma_lines_round_trip(rest);
        lemma_encoding_has_no_newline(first);
        lemma_lines_after_first(encode_utf8(first), bytes_of_lines(rest));
        encode_utf8_valid_utf8(first);
        encode_utf8_decode_utf8(first);
        assert(lines =~= seq![first] + rest);
    } else {
        assert(bytes_of_lines(lines).len() == 0);
    }
}

/// The newline after the last line is optional: bytes that do not end in
/// a newline hold the same lines with a newline added at their end.
pub proof fn lemma_last_newline_is_optional(bytes: Seq<u8>)
    requires
        bytes.len() > 0,
        bytes.last() != NEWLINE,
    ensures
        lines_of_bytes(bytes.push(NEWLINE)) == lines_of_bytes(bytes),
    decreases bytes.len(),
{
    let end = line_end(bytes);
    let chunk = bytes.take(end);
    lemma_line_end_bounds(bytes);
    if end < bytes.len() {
        let rest = bytes.skip(end + 1);
        assert(rest.len() > 0);
        assert(rest.last() == bytes.last());
        lemma_last_newline_is_optional(rest);
        assert(bytes =~= chunk + seq![NEWLINE] + rest);
        assert(bytes.push(NEWLINE) =~= chunk + seq![NEWLINE] + rest.push(NEWLINE));
        lemma_lines_after_first(chunk, rest);
        lemma_lines_after_first(chunk, rest.push(NEWLINE));
    } else {
        assert(chunk =~= bytes);
        assert(bytes.push(NEWLINE) =~= bytes + seq![NEWLINE] + Seq::<u8>::empty());
        lemma_lines_after_first(bytes, Seq::<u8>::empty());
        if valid_utf8(bytes) {
            let chars = decode_utf8(bytes);
            assert(seq![chars] + Seq::<Seq<char>>::empty() =~= seq![chars]);
        }
    }
}

/// Cuts a file's bytes into lines.
pub fn split_lines(bytes: &[u8]) -> (lines: Vec<Vec<char>>)
    ensures
        line_seqs(lines@) == lines_of_bytes(bytes@),
{
    let mut lines: Vec<Vec<char>> = Vec::new();
    let mut start: usize = 0;
    assert(bytes@.skip(0) == bytes@);
    assert(line_seqs(lines@) =~= Seq::<Seq<char>>::empty());
    while start < bytes.len()
        invariant
            start <= bytes.len(),
            lines_of_bytes(bytes@) == line_seqs(lines@) + lines_of_bytes(bytes@.skip(start as int)),
        decreases bytes.len() - start,
    {
        let ghost rest = bytes@.skip(start as int);
        let ghost before = line_seqs(lines@);
        let mut end: usize = start;
        while end < bytes.len() && bytes[end] != NEWLINE
            invariant
                start <= end <= bytes.len(),
                forall|i: int| start <= i < end ==> bytes@[i] != NEWLINE,
            decreases bytes.len() - end,
        {
            end += 1;
        }
        let terminated = end < bytes.len();
        let chunk = slice_subrange(bytes, start, end);
        proof {
            lemma_line_end_is(rest, end - start);
            assert(chunk@ =~= rest.take(end - start));
            if terminated {
                assert(rest.skip(end - start + 1) =~= bytes@.skip(end + 1));
            } else {
                assert(chunk@ =~= rest);
            }
        }
        match utf8_text(chunk) {
            Some(text) => {
                let line = chars_of(text);
                lines.push(line);
                assert(line_seqs(lines@) =~= before.push(line@));
            },
            None => {},
        }
        if terminated {
            start = end + 1;
        } else {
            start = end;
            assert(bytes@.skip(start as int) =~= Seq::<u8>::empty());
        }
        assert(lines_of_bytes(bytes@) =~= line_seqs(lines@) + lines_of_bytes(
            bytes@.skip(start as int),
        ));
    }
    assert(bytes@.skip(start as int) =~= Seq::<u8>::empty());
    assert(line_seqs(lines@) + Seq::<Seq<char>>::empty() =~= line_seqs(lines@));
    lines
}

/// Writes lines out as the bytes of a file.
pub fn join_lines(lines: &Vec<Vec<char>>) -> (bytes: Vec<u8>)
    ensures
        bytes@ == bytes_of_lines(line_seqs(lines@)),
{
    let mut bytes: Vec<u8> = Vec::new();
    let mut i: usize = 0;
    assert(line_seqs(lines@).take(0) =~= Seq::<Seq<char>>::empty());
    while i < lines.len()
        invariant
            i <= lines.len(),
            bytes@ == bytes_of_lines(line_seqs(lines@).take(i as int)),
        decreases lines.len() - i,
    {
        let ghost before = bytes@;
        let text = string_of(&lines[i]);
        let encoded = text.as_str().as_bytes();
        bytes.extend_from_slice(encoded);
        bytes.push(NEWLINE);
        proof {
            let done = line_seqs(lines@).take(i as int);
            lemma_bytes_of_lines_push(done, lines@[i as int]@);
            assert(line_seqs(lines@).take(i + 1) =~= done.push(lines@[i as int]@));
            assert(bytes@ =~= before + encode_utf8(lines@[i as int]@) + seq![NEWLINE]);
        }
        i += 1;
    }
    assert(line_seqs(lines@).take(i as int) =~= line_seqs(lines@));
    bytes
}

} // verus!
