use modal_editor::{Buffer, EditorError, FileRead};

fn buffer_from_bytes(bytes: &[u8]) -> Buffer {
    Buffer::load(String::from("notes.txt"), FileRead::Contents(bytes.to_vec())).unwrap()
}

fn lines_of(buffer: &Buffer) -> Vec<String> {
    let mut lines: Vec<String> = Vec::new();
    let mut row: usize = 0;
    while row < buffer.line_count() {
        lines.push(buffer.line(row).unwrap());
        row += 1;
    }
    lines
}

#[test]
fn load_cuts_contents_at_newlines() {
    let buffer = buffer_from_bytes(b"ab\nc\n");
    assert_eq!(lines_of(&buffer), vec![String::from("ab"), String::from("c")]);
    assert_eq!(buffer.path(), "notes.txt");
}

#[test]
fn load_keeps_a_last_line_without_newline() {
    let buffer = buffer_from_bytes(b"ab\nc");
    assert_eq!(lines_of(&buffer), vec![String::from("ab"), String::from("c")]);
}

#[test]
fn load_keeps_empty_lines() {
    let buffer = buffer_from_bytes(b"\n\nx\n\n");
    assert_eq!(
        lines_of(&buffer),
        vec![String::new(), String::new(), String::from("x"), String::new()]
    );
}

#[test]
fn load_strips_the_newline_only() {
    let buffer = buffer_from_bytes(b"ab\r\nc\r\n");
    assert_eq!(lines_of(&buffer), vec![String::from("ab\r"), String::from("c\r")]);
}

#[test]
fn load_keeps_carriage_returns_everywhere() {
    let buffer = buffer_from_bytes(b"a\rb\nc\r");
    assert_eq!(lines_of(&buffer), vec![String::from("a\rb"), String::from("c\r")]);
    let buffer = buffer_from_bytes(b"a\r\r\n");
    assert_eq!(lines_of(&buffer), vec![String::from("a\r\r")]);
    let buffer = buffer_from_bytes(b"\r");
    assert_eq!(lines_of(&buffer), vec![String::from("\r")]);
}

#[test]
fn load_leaves_out_lines_that_are_not_utf8() {
    let buffer = buffer_from_bytes(b"ok\n\xff\xfe\nfine\n");
    assert_eq!(lines_of(&buffer), vec![String::from("ok"), String::from("fine")]);
}

#[test]
fn load_of_only_bad_lines_gives_one_empty_line() {
    let buffer = buffer_from_bytes(b"\xc3\n\x80");
    assert_eq!(lines_of(&buffer), vec![String::new()]);
}

#[test]
fn load_reads_multibyte_characters() {
    let buffer = buffer_from_bytes("h\u{e9}llo\n\u{4e16}\u{754c}\n\u{1f600}".as_bytes());
    assert_eq!(
        lines_of(&buffer),
        vec![String::from("h\u{e9}llo"), String::from("\u{4e16}\u{754c}"), String::from("\u{1f600}")]
    );
    assert_eq!(buffer.line_len(0), 5);
    assert_eq!(buffer.line_len(1), 2);
    assert_eq!(buffer.line_len(2), 1);
}

#[test]
fn load_of_empty_file_gives_one_empty_line() {
    let buffer = buffer_from_bytes(b"");
    assert_eq!(buffer.line_count(), 1);
    assert_eq!(buffer.line(0), Some(String::new()));
}

#[test]
fn load_of_missing_file_gives_one_empty_line() {
    let loaded = Buffer::load(String::from("new.txt"), FileRead::Missing);
    let buffer = loaded.unwrap();
    assert_eq!(buffer.line_count(), 1);
    assert_eq!(buffer.line(0), Some(String::new()));
    assert_eq!(buffer.path(), "new.txt");
}

#[test]
fn load_of_unreadable_file_is_fatal() {
    let loaded = Buffer::load(String::from("locked.txt"), FileRead::Unreadable);
    match loaded {
        Ok(_) => panic!("an unreadable file gave a buffer"),
        Err(error) => {
            assert_eq!(error, EditorError::FatalStartup);
            assert!(error.is_fatal());
            assert_eq!(error.message(), "Error Reading File. Please verify it exists.");
        }
    }
}

#[test]
fn save_error_is_not_fatal() {
    let error = EditorError::RecoverableSave;
    assert!(!error.is_fatal());
    assert_eq!(error.message(), "Error saving file");
}

#[test]
fn line_count_is_never_zero() {
    assert_eq!(buffer_from_bytes(b"").line_count(), 1);
    assert_eq!(buffer_from_bytes(b"\n").line_count(), 1);
    assert_eq!(buffer_from_bytes(b"a").line_count(), 1);
    assert_eq!(buffer_from_bytes(b"a\nb\nc").line_count(), 3);
}

#[test]
fn line_outside_the_buffer_is_none() {
    let buffer = buffer_from_bytes(b"ab\nc\n");
    assert_eq!(buffer.line(2), None);
    assert_eq!(buffer.line_len(2), 0);
    assert_eq!(buffer.line_len(0), 2);
    assert_eq!(buffer.line_len(1), 1);
}

#[test]
fn insert_char_puts_the_character_at_the_column() {
    let mut buffer = buffer_from_bytes(b"ab\nc\n");
    assert!(buffer.insert_char(0, 1, 'x'));
    assert_eq!(lines_of(&buffer), vec![String::from("axb"), String::from("c")]);
    assert!(buffer.insert_char(0, 0, 'y'));
    assert_eq!(buffer.line(0), Some(String::from("yaxb")));
}

#[test]
fn insert_char_appends_at_the_end_of_the_line() {
    let mut buffer = buffer_from_bytes(b"ab\nc\n");
    assert!(buffer.insert_char(1, 1, 'd'));
    assert_eq!(lines_of(&buffer), vec![String::from("ab"), String::from("cd")]);
}

#[test]
fn insert_char_counts_characters_not_bytes() {
    let mut buffer = buffer_from_bytes("\u{e9}\u{e9}\n".as_bytes());
    assert!(buffer.insert_char(0, 1, '\u{4e16}'));
    assert_eq!(buffer.line(0), Some(String::from("\u{e9}\u{4e16}\u{e9}")));
    assert!(!buffer.insert_char(0, 4, 'z'));
    assert!(buffer.insert_char(0, 3, 'z'));
    assert_eq!(buffer.line(0), Some(String::from("\u{e9}\u{4e16}\u{e9}z")));
}

#[test]
fn insert_char_past_the_end_does_nothing() {
    let mut buffer = buffer_from_bytes(b"ab\nc\n");
    assert!(!buffer.insert_char(0, 3, 'x'));
    assert!(!buffer.insert_char(2, 0, 'x'));
    assert!(!buffer.insert_char(usize::MAX, usize::MAX, 'x'));
    assert_eq!(lines_of(&buffer), vec![String::from("ab"), String::from("c")]);
}

#[test]
fn delete_char_before_takes_out_the_character_before_the_column() {
    let mut buffer = buffer_from_bytes(b"abc\nd\n");
    assert!(buffer.delete_char_before(0, 2));
    assert_eq!(lines_of(&buffer), vec![String::from("ac"), String::from("d")]);
    assert!(buffer.delete_char_before(0, 2));
    assert_eq!(buffer.line(0), Some(String::from("a")));
    assert!(buffer.delete_char_before(1, 1));
    assert_eq!(buffer.line(1), Some(String::new()));
    assert_eq!(buffer.line_count(), 2);
}

#[test]
fn delete_char_before_column_zero_does_nothing() {
    let mut buffer = buffer_from_bytes(b"abc\n");
    assert!(!buffer.delete_char_before(0, 0));
    assert_eq!(buffer.line(0), Some(String::from("abc")));
}

#[test]
fn delete_char_before_outside_the_buffer_does_nothing() {
    let mut buffer = buffer_from_bytes(b"abc\n");
    assert!(!buffer.delete_char_before(0, 4));
    assert!(!buffer.delete_char_before(1, 1));
    assert_eq!(lines_of(&buffer), vec![String::from("abc")]);
}

#[test]
fn to_bytes_ends_every_line_with_a_newline() {
    assert_eq!(buffer_from_bytes(b"ab\nc").to_bytes(), b"ab\nc\n".to_vec());
    assert_eq!(buffer_from_bytes(b"ab\nc\n").to_bytes(), b"ab\nc\n".to_vec());
    assert_eq!(buffer_from_bytes(b"").to_bytes(), b"\n".to_vec());
    assert_eq!(buffer_from_bytes(b"a\r\nb\r\n").to_bytes(), b"a\r\nb\r\n".to_vec());
}

#[test]
fn to_bytes_writes_utf8() {
    let buffer = buffer_from_bytes("h\u{e9}\n\u{1f600}\n".as_bytes());
    assert_eq!(
        buffer.to_bytes(),
        vec![0x68, 0xc3, 0xa9, 0x0a, 0xf0, 0x9f, 0x98, 0x80, 0x0a]
    );
}

#[test]
fn saved_buffer_loads_back_with_the_same_lines() {
    let mut buffer = buffer_from_bytes("first\n\nh\u{e9}llo w\u{f6}rld\n\ttab\nlast".as_bytes());
    assert!(buffer.insert_char(1, 0, '\u{4e16}'));
    assert!(buffer.insert_char(0, 5, '!'));
    assert!(buffer.delete_char_before(4, 1));
    let before = lines_of(&buffer);
    let saved = buffer.to_bytes();
    let again = buffer_from_bytes(&saved);
    assert_eq!(lines_of(&again), before);
    assert_eq!(again.to_bytes(), saved);
    assert_eq!(
        before,
        vec![
            String::from("first!"),
            String::from("\u{4e16}"),
            String::from("h\u{e9}llo w\u{f6}rld"),
            String::from("\ttab"),
            String::from("ast"),
        ]
    );
}

#[test]
fn line_ending_in_carriage_return_loads_back() {
    let buffer = buffer_from_bytes(b"\r");
    assert_eq!(buffer.line(0), Some(String::from("\r")));
    assert_eq!(buffer.to_bytes(), vec![0x0d, 0x0a]);
    let again = buffer_from_bytes(&buffer.to_bytes());
    assert_eq!(again.line_count(), 1);
    assert_eq!(again.line(0), Some(String::from("\r")));
    let buffer = buffer_from_bytes(b"a\r\nb\r");
    let again = buffer_from_bytes(&buffer.to_bytes());
    assert_eq!(lines_of(&again), vec![String::from("a\r"), String::from("b\r")]);
    assert_eq!(lines_of(&again), lines_of(&buffer));
}

#[test]
fn line_holding_a_newline_does_not_load_back() {
    let mut buffer = buffer_from_bytes(b"ab\n");
    assert!(buffer.insert_char(0, 1, '\n'));
    assert_eq!(buffer.line(0), Some(String::from("a\nb")));
    let again = buffer_from_bytes(&buffer.to_bytes());
    assert_eq!(lines_of(&again), vec![String::from("a"), String::from("b")]);
}
