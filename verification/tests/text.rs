use modal_editor::text::{
    chars_of, is_white_space, join_lines, split_lines, string_of, trim_line,
};

#[test]
fn chars_of_lists_the_characters() {
    assert_eq!(chars_of("a\u{e9}\u{1f600}"), vec!['a', '\u{e9}', '\u{1f600}']);
    assert_eq!(chars_of(""), Vec::<char>::new());
}

#[test]
fn string_of_holds_the_characters() {
    assert_eq!(string_of(&vec!['a', '\u{e9}', '\u{1f600}']), "a\u{e9}\u{1f600}");
    assert_eq!(string_of(&Vec::new()), "");
}

#[test]
fn split_lines_of_no_bytes_is_no_line() {
    assert_eq!(split_lines(b""), Vec::<Vec<char>>::new());
}

#[test]
fn split_lines_cuts_at_each_newline() {
    assert_eq!(split_lines(b"ab\nc\n"), vec![vec!['a', 'b'], vec!['c']]);
    assert_eq!(split_lines(b"ab\nc"), vec![vec!['a', 'b'], vec!['c']]);
    assert_eq!(split_lines(b"\n"), vec![Vec::<char>::new()]);
    assert_eq!(split_lines(b"\n\n"), vec![Vec::<char>::new(), Vec::<char>::new()]);
    assert_eq!(split_lines(b"a\n\nb"), vec![vec!['a'], Vec::<char>::new(), vec!['b']]);
}

#[test]
fn split_lines_keeps_carriage_returns() {
    assert_eq!(split_lines(b"a\r\nb\r"), vec![vec!['a', '\r'], vec!['b', '\r']]);
    assert_eq!(split_lines(b"\r\n"), vec![vec!['\r']]);
    assert_eq!(split_lines(b"\r"), vec![vec!['\r']]);
    assert_eq!(split_lines(b"\r\r\n\r"), vec![vec!['\r', '\r'], vec!['\r']]);
}

#[test]
fn split_lines_decodes_utf8() {
    assert_eq!(
        split_lines(&[0x68, 0xc3, 0xa9, 0x0a, 0xe4, 0xb8, 0x96, 0x0a, 0xf0, 0x9f, 0x98, 0x80]),
        vec![vec!['h', '\u{e9}'], vec!['\u{4e16}'], vec!['\u{1f600}']]
    );
}

#[test]
fn split_lines_leaves_out_malformed_lines() {
    assert_eq!(split_lines(b"a\n\xff\nb\n"), vec![vec!['a'], vec!['b']]);
    assert_eq!(split_lines(b"\xc3"), Vec::<Vec<char>>::new());
    assert_eq!(split_lines(b"\xed\xa0\x80\nz"), vec![vec!['z']]);
    assert_eq!(split_lines(b"\xc0\x80\nz"), vec![vec!['z']]);
    assert_eq!(split_lines(b"\xf4\x90\x80\x80\nz"), vec![vec!['z']]);
}

#[test]
fn join_lines_ends_each_line_with_a_newline() {
    assert_eq!(join_lines(&vec![vec!['a', 'b'], vec!['c']]), b"ab\nc\n".to_vec());
    assert_eq!(join_lines(&vec![Vec::new()]), b"\n".to_vec());
    assert_eq!(join_lines(&Vec::new()), Vec::<u8>::new());
    assert_eq!(
        join_lines(&vec![vec!['\u{e9}'], vec!['\u{4e16}', '\u{1f600}']]),
        vec![0xc3, 0xa9, 0x0a, 0xe4, 0xb8, 0x96, 0xf0, 0x9f, 0x98, 0x80, 0x0a]
    );
}

#[test]
fn join_then_split_gives_the_lines_back() {
    let lines = vec![
        vec!['a', ' ', 'b'],
        Vec::new(),
        vec!['\u{e9}', '\r', 'x'],
        vec!['\u{1f600}', '\t'],
        vec!['e', 'n', 'd', '\r'],
        vec!['\r'],
    ];
    assert_eq!(split_lines(&join_lines(&lines)), lines);
}

#[test]
fn is_white_space_agrees_with_the_standard_library_on_every_character() {
    let mut code: u32 = 0;
    let mut count: u32 = 0;
    while code <= 0x10FFFF {
        if let Some(ch) = char::from_u32(code) {
            assert_eq!(is_white_space(ch), ch.is_whitespace());
            if is_white_space(ch) {
                count += 1;
            }
        }
        code += 1;
    }
    assert_eq!(count, 25);
}

#[test]
fn trim_line_takes_the_white_space_off_both_ends() {
    assert_eq!(trim_line("notes.txt\n"), "notes.txt");
    assert_eq!(trim_line("  notes.txt \r\n"), "notes.txt");
    assert_eq!(trim_line("\t my notes.txt\t"), "my notes.txt");
    assert_eq!(trim_line("\u{3000}a\u{a0}b\u{2028}"), "a\u{a0}b");
    assert_eq!(trim_line("notes.txt"), "notes.txt");
}

#[test]
fn trim_line_of_white_space_is_empty() {
    assert_eq!(trim_line(""), "");
    assert_eq!(trim_line("\n"), "");
    assert_eq!(trim_line(" \t\r\n "), "");
}

#[test]
fn trim_line_agrees_with_the_standard_library() {
    let samples = vec![
        "", " ", "a", " a", "a ", " a b ", "\n\na\n\n", "\u{85}x\u{85}", "\u{1680}\u{2000}y z\u{200a}\u{205f}",
        "\u{200b}a\u{200b}", "\u{feff}a", "  \u{e9}t\u{e9}  ", "\u{1f600} ", "\x0b\x0cq\x0b\x0c", "\x1c\x1f r",
    ];
    for sample in samples {
        assert_eq!(trim_line(sample), sample.trim());
    }
}
