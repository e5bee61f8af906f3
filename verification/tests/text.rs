use expect::text::{
    bytes_before, bytes_equal, find_bytes, get_lines, holds_replacement, Line, LineMode, NEWLINE,
    REPLACEMENT, REPLACEMENT_LEN,
};

fn texts(buf: &[u8], mode: LineMode) -> Vec<String> {
    get_lines(buf, mode).into_iter().map(|line| line.text).collect()
}

#[test]
fn equal_bytes() {
    assert!(bytes_equal(b"", b""));
    assert!(bytes_equal(b"abc", b"abc"));
    assert!(!bytes_equal(b"abc", b"abd"));
    assert!(!bytes_equal(b"abc", b"ab"));
}

#[test]
fn bytes_are_found_at_the_first_place() {
    assert_eq!(find_bytes(b"abcabc", b"bc"), Some(1));
    assert_eq!(find_bytes(b"aaab", b"aab"), Some(1));
    assert_eq!(find_bytes(b"abc", b"abcd"), None);
    assert_eq!(find_bytes(b"abc", b"x"), None);
}

#[test]
fn the_empty_string_is_found_at_the_start() {
    assert_eq!(find_bytes(b"abc", b""), Some(0));
    assert_eq!(find_bytes(b"", b""), Some(0));
}

#[test]
fn bytes_are_found_where_std_finds_them() {
    let hays = ["", "a", "ab", "aab", "abab", "héllo wörld", ">>> \r\n>>> "];
    let needles = ["", "a", "b", "ab", "ö", "é", ">>>", "\r\n", "world"];
    for hay in &hays {
        for needle in &needles {
            assert_eq!(find_bytes(hay.as_bytes(), needle.as_bytes()), hay.find(needle));
        }
    }
}

#[test]
fn lines_keep_their_newlines() {
    assert_eq!(texts(b"one\ntwo\r\nthree", LineMode::Full), ["one\n", "two\r\n", "three"]);
    assert_eq!(texts(b"one\n\n", LineMode::Full), ["one\n", "\n"]);
}

#[test]
fn a_carriage_return_after_a_newline_starts_the_next_line() {
    assert_eq!(texts(b"one\n\rtwo", LineMode::Full), ["one\n", "\rtwo"]);
}

#[test]
fn no_output_has_no_lines() {
    assert!(texts(b"", LineMode::Full).is_empty());
}

#[test]
fn both_modes_give_the_same_lines() {
    let buf = b"a\r\nb\n\rc\n";
    assert_eq!(texts(buf, LineMode::Full), texts(buf, LineMode::Trimmed));
}

#[test]
fn lines_make_up_the_buffer() {
    for buf in ["", "\n", "a", "a\nb", "a\n\nb\n", "é\nö\r\n"] {
        assert_eq!(texts(buf.as_bytes(), LineMode::Full).concat(), buf);
    }
}

#[test]
fn newlines_end_lines_and_stand_nowhere_else() {
    let lines = texts(b"a\nbb\n\nc", LineMode::Full);
    assert_eq!(lines.len(), 4);
    for (k, line) in lines.iter().enumerate() {
        let newlines = line.bytes().filter(|b| *b == NEWLINE).count();
        assert_eq!(newlines, if k < 3 { 1 } else { 0 });
        assert_eq!(line.ends_with('\n'), k < 3);
    }
}

#[test]
fn what_is_not_text_is_replaced() {
    assert_eq!(texts(b"\xffa\n\xfe", LineMode::Full), ["\u{fffd}a\n", "\u{fffd}"]);
}

#[test]
fn lines_keep_their_bytes() {
    let lines = get_lines(b"\xffa\nb", LineMode::Full);
    assert_eq!(lines[0].bytes, b"\xffa\n");
    assert_eq!(lines[1].bytes, b"b");
}

#[test]
fn what_is_no_text_is_replaced_by_one_character_each() {
    assert_eq!(Line::of(b"a\xffb").text, "a\u{fffd}b");
    assert_eq!(Line::of(b"\xff\xff").text, "\u{fffd}\u{fffd}");
    assert_eq!(Line::of(b"\xe2\x82a").text, "\u{fffd}a");
    assert_eq!(Line::of(b"a\xf0\x9f\x98").text, "a\u{fffd}");
    assert_eq!(REPLACEMENT.len_utf8(), REPLACEMENT_LEN);
}

#[test]
fn offsets_in_a_text_stand_for_bytes() {
    // The text takes 1 + 3 + 1 + 3 bytes.
    let bytes = b"a\xe2\x82b\xff";
    assert_eq!(Line::of(bytes).text.len(), 8);
    let before: Vec<usize> = (0..9).map(|offset| bytes_before(bytes, offset)).collect();
    assert_eq!(before, [0, 1, 1, 1, 3, 4, 4, 4, 5]);
}

#[test]
fn offsets_in_valid_text_stand_for_themselves() {
    let text = "h\u{e9}llo";
    for offset in 0..text.len() + 1 {
        assert_eq!(bytes_before(text.as_bytes(), offset), offset);
    }
    assert_eq!(bytes_before(b"abc", 7), 3);
    assert_eq!(bytes_before(b"", 0), 0);
}

#[test]
fn a_text_stands_for_its_bytes() {
    let samples: [&[u8]; 9] = [
        b"", b"abc", b"\xff", b"\x80\x80", b"\xe0\x80a", b"\xed\xa0\x80", b"\xf0\x90\x80",
        b"\xf4\x90\x80\x80", b"\xc3\xa9\xc3",
    ];
    for bytes in samples {
        let text = Line::of(bytes).text;
        assert_eq!(bytes_before(bytes, 0), 0);
        assert_eq!(bytes_before(bytes, text.len()), bytes.len());
        // Piece by piece, the bytes between two characters are those of the character.
        for (start, c) in text.char_indices() {
            let end = start + c.len_utf8();
            let piece = &bytes[bytes_before(bytes, start)..bytes_before(bytes, end)];
            assert_eq!(String::from_utf8_lossy(piece), c.to_string());
        }
    }
}

#[test]
fn a_text_may_hold_the_replacement() {
    assert!(holds_replacement("\u{fffd}"));
    assert!(holds_replacement("a\u{fffd}b"));
    assert!(!holds_replacement(""));
    assert!(!holds_replacement("a\u{fffc}\u{fffe}\u{ff7d}"));
}

#[test]
fn what_stands_in_the_text_stands_in_the_bytes() {
    let bytes = b"\xffa\xe2\x82bc";
    let text = Line::of(bytes).text;
    for string in ["a", "b", "bc"] {
        let start = bytes_before(bytes, text.find(string).unwrap());
        assert_eq!(&bytes[start..start + string.len()], string.as_bytes());
    }
}
