use expect::engine::matching::{
    find_buffer_match, match_lines, match_raw, scan_buffer, Match, MatchFault, MatchMode,
};
use regex::Regex;

fn utf8(s: &str) -> Match {
    Match::Utf8(s.to_string())
}

fn expr(s: &str) -> Match {
    Match::Regex(Regex::new(s).unwrap())
}

#[test]
fn strings_are_equal_by_their_text() {
    assert!(utf8("a") == utf8("a"));
    assert!(utf8("a") != utf8("b"));
    assert!(utf8("a") != utf8("ab"));
}

#[test]
fn regular_expressions_are_equal_by_their_text() {
    assert!(expr("a+") == expr("a+"));
    assert!(expr("a+") != expr("aa*"));
    assert!(expr("a") != utf8("a"));
}

#[test]
fn byte_sequences_are_equal_by_their_bytes() {
    assert!(Match::Bytes(vec![1, 2]) == Match::Bytes(vec![1, 2]));
    assert!(Match::Bytes(vec![1, 2]) != Match::Bytes(vec![2, 1]));
}

#[test]
fn the_other_patterns_are_equal_to_themselves_only() {
    assert!(Match::Eof == Match::Eof);
    assert!(Match::Timeout == Match::Timeout);
    assert!(Match::Eof != Match::Timeout);
    assert!(Match::Timeout != utf8(""));
}

#[test]
fn equality_is_an_equivalence() {
    let patterns = vec![utf8("a"), expr("a"), Match::Bytes(vec![97]), Match::Eof, Match::Timeout];
    for a in &patterns {
        for b in &patterns {
            assert_eq!(a == b, b == a);
            assert_eq!(a == b, std::ptr::eq(a, b));
        }
    }
}

#[test]
fn a_copy_waits_for_the_same_thing() {
    for m in vec![utf8("b"), expr("b+"), Match::Bytes(vec![98]), Match::Eof, Match::Timeout] {
        let copy = m.clone();
        assert!(copy == m);
        assert_eq!(
            scan_buffer(&vec![copy], MatchMode::Raw, b"abbc"),
            scan_buffer(&vec![m], MatchMode::Raw, b"abbc")
        );
    }
}

#[test]
fn a_string_is_found_in_the_output() {
    let found = Some((0, 2, 5));
    assert_eq!(match_raw(&vec![utf8(">>>")], b"$ >>> x"), found);
    assert_eq!(match_lines(&vec![utf8(">>>")], b"$ >>> x"), found);
}

#[test]
fn a_regular_expression_is_found_in_the_output() {
    assert_eq!(
        match_raw(&vec![expr("[0-9]+")], b"in 1999, out"),
        Some((0, 3, 7))
    );
    assert_eq!(match_raw(&vec![expr("^b")], b"ab"), None);
}

#[test]
fn offsets_count_bytes() {
    assert_eq!(
        match_raw(&vec![utf8("l")], "é l".as_bytes()),
        Some((0, 3, 4))
    );
    assert_eq!(
        match_lines(&vec![expr("ö.")], "é\nxöy".as_bytes()),
        Some((0, 4, 7))
    );
}

#[test]
fn offsets_count_from_the_first_line() {
    assert_eq!(
        match_lines(&vec![utf8("two")], b"one\ntwo\n"),
        Some((0, 4, 7))
    );
}

#[test]
fn the_first_line_with_a_match_wins() {
    assert_eq!(
        match_lines(&vec![expr("a$|b")], b"xx\nb\na"),
        Some((0, 3, 4))
    );
}

#[test]
fn the_first_pattern_wins() {
    let matches = vec![utf8("zzz"), utf8("later"), utf8("first")];
    assert_eq!(match_raw(&matches, b"first later"), Some((1, 6, 11)));
    assert_eq!(match_lines(&matches, b"first\nlater"), Some((1, 6, 11)));
}

#[test]
fn a_match_spans_lines_in_raw_mode_only() {
    let matches = vec![utf8("\r\n$ ")];
    assert_eq!(match_raw(&matches, b"x\r\n$ "), Some((0, 1, 5)));
    assert_eq!(match_lines(&matches, b"x\r\n$ "), None);
}

#[test]
fn a_newline_is_part_of_its_line() {
    assert_eq!(
        match_lines(&vec![utf8("a\n")], b"ba\nc"),
        Some((0, 1, 3))
    );
}

#[test]
fn the_mode_chooses_the_search() {
    let matches = vec![utf8("a\nb")];
    assert_eq!(
        find_buffer_match(&matches, MatchMode::Raw, b"a\nb"),
        Some((0, 0, 3))
    );
    assert_eq!(find_buffer_match(&matches, MatchMode::Line, b"a\nb"), None);
}

#[test]
fn the_empty_string_needs_a_line() {
    assert_eq!(match_raw(&vec![utf8("")], b""), Some((0, 0, 0)));
    assert_eq!(match_lines(&vec![utf8("")], b""), None);
    assert_eq!(match_lines(&vec![utf8("")], b"a"), Some((0, 0, 0)));
}

#[test]
fn eof_and_timeout_are_no_part_of_the_output() {
    assert_eq!(match_raw(&vec![Match::Eof, Match::Timeout], b"Eof Timeout"), None);
    assert_eq!(
        match_lines(&vec![Match::Eof, Match::Timeout, utf8("T")], b"Eof Timeout"),
        Some((2, 4, 5))
    );
}

#[test]
fn no_patterns_match_nothing() {
    assert_eq!(match_raw(&Vec::new(), b"abc"), None);
    assert_eq!(match_lines(&Vec::new(), b"abc"), None);
}

#[test]
fn there_is_no_search_for_bytes() {
    let matches = vec![utf8("x"), Match::Bytes(vec![97])];
    let fault = Err(MatchFault::Unsupported { index: 1 });
    assert_eq!(scan_buffer(&matches, MatchMode::Raw, b"abc"), fault);
    assert_eq!(scan_buffer(&matches, MatchMode::Line, b"abc"), fault);
}

#[test]
fn a_match_before_the_bytes_comes_first() {
    let matches = vec![utf8("c"), Match::Bytes(vec![97])];
    assert_eq!(match_raw(&matches, b"abc"), Some((0, 2, 3)));
}

#[test]
fn bytes_are_only_met_where_there_is_a_line() {
    let matches = vec![Match::Bytes(vec![97])];
    assert_eq!(match_lines(&matches, b""), None);
    assert_eq!(scan_buffer(&matches, MatchMode::Line, b""), Ok(None));
    let fault = Err(MatchFault::Unsupported { index: 0 });
    assert_eq!(scan_buffer(&matches, MatchMode::Raw, b""), fault);
}

#[test]
fn any_patterns_can_be_scanned_for() {
    assert_eq!(scan_buffer(&vec![utf8("b")], MatchMode::Raw, b"abc"), Ok(Some((0, 1, 2))));
    assert_eq!(scan_buffer(&vec![utf8("x")], MatchMode::Line, b"abc"), Ok(None));
}

#[test]
fn a_string_is_found_in_output_that_is_no_text() {
    // In the text, the first byte becomes a character of three bytes.
    assert_eq!(match_raw(&vec![utf8("a")], b"\xffa"), Some((0, 1, 2)));
    assert_eq!(match_lines(&vec![utf8("a")], b"\xffa"), Some((0, 1, 2)));
    assert_eq!(match_raw(&vec![utf8("a")], b"\xffabcd"), Some((0, 1, 2)));
    assert_eq!(match_lines(&vec![utf8("b")], b"\xff\nb"), Some((0, 2, 3)));
}

#[test]
fn a_string_may_end_where_the_text_ends() {
    assert_eq!(match_raw(&vec![utf8("ab")], b"ab\xe2\x82"), Some((0, 0, 2)));
    assert_eq!(match_raw(&vec![utf8("\u{20ac}")], b"\xe2\xe2\x82\xac"), Some((0, 1, 4)));
}

#[test]
fn a_replacement_stands_for_what_is_no_text() {
    let replacement = vec![utf8("\u{fffd}")];
    assert_eq!(match_raw(&replacement, b"\xffabc"), Some((0, 0, 1)));
    assert_eq!(match_lines(&replacement, b"ab\nc\xe2\x82d"), Some((0, 4, 6)));
    assert_eq!(match_raw(&vec![utf8("a\u{fffd}b")], b"\xffa\xf0\x9f\x98b"), Some((0, 1, 6)));
    assert_eq!(match_raw(&replacement, b"abc"), None);
}

#[test]
fn a_replacement_is_also_a_character() {
    let replacement = vec![utf8("\u{fffd}")];
    assert_eq!(match_raw(&replacement, "a\u{fffd}".as_bytes()), Some((0, 1, 4)));
    assert_eq!(match_lines(&replacement, "a\n\u{fffd}".as_bytes()), Some((0, 2, 5)));
    assert_eq!(match_raw(&replacement, b"\xff\xef\xbf\xbd"), Some((0, 0, 1)));
}

#[test]
fn strings_are_found_where_they_stand_in_the_text() {
    let outputs: [&[u8]; 6] = [
        b"\xffabc",
        b"a\xe2\x82b",
        b"\xf0\x9f\x98",
        b"ab\xffab",
        b"\xc3\xa9\xc3",
        b"a\xffb\xfea\xffb",
    ];
    for output in outputs {
        let text = String::from_utf8_lossy(output);
        for string in ["a", "b", "ab", "c", "\u{e9}", "\u{fffd}", "a\u{fffd}", "\u{fffd}b"] {
            let found = match_raw(&vec![utf8(string)], output);
            assert_eq!(found.is_some(), text.contains(string));
            if let Some((_, start, end)) = found {
                let before = text.find(string).unwrap();
                assert_eq!(String::from_utf8_lossy(&output[..start]), &text[..before]);
                assert_eq!(String::from_utf8_lossy(&output[start..end]), string);
            }
        }
    }
}

#[test]
fn a_line_by_line_match_stands_nowhere_before() {
    assert_eq!(match_lines(&vec![utf8("b\n")], b"a\nxb\nb\n"), Some((0, 3, 5)));
    assert_eq!(match_lines(&vec![utf8("b")], b"a\nab\nb"), Some((0, 3, 4)));
}

#[test]
fn a_regular_expression_is_found_in_output_that_is_no_text() {
    assert_eq!(match_raw(&vec![expr("a")], b"\xffa"), Some((0, 1, 2)));
    assert_eq!(match_raw(&vec![expr("b+")], b"\xffa\xe2\x82bb\xfec"), Some((0, 4, 6)));
    assert_eq!(match_lines(&vec![expr("^b")], b"\xff\n\xffb\nb"), Some((0, 5, 6)));
}

#[test]
fn a_regular_expression_matches_what_is_no_text_as_one_character() {
    assert_eq!(match_raw(&vec![expr("a.b")], b"xa\xe2\x82b"), Some((0, 1, 5)));
    assert_eq!(match_raw(&vec![expr("a.$")], b"a\xf0\x9f\x98"), Some((0, 0, 4)));
    assert_eq!(match_raw(&vec![expr("^..$")], b"\xff\xff"), Some((0, 0, 2)));
}

#[test]
fn the_modes_agree_on_strings_inside_of_a_line() {
    let matches = vec![Match::Eof, utf8("zz"), utf8("ab"), Match::Timeout, utf8("c")];
    for output in [&b""[..], b"ab", b"a\nb", b"x\nab\nab", b"\xff\nc", b"a\n\nc ab", b"\xffab\n"] {
        assert_eq!(match_lines(&matches, output), match_raw(&matches, output));
    }
}

#[test]
fn a_string_that_stands_in_the_output_is_found() {
    let output = "one\r\ntwö three\nfour";
    for word in ["one", "twö", "three", "four", "\r\n"] {
        let start = output.find(word).unwrap();
        let found = Some((0, start, start + word.len()));
        assert_eq!(match_raw(&vec![utf8(word)], output.as_bytes()), found);
        assert_eq!(match_lines(&vec![utf8(word)], output.as_bytes()), found);
    }
}
