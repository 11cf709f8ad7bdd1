use gptcli::text::{
    count_lines, lines, sanitize_non_utf8_runs, sanitize_text, slice_lines, slice_text,
};

#[test]
fn invalid_run_becomes_one_marker() {
    let bytes = [b'A', b'B', 0xFF, 0xFE, b'C', b'D'];
    assert_eq!(sanitize_non_utf8_runs(&bytes), "AB???CD");
    assert_eq!(sanitize_text(&bytes), "AB???CD");
}

#[test]
fn marker_does_not_depend_on_run_length() {
    assert_eq!(sanitize_non_utf8_runs(&[b'A', 0xFF, b'B']), "A???B");
    assert_eq!(sanitize_non_utf8_runs(&[b'A', 0xFF, 0xFF, 0xFF, 0xFF, 0x80, b'B']), "A???B");
}

#[test]
fn runs_at_the_ends_and_apart() {
    assert_eq!(sanitize_non_utf8_runs(&[b'A', 0x80]), "A???");
    assert_eq!(sanitize_non_utf8_runs(&[0x00, 0x01, b'x']), "???x");
    assert_eq!(sanitize_non_utf8_runs(&[0xFF, b'a', 0xFE]), "???a???");
    assert_eq!(sanitize_non_utf8_runs(&[0xFF]), "???");
    assert_eq!(sanitize_non_utf8_runs(&[]), "");
}

#[test]
fn plain_bytes_pass_through() {
    assert_eq!(sanitize_non_utf8_runs(b"a\tb\r\nc ~"), "a\tb\r\nc ~");
    assert_eq!(sanitize_non_utf8_runs(&[0x7F]), "???");
    assert_eq!(sanitize_non_utf8_runs(&[0x1F, b' ']), "??? ");
}

#[test]
fn well_formed_text_is_kept_as_it_is() {
    let text = "h\u{e9}llo \u{2014} \u{4e16}\u{754c}\n";
    assert_eq!(sanitize_text(text.as_bytes()), text);
    assert_eq!(sanitize_non_utf8_runs("h\u{e9}llo".as_bytes()), "h???llo");
}

#[test]
fn lines_end_at_newlines() {
    assert_eq!(lines("a\nb\r\nc"), vec!["a", "b", "c"]);
    assert_eq!(lines("a\n"), vec!["a"]);
    assert_eq!(lines("\n"), vec![""]);
    assert_eq!(lines("a\n\nb"), vec!["a", "", "b"]);
    assert!(lines("").is_empty());
}

#[test]
fn carriage_return_is_dropped_only_before_newline() {
    assert_eq!(lines("a\r"), vec!["a\r"]);
    assert_eq!(lines("a\r\r\n"), vec!["a\r"]);
    assert_eq!(lines("a\rb\n"), vec!["a\rb"]);
}

#[test]
fn lines_agree_with_std() {
    for text in ["", "x", "x\n", "x\r\n", "\r\n\r\n", "a\nb\r\nc\r", "\n\n\n", "a\r\r\nb"] {
        let expected: Vec<String> = text.lines().map(|l| l.to_string()).collect();
        assert_eq!(lines(text), expected);
        assert_eq!(count_lines(text), expected.len());
    }
}

#[test]
fn slice_lines_takes_inclusive_range() {
    assert_eq!(slice_lines("a\nb\r\nc\nd", 2, 3), "b\nc\n");
    assert_eq!(slice_lines("l1\nl2\nl3\nl4\n", 1, 1), "l1\n");
    assert_eq!(slice_lines("l1\nl2\nl3\nl4\n", 4, 4), "l4\n");
    assert_eq!(slice_lines("l1\nl2\nl3\nl4", 4, 4), "l4\n");
}

#[test]
fn slice_lines_outside_the_text() {
    let text = "l1\nl2\nl3\n";
    assert_eq!(slice_lines(text, 0, 2), "l1\nl2\n");
    assert_eq!(slice_lines(text, -5, 1), "l1\n");
    assert_eq!(slice_lines(text, 2, 100), "l2\nl3\n");
    assert_eq!(slice_lines(text, 3, 2), "");
    assert_eq!(slice_lines(text, 4, 9), "");
    assert_eq!(slice_lines(text, -3, 0), "");
    assert_eq!(slice_lines(text, i64::MIN, i64::MAX), text);
    assert_eq!(slice_lines("", 1, 1), "");
}

#[test]
fn slice_text_is_the_same_cut() {
    let text = "a\nb\nc\n";
    assert_eq!(slice_text(text, 2, 3), slice_lines(text, 2, 3));
    assert_eq!(slice_text(text, 2, 3), "b\nc\n");
}
