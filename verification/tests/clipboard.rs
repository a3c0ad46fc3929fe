use slate_framework::text_edit::clipboard::clean_paste;

#[test]
fn paste_single_line_strips_newlines_keeps_other_chars() {
    let cleaned = clean_paste("line1\nline2\r\nline3", false);
    assert_eq!(cleaned, "line1line2line3");
}

#[test]
fn paste_multiline_keeps_lf_and_normalizes_crlf() {
    assert_eq!(clean_paste("a\r\nb", true), "a\nb");
    assert_eq!(clean_paste("a\rb", true), "a\nb");
    assert_eq!(clean_paste("a\nb", true), "a\nb");
}

#[test]
fn paste_multiline_trailing_cr_and_double_cr() {
    assert_eq!(clean_paste("a\r", true), "a\n");
    assert_eq!(clean_paste("\r\r\n", true), "\n\n");
    assert_eq!(clean_paste("", true), "");
}

#[test]
fn paste_single_line_of_only_newlines_is_empty() {
    assert_eq!(clean_paste("\r\n\n\r", false), "");
    assert_eq!(clean_paste("é\u{4f60}", false), "é\u{4f60}");
}
