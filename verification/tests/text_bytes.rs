use slate_framework::text_edit::text_bytes::floor_char_boundary;

#[test]
fn floor_char_boundary_steps_back_inside_a_char() {
    // 'é' occupies bytes 1..3
    assert_eq!(floor_char_boundary("héllo", 2), 1);
    assert_eq!(floor_char_boundary("héllo", 3), 3);
    assert_eq!(floor_char_boundary("héllo", 1), 1);
}

#[test]
fn floor_char_boundary_clamps_to_length() {
    assert_eq!(floor_char_boundary("abc", 10), 3);
    assert_eq!(floor_char_boundary("", 5), 0);
    assert_eq!(floor_char_boundary("日本", 5), 3);
}
