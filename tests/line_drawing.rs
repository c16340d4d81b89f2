use streampager::line_drawing::convert_line_drawing;

#[test]
fn test_convert_line_drawing() {
    assert_eq!(convert_line_drawing("aaaaa"), "▒▒▒▒▒");
    assert_eq!(convert_line_drawing("tqutqu"), "├─┤├─┤");
}

#[test]
fn line_drawing_keeps_other_characters() {
    assert_eq!(convert_line_drawing("AZ09 ^"), "AZ09 ^");
    assert_eq!(convert_line_drawing("_~"), "\u{A0}·");
    assert_eq!(convert_line_drawing(""), "");
}
