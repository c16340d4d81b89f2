use streampager::line::{parse_spans, Span};
use streampager::render::{line_columns, render_span, wrapped_height, OutputStyle};

fn render_all(spans: &[Span], start: usize, end: usize, current: Option<usize>) -> (String, usize) {
    let mut out = String::new();
    let mut position = 0;
    for span in spans {
        let (text, _, next) = render_span(span, position, start, end, false, current);
        out.push_str(&text);
        position = next;
    }
    (out, position)
}

#[test]
fn spans_show_at_their_columns() {
    let spans = parse_spans(b"a\tb\x01\xff\n", None);
    let (text, width) = render_all(&spans, 0, usize::MAX / 2, None);
    assert_eq!(text, "a       b<01><FF>");
    assert_eq!(width, 17);
    let (text, _) = render_all(&spans, 2, 12, None);
    assert_eq!(text, "      b<01");
}

#[test]
fn rendering_text_gives_it_back() {
    let line = "plain text, wide 日本 too";
    let spans = parse_spans(line.as_bytes(), None);
    let (text, _) = render_all(&spans, 0, usize::MAX / 2, None);
    assert_eq!(text, line);
}

#[test]
fn span_styles() {
    let (t, s, next) = render_span(&Span::Match("ab".to_string(), 2), 3, 0, 100, false, Some(2));
    assert_eq!((t.as_str(), s, next), ("ab", OutputStyle::CurrentMatch, 5));
    let (_, s, _) = render_span(&Span::Match("ab".to_string(), 1), 3, 0, 100, false, Some(2));
    assert_eq!(s, OutputStyle::Match);
    let (t, s, next) = render_span(&Span::Unprintable("\u{200b}".to_string()), 0, 0, 100, false, None);
    assert_eq!((t.as_str(), s, next), ("<U+200B>", OutputStyle::Control, 8));
    let (t, _, _) = render_span(&Span::Text("qq".to_string()), 0, 0, 100, true, None);
    assert_eq!(t, "──");
    let (t, _, next) = render_span(&Span::TAB, 5, 0, 100, false, None);
    assert_eq!((t.as_str(), next), ("   ", 8));
}

#[test]
fn line_columns_and_heights() {
    let spans = parse_spans(b"ab\tc\x01", None);
    assert_eq!(line_columns(&spans), Some(13));
    assert_eq!(wrapped_height(13, 5, true), 3);
    assert_eq!(wrapped_height(10, 5, true), 2);
    assert_eq!(wrapped_height(13, 5, false), 1);
    assert_eq!(wrapped_height(0, 5, true), 1);
    let drawn = parse_spans(b"\x1b(0qq\x1b(B", None);
    assert_eq!(line_columns(&drawn), Some(2));
}
