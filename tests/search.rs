use streampager::highlight::{parse_line_search, parse_spans_search};
use streampager::line::Span;
use streampager::file::File;
use streampager::index::DEFAULT_NEEDED_LINES;
use streampager::search::{search_bytes, search_file, sweep_line, MatchMotion, Pattern, SearchKind, SearchMatches};

fn file(text: &str) -> File {
    let mut f = File::new(0, "f".to_string(), DEFAULT_NEEDED_LINES);
    f.append(text.as_bytes());
    f.finish();
    f
}

#[test]
fn regex_search_moves_between_matches() {
    let f = file("foo\nbar\nfoobar\nbaz\n");
    let pattern = Pattern::new("foo").unwrap();
    let mut m = search_file(&f, &pattern, SearchKind::First);
    assert_eq!(m.total(), 2);
    assert_eq!(m.searched_lines(), 4);
    let lines: Vec<usize> = m.line_matches().iter().map(|l| l.line_index).collect();
    assert_eq!(lines, vec![0, 2]);
    assert_eq!(m.current_line(), Some(0));
    m.move_match(MatchMotion::Next);
    assert_eq!(m.current_line(), Some(2));
    m.move_match(MatchMotion::Next);
    assert_eq!(m.current(), Some(1));
    m.move_match(MatchMotion::First);
    assert_eq!(m.current_line(), Some(0));
}

#[test]
fn motions_clamp_at_the_ends() {
    let mut m = SearchMatches::new();
    m.move_match(MatchMotion::Next);
    assert_eq!(m.current(), None);
    assert!(m.record_line(3, 2));
    assert!(!m.record_line(4, 0));
    assert!(!m.record_line(7, 3));
    m.move_match(MatchMotion::Previous);
    assert_eq!(m.current(), Some(0));
    m.move_match(MatchMotion::NextLine);
    assert_eq!(m.current(), Some(2));
    m.move_match(MatchMotion::NextLine);
    assert_eq!(m.current(), Some(2));
    m.move_match(MatchMotion::Last);
    assert_eq!(m.current(), Some(4));
    m.move_match(MatchMotion::PreviousLine);
    assert_eq!(m.current(), Some(0));
    assert_eq!(m.searched_lines(), 3);
}

#[test]
fn sweep_orders() {
    let after: Vec<usize> = (0..5).map(|k| sweep_line(SearchKind::FirstAfter(3), 5, k)).collect();
    assert_eq!(after, vec![3, 4, 0, 1, 2]);
    let before: Vec<usize> = (0..5).map(|k| sweep_line(SearchKind::FirstBefore(2), 5, k)).collect();
    assert_eq!(before, vec![1, 0, 4, 3, 2]);
    let first: Vec<usize> = (0..3).map(|k| sweep_line(SearchKind::First, 3, k)).collect();
    assert_eq!(first, vec![0, 1, 2]);
}

#[test]
fn search_text_strips_terminator_and_escapes() {
    assert_eq!(search_bytes(b"ab\r\n"), b"ab".to_vec());
    assert_eq!(search_bytes(b"a\x1b(0qq\x1b(Bb\n"), b"aqqb".to_vec());
    assert_eq!(search_bytes(b"\x1b[1mbold\x1b[m"), b"bold".to_vec());
    assert_eq!(search_bytes(b"a\x1b[31;7mb"), b"ab".to_vec());
    // An escape byte that starts no complete sequence stays.
    assert_eq!(search_bytes(b"x\x1b"), b"x\x1b".to_vec());
}

#[test]
fn invalid_pattern_is_reported() {
    assert!(Pattern::new("foo(").is_err());
    let f = file("x\ny\n");
    let m = search_file(&f, &Pattern::new("z").unwrap(), SearchKind::FirstAfter(1));
    assert_eq!(m.total(), 0);
    assert_eq!(m.current(), None);
}

#[test]
fn matches_are_marked_in_lines() {
    let p = Pattern::new("o+").unwrap();
    assert_eq!(
        parse_spans_search(b"foobar boo\n", &p),
        vec![
            Span::Text("f".to_string()),
            Span::Match("oo".to_string(), 0),
            Span::Text("bar b".to_string()),
            Span::Match("oo".to_string(), 1),
            Span::LF,
        ]
    );
    let p = Pattern::new("afoo").unwrap();
    assert_eq!(
        parse_spans_search(b"a\x1b(0foo\x1b(B!", &p),
        vec![
            Span::Match("a".to_string(), 0),
            Span::LineDrawing(true),
            Span::Match("foo".to_string(), 0),
            Span::LineDrawing(false),
            Span::Text("!".to_string()),
        ]
    );
    let data = b"x\x1b(0y\x1b(Bz";
    let spans = parse_line_search(data, &Pattern::new("yz").unwrap());
    let mut at = 0;
    for s in &spans {
        assert_eq!(s.start, at);
        at = s.end;
    }
    assert_eq!(at, data.len());
}

#[test]
fn current_match_within_its_line() {
    let mut m = SearchMatches::new();
    m.record_line(3, 2);
    m.record_line(7, 3);
    assert_eq!(m.current_in_line(3), Some(0));
    m.move_match(MatchMotion::Next);
    assert_eq!(m.current_in_line(3), Some(1));
    m.move_match(MatchMotion::Next);
    assert_eq!(m.current_in_line(3), None);
    assert_eq!(m.current_in_line(7), Some(0));
}

#[test]
fn matches_found_across_colour_escapes() {
    let f = file("\x1b[31mfo\x1b[mo\nbar\n");
    let p = Pattern::new("foo").unwrap();
    let m = search_file(&f, &p, SearchKind::First);
    assert_eq!(m.total(), 1);
    assert_eq!(m.current_line(), Some(0));
}
