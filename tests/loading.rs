use streampager::file::File;
use streampager::index::{fingerprint_window, line_count, must_reload, FileEvent, LineIndex, DEFAULT_NEEDED_LINES};

#[test]
fn line_count_counts_trailing_partial_line() {
    assert_eq!(line_count(&[], 0), 0);
    assert_eq!(line_count(&[], 3), 1);
    assert_eq!(line_count(&[1, 3], 4), 2);
    assert_eq!(line_count(&[1, 3], 6), 3);
}

#[test]
fn newlines_are_sorted_and_in_range() {
    let mut idx = LineIndex::new(DEFAULT_NEEDED_LINES);
    idx.append(b"ab\nc");
    idx.append(b"\n\nxyz");
    assert_eq!(idx.length(), 9);
    assert_eq!(idx.newline_count(), 3);
    assert_eq!(idx.lines(), 4);
    assert_eq!(idx.line_range(0), Some((0, 3)));
    assert_eq!(idx.line_range(1), Some((3, 5)));
    assert_eq!(idx.line_range(2), Some((5, 6)));
    assert_eq!(idx.line_range(3), Some((6, 9)));
    assert_eq!(idx.line_range(4), None);
}

#[test]
fn every_listed_line_is_readable() {
    let mut f = File::new(0, "t".to_string(), DEFAULT_NEEDED_LINES);
    f.append(b"one\ntwo\nthree");
    assert_eq!(f.lines(), 3);
    assert_eq!(f.line(0), Some(&b"one\n"[..]));
    assert_eq!(f.line(1), Some(&b"two\n"[..]));
    assert_eq!(f.line(2), Some(&b"three"[..]));
    assert_eq!(f.line(3), None);
    f.finish();
    assert!(f.loaded());
    assert_eq!(f.lines(), 3);
}

#[test]
fn reload_keeps_line_count_until_pass_completes() {
    // Ten lines, then the file is truncated and rewritten with three.
    let mut f = File::new(0, "/tmp/x".to_string(), DEFAULT_NEEDED_LINES);
    for i in 0..10 {
        f.append(format!("line {}\n", i).as_bytes());
    }
    f.finish();
    assert_eq!(f.lines(), 10);
    f.begin_reload();
    assert!(!f.loaded());
    assert_eq!(f.lines(), 10);
    f.append(b"a\nb\nc\n");
    assert_eq!(f.lines(), 10);
    assert_eq!(f.line(5), None);
    f.finish();
    assert_eq!(f.lines(), 3);
    assert_eq!(f.line(2), Some(&b"c\n"[..]));
}

#[test]
fn reload_twice_keeps_largest_count() {
    let mut idx = LineIndex::new(10);
    idx.append(b"1\n2\n3\n4\n");
    idx.begin_reload();
    idx.append(b"x\n");
    idx.begin_reload();
    assert_eq!(idx.lines(), 4);
}

#[test]
fn loader_pauses_at_needed_lines() {
    let mut idx = LineIndex::new(2);
    idx.append(b"a\n");
    assert!(!idx.should_pause());
    idx.append(b"b\n");
    assert!(idx.should_pause());
    idx.set_needed_lines(1);
    assert!(idx.should_pause());
    idx.set_needed_lines(5);
    assert!(!idx.should_pause());
}

#[test]
fn fingerprint_window_is_last_four_kib() {
    assert_eq!(fingerprint_window(100), (0, 100));
    assert_eq!(fingerprint_window(10000), (10000 - 4096, 4096));
}

#[test]
fn reload_decision() {
    assert!(must_reload(FileEvent::Reload, 10, true, true));
    assert!(!must_reload(FileEvent::Append, 10, true, true));
    assert!(must_reload(FileEvent::Append, 0, true, true));
    assert!(must_reload(FileEvent::Append, 10, false, true));
    assert!(must_reload(FileEvent::Append, 10, true, false));
}

#[test]
fn with_line_calls_on_loaded_lines() {
    let mut f = File::new(3, "t".to_string(), DEFAULT_NEEDED_LINES);
    f.append(b"ab\ncde");
    assert_eq!(f.with_line(0, |l| l.to_vec()), Some(b"ab\n".to_vec()));
    assert_eq!(f.with_line(1, |l| l.len()), Some(3));
    assert_eq!(f.with_line(2, |l| l.len()), None);
    assert_eq!(f.index(), 3);
    assert_eq!(f.title(), "t");
}

#[test]
fn info_items_are_kept_in_order() {
    let mut f = File::new(0, "cmd".to_string(), DEFAULT_NEEDED_LINES);
    assert!(f.info_items().is_empty());
    f.add_info("rc: 1".to_string());
    f.add_info("killed!".to_string());
    assert_eq!(f.info_items(), &vec!["rc: 1".to_string(), "killed!".to_string()]);
}
