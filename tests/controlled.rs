use streampager::controlled::{Change, ControlledFileError, Controller};

fn lines(c: &Controller) -> Vec<Vec<u8>> {
    (0..c.lines()).map(|i| c.line(i).unwrap().to_vec()).collect()
}

fn v(s: &str) -> Vec<u8> {
    s.as_bytes().to_vec()
}

#[test]
fn changes_apply_in_order() {
    let mut c = Controller::new();
    c.subscribe(3);
    let r = c.apply_changes(vec![
        Change::AppendLine { content: v("a") },
        Change::AppendLines { contents: vec![v("b"), v("c"), v("d")] },
        Change::InsertLine { before_index: 0, content: v("z") },
        Change::ReplaceLine { index: 1, content: v("A") },
        Change::DeleteLine { index: 2 },
        Change::InsertLines { before_index: 1, contents: vec![v("x"), v("y")] },
        Change::ReplaceLines { range: 0..2, contents: vec![v("R")] },
        Change::DeleteLines { range: 3..4 },
    ]);
    assert_eq!(r.unwrap(), vec![3]);
    assert_eq!(lines(&c), vec![v("R"), v("y"), v("A"), v("d")]);
    assert_eq!(c.subscribers(), &vec![3]);
}

#[test]
fn out_of_range_change_stops_the_batch() {
    let mut c = Controller::new();
    let r = c.apply_changes(vec![
        Change::AppendLine { content: v("a") },
        Change::DeleteLine { index: 5 },
        Change::AppendLine { content: v("b") },
    ]);
    match r {
        Err(ControlledFileError::LineOutOfRange { index, length }) => {
            assert_eq!((index, length), (5, 1));
        }
        Ok(_) => panic!("expected an error"),
    }
    assert_eq!(lines(&c), vec![v("a")]);
}

#[test]
fn each_change_checks_its_range() {
    let mut c = Controller::new();
    assert!(c.apply_change(Change::InsertLine { before_index: 1, content: v("a") }).is_err());
    assert!(c.apply_change(Change::InsertLine { before_index: 0, content: v("a") }).is_ok());
    assert!(c.apply_change(Change::ReplaceLine { index: 1, content: v("a") }).is_err());
    assert!(c.apply_change(Change::InsertLines { before_index: 2, contents: vec![] }).is_err());
    assert!(c.apply_change(Change::ReplaceLines { range: 0..2, contents: vec![] }).is_err());
    assert!(c.apply_change(Change::DeleteLines { range: 1..0 }).is_err());
    assert!(c.apply_change(Change::DeleteLines { range: 0..1 }).is_ok());
    assert_eq!(c.lines(), 0);
    assert!(c.line(0).is_none());
}

#[test]
fn with_line_calls_on_the_line() {
    let mut c = Controller::new();
    c.apply_change(Change::AppendLines { contents: vec![v("one"), v("three")] }).unwrap();
    assert_eq!(c.with_line(1, |l| l.len()), Some(5));
    assert_eq!(c.with_line(2, |l| l.len()), None);
}
