use streampager::refresh::Refresh;

fn marked(r: &Refresh, n: usize) -> Vec<usize> {
    (0..n).filter(|&i| r.contains(i)).collect()
}

#[test]
fn add_range_merges_and_splits() {
    let mut r = Refresh::new();
    assert!(marked(&r, 20).is_empty());
    r.add_range(2, 4);
    assert_eq!(marked(&r, 20), vec![2, 3]);
    r.add_range(4, 6);
    assert_eq!(marked(&r, 20), vec![2, 3, 4, 5]);
    r.add_range(10, 11);
    assert_eq!(marked(&r, 20), vec![2, 3, 4, 5, 10]);
    r.add_range(0, 1);
    assert_eq!(marked(&r, 20), vec![0, 2, 3, 4, 5, 10]);
    r.set_all();
    assert!(r.is_all());
    assert!(r.contains(1000));
}

#[test]
fn rotate_up_then_down_restores_rows_inside_region() {
    let mut r = Refresh::new();
    r.add_range(1, 2);
    r.add_range(5, 7);
    r.add_range(12, 13);
    r.rotate_range_up(0, 10, 3, false);
    assert_eq!(marked(&r, 20), vec![2, 3, 12]);
    r.rotate_range_down(0, 10, 3, false);
    assert_eq!(marked(&r, 20), vec![5, 6, 12]);
}

#[test]
fn rotate_with_fill_marks_uncovered_rows() {
    let mut r = Refresh::new();
    r.rotate_range_up(0, 5, 1, true);
    assert_eq!(marked(&r, 10), vec![4]);
    let mut d = Refresh::new();
    d.rotate_range_down(0, 5, 2, true);
    assert_eq!(marked(&d, 10), vec![0, 1]);
}

#[test]
fn rotating_all_keeps_all() {
    let mut r = Refresh::new();
    r.set_all();
    r.rotate_range_up(0, 5, 1, false);
    assert!(r.is_all());
}
