use streampager::file::File;
use streampager::index::DEFAULT_NEEDED_LINES;
use streampager::ruler::position;
use streampager::refresh::Refresh;
use streampager::bindings::Binding;
use streampager::search::{MatchMotion, SearchKind};
use streampager::view::{plan_line_row, plan_region, scroll_refresh, ScrollPlan};
use streampager::view::{
    add_changed_rows, animating, assign_rows, end_anchor, layout_overlay, needed_lines, plan_scroll, KeyAction,
    RenderState, ScrollDirection,
    ScrollRequest, Viewport, WrappingMode,
};

fn request(top_line: usize, relative: isize) -> ScrollRequest {
    ScrollRequest {
        top_line,
        top_line_portion: 0,
        absolute: None,
        relative,
        following_end: false,
        scroll_past_eof: false,
    }
}

#[test]
fn end_anchor_fills_view() {
    assert_eq!(end_anchor(&[1, 1, 1], 5), (0, 0));
    assert_eq!(end_anchor(&[1, 1, 1, 1, 1, 1, 1], 5), (2, 0));
    // Last line wraps onto three rows: the anchor is inside a line.
    assert_eq!(end_anchor(&[1, 3, 3], 5), (1, 1));
    assert_eq!(end_anchor(&[1, 2], 0), (2, 0));
}

#[test]
fn scrolling_stops_at_end_anchor() {
    let heights = vec![1usize; 20];
    let plan = plan_scroll(&heights, 5, request(0, 100));
    assert_eq!((plan.top_line, plan.top_line_portion), (15, 0));
    assert_eq!(plan.direction, ScrollDirection::Down);
    assert_eq!(plan.distance, 15);
    let mut past = request(0, 100);
    past.scroll_past_eof = true;
    let plan = plan_scroll(&heights, 5, past);
    assert_eq!((plan.top_line, plan.top_line_portion), (19, 0));
}

#[test]
fn scrolling_up_stops_at_top() {
    let heights = vec![2usize; 10];
    let mut req = request(3, -100);
    req.top_line_portion = 1;
    let plan = plan_scroll(&heights, 5, req);
    assert_eq!((plan.top_line, plan.top_line_portion), (0, 0));
    assert_eq!(plan.direction, ScrollDirection::Up);
    assert_eq!(plan.distance, 7);
}

#[test]
fn scrolling_within_wrapped_lines() {
    let heights = vec![3usize, 3, 3, 3];
    let plan = plan_scroll(&heights, 2, request(0, 4));
    assert_eq!((plan.top_line, plan.top_line_portion), (1, 1));
}

#[test]
fn following_end_scrolls_by_small_step() {
    let heights = vec![1usize; 7];
    let mut req = request(0, 0);
    req.following_end = true;
    let plan = plan_scroll(&heights, 5, req);
    assert_eq!((plan.top_line, plan.top_line_portion), (2, 0));
    assert!(!plan.jumped);
    assert_eq!(plan.distance, 2);
    // Far from the end: jump.
    let heights = vec![1usize; 100];
    let plan = plan_scroll(&heights, 5, req);
    assert!(plan.jumped);
    assert_eq!(plan.top_line, 95);
}

#[test]
fn jump_to_line_centres_it() {
    let heights = vec![1usize; 100];
    let mut req = request(0, 0);
    req.absolute = Some(50);
    let plan = plan_scroll(&heights, 10, req);
    assert!(plan.jumped);
    assert_eq!(plan.top_line, 45);
}

#[test]
fn rows_assigned_from_top() {
    let rows = assign_rows(&[1, 3, 1, 1, 1], 1, 1, 4);
    assert_eq!(rows, vec![(0, 2), (2, 3), (3, 4)]);
    let rows = assign_rows(&[1, 1], 0, 0, 5);
    assert_eq!(rows, vec![(0, 1), (1, 2)]);
}

#[test]
fn overlay_layout_stacks_from_bottom() {
    let l = layout_overlay(7, 1, 2, true, true, false);
    assert_eq!(l.overlay_height, 6);
    assert_eq!(l.ruler_row, Some(3));
    assert_eq!(l.search_row, Some(2));
    assert_eq!(l.prompt_row, Some(1));
    assert_eq!(l.error_row, None);
    let l = layout_overlay(6, 1, 2, true, true, false);
    assert_eq!(l.overlay_height, 1);
    assert_eq!(l.ruler_row, None);
    assert_eq!(l.prompt_row, Some(5));
    let l = layout_overlay(6, 0, 0, false, false, false);
    assert_eq!(l.overlay_height, 1);
    assert_eq!(l.ruler_row, Some(5));
    // Too small: only the prompt.
    let l = layout_overlay(3, 2, 2, false, true, true);
    assert_eq!(l.overlay_height, 1);
    assert_eq!(l.prompt_row, Some(2));
    assert_eq!(l.ruler_row, None);
}

#[test]
fn pressing_down_scrolls_region_by_one_row() {
    // A screen of height 6 with the ruler only: a file view of 5 rows.
    let layout = layout_overlay(6, 0, 0, false, false, false);
    let view_height = 6 - layout.overlay_height;
    let heights = vec![1usize; 20];
    let mut view = Viewport::new(20, 6);
    view.pending_refresh = Refresh::new();
    view.scroll_down(1);
    let plan = view.apply_scroll(&heights, view_height, false);
    assert_eq!(plan.direction, ScrollDirection::Down);
    assert_eq!(plan.distance, 1);
    assert!(!plan.jumped);
    view.pending_refresh.rotate_range_up(0, view_height, plan.distance, true);
    let rows: Vec<usize> = (0..6).filter(|&r| view.pending_refresh.contains(r)).collect();
    assert_eq!(rows, vec![4]);
}

#[test]
fn resize_to_same_size_changes_nothing() {
    let mut view = Viewport::new(20, 6);
    view.pending_refresh = Refresh::new();
    view.top_line = 3;
    view.resize(20, 6);
    assert!(!view.pending_refresh.is_all());
    assert_eq!((view.width, view.height, view.top_line), (20, 6, 3));
    view.resize(30, 8);
    assert!(view.pending_refresh.is_all());
    view.resize(20, 6);
    assert_eq!((view.width, view.height, view.top_line), (20, 6, 3));
}

#[test]
fn horizontal_scrolling_only_when_unwrapped() {
    let mut view = Viewport::new(20, 6);
    view.scroll_right(5);
    assert_eq!(view.left, 0);
    view.wrapping = WrappingMode::Unwrapped;
    view.scroll_right(5);
    assert_eq!(view.left, 5);
    view.scroll_left(7);
    assert_eq!(view.left, 0);
}

#[test]
fn bindings_act_on_the_view() {
    let mut view = Viewport::new(40, 10);
    assert_eq!(view.dispatch_binding(&Binding::Quit, 9, 0, 9), KeyAction::Quit);
    assert_eq!(view.dispatch_binding(&Binding::ScrollDownLines(3), 9, 0, 9), KeyAction::Render);
    assert_eq!(view.pending_relative_scroll, 3);
    view.dispatch_binding(&Binding::ScrollUpScreenFraction(2), 9, 0, 9);
    assert_eq!(view.pending_relative_scroll, 3 - 4);
    view.dispatch_binding(&Binding::ScrollDownScreenFraction(0), 9, 0, 9);
    assert_eq!(view.pending_relative_scroll, -1);
    view.dispatch_binding(&Binding::ScrollToBottom, 9, 0, 9);
    assert!(view.following_end);
    view.dispatch_binding(&Binding::ScrollToTop, 9, 0, 9);
    assert_eq!(view.pending_absolute_scroll, Some(0));
    assert!(!view.following_end);
    assert_eq!(view.dispatch_binding(&Binding::ToggleLineWrapping, 9, 0, 9), KeyAction::Refresh);
    assert_eq!(view.wrapping, WrappingMode::Unwrapped);
    view.dispatch_binding(&Binding::ScrollRightScreenFraction(4), 9, 0, 9);
    assert_eq!(view.left, 10);
    assert_eq!(
        view.dispatch_binding(&Binding::PromptSearchBackwards, 9, 5, 14),
        KeyAction::PromptSearch(SearchKind::FirstBefore(14))
    );
    assert_eq!(view.dispatch_binding(&Binding::LastMatch, 9, 0, 9), KeyAction::MoveMatch(MatchMotion::Last));
    assert_eq!(view.dispatch_binding(&Binding::Unrecognized("x".to_string()), 9, 0, 9), KeyAction::Render);
}

#[test]
fn load_and_animation_decisions() {
    assert_eq!(needed_lines(10, 20, 5000), 5030);
    assert_eq!(needed_lines(usize::MAX - 1, 20, 1), usize::MAX);
    assert!(animating(false, false, false, false, false));
    assert!(!animating(false, false, true, false, false));
    assert!(!animating(false, true, false, false, false));
    assert!(animating(false, true, false, false, true));
}

#[test]
fn following_the_end_shows_newest_line() {
    let mut f = File::new(0, "stream".to_string(), DEFAULT_NEEDED_LINES);
    f.append(b"l1\nl2\nl3\n");
    let mut view = Viewport::new(20, 6);
    assert_eq!(view.dispatch_binding(&Binding::ScrollToBottom, 5, 0, 0), KeyAction::Render);
    let heights = vec![1usize; f.lines()];
    view.apply_scroll(&heights, 5, false);
    f.append(b"l4\nl5\n");
    let heights = vec![1usize; f.lines()];
    let plan = view.apply_scroll(&heights, 5, false);
    let rows = assign_rows(&heights, plan.top_line, plan.top_line_portion, 5);
    let bottom = plan.top_line + rows.len();
    assert_eq!(f.line(bottom - 1), Some(&b"l5\n"[..]));
    assert_eq!(position(plan.top_line, 0, bottom, f.lines()), "lines 1-5/5");
    // A shorter view: the newest line is on the bottom row.
    let plan = view.apply_scroll(&heights, 3, false);
    let rows = assign_rows(&heights, plan.top_line, plan.top_line_portion, 3);
    assert_eq!(plan.top_line, 2);
    assert_eq!(rows.last(), Some(&(2, 3)));
}

#[test]
fn view_rehomes_when_file_shrinks() {
    let mut view = Viewport::new(20, 6);
    view.top_line = 5;
    view.pending_refresh = Refresh::new();
    view.fit_to(&[1, 1, 1]);
    assert_eq!((view.top_line, view.top_line_portion), (0, 0));
    assert!(view.pending_refresh.is_all());
    let mut kept = Viewport::new(20, 6);
    kept.top_line = 2;
    kept.pending_refresh = Refresh::new();
    kept.fit_to(&[1, 1, 1]);
    assert_eq!(kept.top_line, 2);
    assert!(!kept.pending_refresh.is_all());
}

fn state(top: usize, rows: Vec<(usize, usize)>, file_lines: usize) -> RenderState {
    RenderState {
        width: 20,
        height: 6,
        top_line: top,
        top_line_portion: 0,
        bottom_line: top + rows.len(),
        left: 0,
        overlay_height: 1,
        file_lines,
        searched_lines: 0,
        error_file_lines: 0,
        error_file_last_line_portion: None,
        progress_height: 0,
        error_file_height: 0,
        ruler_row: Some(5),
        prompt_row: None,
        error_row: None,
        search_row: None,
        file_line_rows: rows,
    }
}

#[test]
fn redraw_rows_for_new_lines_and_moves() {
    let prev = state(0, vec![(0, 1), (1, 2)], 2);
    let now = state(0, vec![(0, 1), (1, 2), (2, 4)], 3);
    assert_eq!(now.file_line_rows(2), Some((2, 4)));
    assert_eq!(now.file_line_rows(3), None);
    let mut r = Refresh::new();
    add_changed_rows(&mut r, &prev, &now, true, &vec![]);
    let rows: Vec<usize> = (0..6).filter(|&i| r.contains(i)).collect();
    // The new line, and the ruler since the bottom line moved.
    assert_eq!(rows, vec![2, 3, 5]);
    // While loading, the last line is redrawn too.
    let mut r = Refresh::new();
    add_changed_rows(&mut r, &now, &now, false, &vec![]);
    let rows: Vec<usize> = (0..6).filter(|&i| r.contains(i)).collect();
    assert_eq!(rows, vec![2, 3]);
    // Search progress redraws the matching lines in view.
    let mut searched = now.clone();
    searched.searched_lines = 3;
    let mut r = Refresh::new();
    add_changed_rows(&mut r, &now, &searched, true, &vec![1, 7]);
    let rows: Vec<usize> = (0..6).filter(|&i| r.contains(i)).collect();
    assert_eq!(rows, vec![1]);
}

fn moved(direction: ScrollDirection, distance: usize) -> ScrollPlan {
    ScrollPlan { top_line: 0, top_line_portion: 0, direction, distance, jumped: false }
}

#[test]
fn scroll_region_is_used_for_short_scrolls() {
    assert_eq!(plan_region(&moved(ScrollDirection::Down, 1), 5, false), Some((ScrollDirection::Down, 1)));
    assert_eq!(plan_region(&moved(ScrollDirection::Down, 5), 5, false), None);
    assert_eq!(plan_region(&moved(ScrollDirection::Up, 2), 5, true), None);
    assert_eq!(plan_region(&moved(ScrollDirection::Still, 0), 5, false), None);
    let mut r = Refresh::new();
    assert_eq!(scroll_refresh(&mut r, &moved(ScrollDirection::Up, 2), 5), Some((ScrollDirection::Up, 2)));
    let rows: Vec<usize> = (0..6).filter(|&i| r.contains(i)).collect();
    assert_eq!(rows, vec![0, 1]);
    let mut r = Refresh::new();
    assert_eq!(scroll_refresh(&mut r, &moved(ScrollDirection::Down, 9), 5), None);
    let rows: Vec<usize> = (0..6).filter(|&i| r.contains(i)).collect();
    assert_eq!(rows, vec![0, 1, 2, 3, 4]);
}

#[test]
fn line_rows_with_numbers_and_wrapping() {
    let p = plan_line_row(4, 0, 0, 20, true, true, 120);
    assert_eq!(p.gutter.as_deref(), Some("   5 "));
    assert_eq!((p.start, p.end), (0, 15));
    let p = plan_line_row(4, 2, 0, 20, true, true, 120);
    assert_eq!(p.gutter.as_deref(), Some("     "));
    assert_eq!((p.start, p.end), (30, 45));
    let p = plan_line_row(4, 0, 7, 20, false, false, 120);
    assert!(p.gutter.is_none());
    assert_eq!((p.start, p.end), (7, 27));
    let p = plan_line_row(0, 0, 0, 4, false, true, 120);
    assert!(p.gutter.is_none());
}

#[test]
fn add_range_keeps_ranges_when_it_can() {
    let mut r = Refresh::new();
    r.add_range(2, 4);
    assert!(matches!(r, Refresh::Range(2, 4)));
    r.add_range(4, 6);
    assert!(matches!(r, Refresh::Range(2, 6)));
    r.add_range(9, 10);
    assert!(matches!(r, Refresh::Lines(_)));
}
