use streampager::screens::Screens;
use streampager::command::{goto, parse_isize, GotoOutcome, IntErrorKind};
use streampager::config::{Delay, InterfaceMode};
use streampager::direct::{unread_range, DirectKey, DirectPolicy, LoadTracker, Outcome, StreamingLines};
use streampager::history::PromptHistory;
use streampager::prompt::{move_word_backwards, move_word_forwards, render_width, PromptAction, PromptState};

fn text(p: &PromptState) -> String {
    p.value().iter().collect()
}

#[test]
fn direct_policy_by_mode() {
    assert!(DirectPolicy::for_mode(InterfaceMode::FullScreen) == Err(Outcome::RenderNothing));
    let direct = DirectPolicy::for_mode(InterfaceMode::Direct).unwrap();
    assert_eq!(direct.on_height(100, 6), None);
    let hybrid = DirectPolicy::for_mode(InterfaceMode::Hybrid).unwrap();
    assert_eq!(hybrid.on_height(6, 6), Some(Outcome::RenderIncomplete));
    assert_eq!(hybrid.on_height(5, 6), None);
    let delayed = DirectPolicy::for_mode(InterfaceMode::Delayed(Delay { secs: 1, millis: 0 })).unwrap();
    assert_eq!(delayed.on_height(6, 6), Some(Outcome::RenderNothing));
    assert_eq!(delayed.on_deadline(true), Some(Outcome::RenderNothing));
    assert_eq!(hybrid.on_deadline(true), None);
    assert_eq!(delayed.on_key(DirectKey::Quit), Some(Outcome::Interrupted));
    assert_eq!(delayed.on_key(DirectKey::FullScreen), Some(Outcome::RenderNothing));
    assert_eq!(hybrid.on_key(DirectKey::FullScreen), Some(Outcome::RenderIncomplete));
    assert_eq!(hybrid.on_key(DirectKey::Other), None);
}

#[test]
fn short_stream_completes_in_delayed_mode() {
    // "a\nb\nc\n" with no deadline on a screen of six rows.
    let policy = DirectPolicy::for_mode(InterfaceMode::Delayed(Delay { secs: u64::MAX, millis: 0 })).unwrap();
    let mut tracker = LoadTracker::new(1);
    let mut lines = StreamingLines::new();
    let range = unread_range(3, 0, true, true, 6 + 2);
    assert_eq!(range, Some((0, 3)));
    lines.apply_changes(0, vec![b"a\n".to_vec(), b"b\n".to_vec(), b"c\n".to_vec()], vec![], vec![]);
    assert_eq!(lines.height(), 3);
    assert_eq!(policy.on_height(lines.height(), 6), None);
    tracker.on_loaded(0);
    tracker.on_loaded(0);
    assert!(tracker.all_loaded());
    assert_eq!(lines.output_lines().len(), 3);
}

#[test]
fn unread_lines_skip_unterminated_tail() {
    assert_eq!(unread_range(5, 2, false, false, 10), Some((2, 4)));
    assert_eq!(unread_range(5, 2, true, false, 10), Some((2, 5)));
    assert_eq!(unread_range(5, 2, true, true, 1), Some((2, 3)));
    assert_eq!(unread_range(1, 2, true, true, 1), None);
}

#[test]
fn streaming_lines_track_what_to_redraw() {
    let mut s = StreamingLines::new();
    s.apply_changes(0, vec![b"o".to_vec()], vec![b"e".to_vec()], vec![b"p1".to_vec(), b"p2".to_vec()]);
    assert_eq!(s.erase_line_count(), 3);
    assert!(s.is_unchanged(&vec![], &vec![], &vec![b"p1".to_vec(), b"p2".to_vec()]));
    assert!(!s.is_unchanged(&vec![], &vec![], &vec![b"p1".to_vec()]));
    s.apply_changes(1, vec![], vec![], vec![]);
    assert_eq!(s.height(), 1 + 1 + 1);
}

#[test]
fn prompt_editing() {
    let mut p = PromptState::new();
    assert_eq!(p.insert_char('a', 80), Some(PromptAction::Echo('a')));
    p.insert_char('c', 80);
    p.move_prev_char();
    p.insert_char('b', 80);
    assert_eq!(text(&p), "abc");
    assert_eq!(p.position(), 2);
    p.transpose_chars();
    assert_eq!(text(&p), "acb");
    assert_eq!(p.position(), 3);
    p.move_to_start();
    assert_eq!(p.delete_prev_char(), None);
    p.delete_next_char();
    assert_eq!(text(&p), "cb");
    p.move_to_end();
    p.insert_str(" foo bar");
    assert_eq!(text(&p), "cb foo bar");
    p.delete_prev_word();
    assert_eq!(text(&p), "cb foo ");
    p.move_prev_word();
    assert_eq!(p.position(), 3);
    p.delete_to_end();
    assert_eq!(text(&p), "cb ");
    p.delete_to_start();
    assert_eq!(text(&p), "");
    assert_eq!(p.cursor_position(), 0);
}

#[test]
fn prompt_cursor_columns() {
    let mut p = PromptState::load("a\u{1}b");
    assert_eq!(p.cursor_position(), 1 + 4 + 1);
    assert_eq!(render_width('\u{7f}'), 4);
    assert_eq!(render_width('x'), 1);
    assert_eq!(render_width('日'), 2);
    p.clamp_offset(80);
    assert!(p.offset() <= p.position());
    assert_eq!(p.save(), "a\u{1}b");
}

#[test]
fn word_motion() {
    let v: Vec<char> = "  one two  ".chars().collect();
    assert_eq!(move_word_forwards(&v, 0), 5);
    assert_eq!(move_word_forwards(&v, 5), 9);
    assert_eq!(move_word_backwards(&v, 9), 6);
    assert_eq!(move_word_backwards(&v, 6), 2);
    assert_eq!(move_word_backwards(&v, 2), 0);
}

#[test]
fn history_moves_between_entries() {
    let mut h = PromptHistory::new("search".to_string(), vec!["old".to_string(), "older".to_string()]);
    assert_eq!(h.save_data(), None);
    assert_eq!(h.next(), None);
    assert_eq!(h.previous(), Some(PromptAction::RefreshPrompt));
    assert_eq!(h.state().save(), "older");
    assert_eq!(h.save_data(), None);
    h.previous();
    assert_eq!(h.state().save(), "old");
    assert_eq!(h.save_data(), Some("old".to_string()));
    assert_eq!(h.previous(), None);
    assert_eq!(h.lines_to_drop(), 0);
}

#[test]
fn goto_targets() {
    assert_eq!(goto("q", 10), GotoOutcome::Quit);
    assert_eq!(goto("", 10), GotoOutcome::Render);
    assert_eq!(goto("5", 10), GotoOutcome::ScrollTo(4));
    assert_eq!(goto("0", 10), GotoOutcome::ScrollTo(0));
    assert_eq!(goto("20", 10), GotoOutcome::ScrollTo(9));
    assert_eq!(goto("-1", 10), GotoOutcome::ScrollTo(8));
    assert_eq!(goto("-20", 10), GotoOutcome::ScrollTo(0));
    assert_eq!(goto("50%", 11), GotoOutcome::ScrollTo(5));
    assert_eq!(goto("-25%", 101), GotoOutcome::ScrollTo(75));
    assert_eq!(goto("200%", 11), GotoOutcome::ScrollTo(10));
    assert_eq!(goto("x", 10), GotoOutcome::Invalid(IntErrorKind::InvalidDigit));
    assert_eq!(goto("%", 10), GotoOutcome::Invalid(IntErrorKind::Empty));
}

#[test]
fn signed_numbers() {
    assert_eq!(parse_isize("-12"), Ok(-12));
    assert_eq!(parse_isize("+7"), Ok(7));
    assert_eq!(parse_isize("-"), Err(IntErrorKind::InvalidDigit));
    assert_eq!(parse_isize(""), Err(IntErrorKind::Empty));
    assert_eq!(parse_isize("99999999999999999999"), Err(IntErrorKind::PosOverflow));
    assert_eq!(parse_isize("-99999999999999999999"), Err(IntErrorKind::NegOverflow));
    assert_eq!(parse_isize(&isize::MIN.to_string()), Ok(isize::MIN));
    assert_eq!(IntErrorKind::InvalidDigit.message(), "invalid digit found in string");
}

#[test]
fn unique_event_is_queued_once() {
    let flag = streampager::event::UniqueInstance::new();
    let mut queued = 0;
    for _ in 0..1000 {
        if flag.claim() {
            queued += 1;
        }
    }
    assert_eq!(queued, 1);
    flag.release();
    assert!(flag.clone().claim());
    assert!(!flag.claim());
}

#[test]
fn history_edits_the_shown_entry() {
    let mut h = PromptHistory::new("goto".to_string(), vec!["12".to_string()]);
    h.state_mut().insert_str("40");
    assert_eq!(h.save_data(), Some("40".to_string()));
    h.previous();
    h.state_mut().insert_char('3', 80);
    assert_eq!(h.state().save(), "123");
    h.next();
    assert_eq!(h.state().save(), "40");
}

#[test]
fn screens_switch_and_overlay() {
    let mut s = Screens::new(vec!["a", "b"]);
    assert_eq!(*s.current(), "a");
    assert!(s.is_current_index(0));
    assert!(!s.previous_file());
    assert!(s.next_file());
    assert_eq!(*s.current(), "b");
    assert!(!s.next_file());
    let help = s.next_overlay_index().unwrap();
    assert_eq!(help, 3);
    s.show_overlay("help", help);
    assert_eq!(*s.current(), "help");
    assert!(s.is_current_index(3));
    assert!(s.get(3).is_some());
    assert!(s.get(2).is_none());
    s.clear_overlay();
    assert_eq!(*s.current(), "b");
    assert!(s.previous_file());
    assert_eq!(s.current_index(), 0);
}
