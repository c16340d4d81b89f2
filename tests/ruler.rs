use streampager::bindings::Binding;
use streampager::ruler::{decimal_string, loading_indicator, number_width, position};

#[test]
fn ruler_positions() {
    assert_eq!(position(0, 0, 5, 5), "lines 1-5/5");
    assert_eq!(position(0, 0, 0, 5), "lines 1-END/5");
    assert_eq!(position(9, 0, 0, 3), "line 10/3");
    assert_eq!(position(0, 4, 30, 1234), "+5  lines 1-30/1234");
    assert_eq!(position(2, 0, 9, 7), "lines 3-7/7");
}

#[test]
fn decimal_numbers_are_written() {
    assert_eq!(decimal_string(0), "0");
    assert_eq!(decimal_string(907), "907");
    assert_eq!(decimal_string(usize::MAX), usize::MAX.to_string());
    assert_eq!(number_width(0), 1);
    assert_eq!(number_width(1000), 4);
}

#[test]
fn loading_indicator_frames() {
    assert_eq!(loading_indicator(true, false, false, 0), None);
    assert_eq!(loading_indicator(false, true, false, 0), Some("[loading paused]"));
    assert_eq!(loading_indicator(false, true, true, 450), Some("[loading   •   ]"));
    assert_eq!(loading_indicator(false, false, false, 999), Some("[loading     • ]"));
}

#[test]
fn binding_descriptions() {
    assert_eq!(Binding::Quit.description(), "Quit");
    assert_eq!(Binding::ScrollUpLines(1).description(), "Scroll up");
    assert_eq!(Binding::ScrollUpLines(5).description(), "Scroll up 5 lines");
    assert_eq!(Binding::ScrollDownScreenFraction(2).description(), "Scroll down 1/2 screen");
    assert_eq!(Binding::ScrollRightScreenFraction(1).description(), "Scroll right one screen");
    assert_eq!(Binding::Unrecognized("Frob".to_string()).description(), "Unrecognized binding (Frob)");
}
