use streampager::bindings::{Binding, BindingConfig, BindingError, Category};
use streampager::config::{parse_bool, Config, Delay, InterfaceMode, UNBOUNDED_DELAY_SECS};
use streampager::index::DEFAULT_NEEDED_LINES;
use streampager::text::{parse_u64, parse_usize};

#[test]
fn interface_modes_by_name() {
    assert!(InterfaceMode::from("full") == InterfaceMode::FullScreen);
    assert!(InterfaceMode::from("FullScreen") == InterfaceMode::FullScreen);
    assert!(InterfaceMode::from("") == InterfaceMode::FullScreen);
    assert!(InterfaceMode::from("direct") == InterfaceMode::Direct);
    assert!(InterfaceMode::from("cat") == InterfaceMode::Direct);
    assert!(InterfaceMode::from("CAT") == InterfaceMode::Direct);
    assert!(InterfaceMode::from("Hybrid") == InterfaceMode::Hybrid);
    assert!(InterfaceMode::from("other") == InterfaceMode::FullScreen);
}

#[test]
fn delayed_mode_durations() {
    assert!(InterfaceMode::from("delayed:100ms") == InterfaceMode::Delayed(Delay { secs: 0, millis: 100 }));
    assert!(InterfaceMode::from("delayed:2500ms") == InterfaceMode::Delayed(Delay { secs: 2, millis: 500 }));
    assert!(InterfaceMode::from("delayed:3s") == InterfaceMode::Delayed(Delay { secs: 3, millis: 0 }));
    assert!(InterfaceMode::from("delayed:3") == InterfaceMode::Delayed(Delay { secs: 3, millis: 0 }));
    assert!(InterfaceMode::from("delayed") == InterfaceMode::Delayed(Delay { secs: UNBOUNDED_DELAY_SECS, millis: 0 }));
    assert!(InterfaceMode::from("delayed:xms") == InterfaceMode::Delayed(Delay { secs: 0, millis: 0 }));
}

#[test]
fn booleans_by_name() {
    for t in ["1", "yes", "TRUE", "On", "always"] {
        assert_eq!(parse_bool(t), Some(true));
    }
    for f in ["0", "no", "False", "OFF", "never"] {
        assert_eq!(parse_bool(f), Some(false));
    }
    assert_eq!(parse_bool("maybe"), None);
}

#[test]
fn config_from_values_defaults() {
    let c = Config::from_values(None, None, None);
    assert!(c.interface_mode == InterfaceMode::FullScreen);
    assert!(c.scroll_past_eof);
    assert_eq!(c.read_ahead_lines, DEFAULT_NEEDED_LINES);
    let c = Config::from_values(Some("hybrid"), Some("no"), Some("42"));
    assert!(c.interface_mode == InterfaceMode::Hybrid);
    assert!(!c.scroll_past_eof);
    assert_eq!(c.read_ahead_lines, 42);
    let c = Config::from_values(Some("direct"), Some("perhaps"), Some("-1"));
    assert!(c.scroll_past_eof);
    assert_eq!(c.read_ahead_lines, DEFAULT_NEEDED_LINES);
    let d = Config::default();
    assert!(!d.scroll_past_eof);
    assert_eq!(d.read_ahead_lines, 0);
}

#[test]
fn decimal_numbers() {
    assert_eq!(parse_u64("0"), Some(0));
    assert_eq!(parse_u64("+17"), Some(17));
    assert_eq!(parse_u64("18446744073709551615"), Some(u64::MAX));
    assert_eq!(parse_u64("18446744073709551616"), None);
    assert_eq!(parse_u64(""), None);
    assert_eq!(parse_u64("+"), None);
    assert_eq!(parse_u64("1x"), None);
    assert_eq!(parse_usize("123"), Some(123));
}

#[test]
fn bindings_parse() {
    assert_eq!(Binding::parse("Quit".to_string(), vec![]).unwrap(), Binding::Quit);
    assert_eq!(
        Binding::parse("ScrollUpLines".to_string(), vec!["5".to_string()]).unwrap(),
        Binding::ScrollUpLines(5)
    );
    assert_eq!(
        Binding::parse("Frobnicate".to_string(), vec![]).unwrap(),
        Binding::Unrecognized("Frobnicate".to_string())
    );
    assert_eq!(
        Binding::parse("ScrollDownLines".to_string(), vec![]).unwrap_err(),
        BindingError::MissingParameter { ident: "ScrollDownLines".to_string(), index: 0 }
    );
    assert_eq!(
        Binding::parse("ScrollLeftColumns".to_string(), vec!["x".to_string()]).unwrap_err(),
        BindingError::InvalidParameter { ident: "ScrollLeftColumns".to_string(), index: 0 }
    );
}

#[test]
fn binding_categories() {
    assert_eq!(Binding::Quit.category(), Category::General);
    assert_eq!(Binding::ScrollToBottom.category(), Category::Navigation);
    assert_eq!(Binding::ToggleLineWrapping.category(), Category::Presentation);
    assert_eq!(Binding::NextMatch.category(), Category::Searching);
    assert_eq!(Binding::Unrecognized("x".to_string()).category(), Category::Other);
    assert_eq!(
        Category::categories(),
        vec![Category::General, Category::Navigation, Category::Presentation, Category::Searching, Category::Other]
    );
    assert_eq!(Category::Other.name(), "Other");
    let c = BindingConfig::new(Binding::Help, false);
    assert_eq!(c.binding, Binding::Help);
    assert!(!c.visible);
}
