use wilson::host::verbs::{
    audio_muted, key_dismisses, parse_hwnd, screensaver_action, wants_help, Action, Key, NamedKey,
};

fn args(list: &[&str]) -> Vec<String> {
    std::iter::once("wilson")
        .chain(list.iter().copied())
        .map(String::from)
        .collect()
}

#[test]
fn modifier_and_synthetic_keys_do_not_dismiss() {
    for m in [
        NamedKey::AltGraph,
        NamedKey::Alt,
        NamedKey::Control,
        NamedKey::Shift,
        NamedKey::Super,
        NamedKey::CapsLock,
        NamedKey::NumLock,
    ] {
        assert!(!key_dismisses(Key::Named(m), true, false), "modifier {m:?} must not dismiss");
    }
    assert!(!key_dismisses(Key::Named(NamedKey::Escape), true, true));
    assert!(!key_dismisses(Key::Named(NamedKey::Space), false, false));
}

#[test]
fn real_key_presses_dismiss() {
    for k in [NamedKey::Escape, NamedKey::Space, NamedKey::Enter, NamedKey::ArrowLeft] {
        assert!(key_dismisses(Key::Named(k), true, false), "real key {k:?} should dismiss");
    }
    assert!(key_dismisses(Key::Character, true, false));
}

#[test]
fn actions_are_detected() {
    assert_eq!(screensaver_action(&args(&["/c"])), Action::Configure);
    assert_eq!(screensaver_action(&args(&["-s"])), Action::Show);
    assert_eq!(screensaver_action(&args(&["/S:0"])), Action::Show);
    assert_eq!(screensaver_action(&args(&[])), Action::Show);
}

#[test]
fn help_is_detected_per_platform() {
    for f in ["-h", "--help", "-help", "help", "/?", "/h", "/help", "--HELP", "/Help"] {
        assert!(wants_help(&args(&[f])), "should detect help flag {f:?}");
    }
    assert!(!wants_help(&args(&[])));
    assert!(!wants_help(&args(&["--windowed", "--filter", "xbr"])));
    assert!(!wants_help(&args(&["/c"])));
    assert!(!wants_help(&args(&["--data", "/some/dir"])));
}

#[test]
fn preview_action_captures_hwnd() {
    assert_eq!(screensaver_action(&args(&["/p", "1234"])), Action::Preview(1234));
    assert_eq!(screensaver_action(&args(&["/P:5678"])), Action::Preview(5678));
    assert_eq!(screensaver_action(&args(&["-p"])), Action::Preview(0));
}

#[test]
fn preview_pane_is_always_silent() {
    assert!(audio_muted(false, true), "preview must be silent even when not muted");
    assert!(audio_muted(true, true), "preview stays silent when muted too");
    assert!(audio_muted(true, false), "config mute still mutes a normal run");
    assert!(!audio_muted(false, false), "a normal run plays sound");
}

#[test]
fn non_verbs_are_ignored() {
    assert_eq!(screensaver_action(&args(&["--data", "/some/dir"])), Action::Show);
    assert_eq!(screensaver_action(&args(&["--windowed", "--scale", "fit"])), Action::Show);
}

#[test]
fn parse_hwnd_decimal_and_hex() {
    assert_eq!(parse_hwnd("1234"), Some(1234));
    assert_eq!(parse_hwnd("0x10"), Some(16));
    assert_eq!(parse_hwnd(" 42 "), Some(42));
    assert_eq!(parse_hwnd("nope"), None);
}

#[test]
fn parse_hwnd_signs_limits_and_unicode_space() {
    assert_eq!(parse_hwnd("-7"), Some(-7));
    assert_eq!(parse_hwnd("+7"), Some(7));
    assert_eq!(parse_hwnd("0XfF"), Some(255));
    assert_eq!(parse_hwnd("0x"), None);
    assert_eq!(parse_hwnd("-"), None);
    assert_eq!(parse_hwnd(""), None);
    assert_eq!(parse_hwnd("\u{a0}9\u{3000}"), Some(9));
    assert_eq!(parse_hwnd(&isize::MAX.to_string()), Some(isize::MAX));
    assert_eq!(parse_hwnd(&isize::MIN.to_string()), Some(isize::MIN));
    assert_eq!(parse_hwnd("99999999999999999999999"), None);
}

#[test]
fn preview_handle_after_colon_wins_and_bad_handles_fall_back() {
    assert_eq!(screensaver_action(&args(&["/p:0x20", "7"])), Action::Preview(32));
    assert_eq!(screensaver_action(&args(&["/p:zz", "7"])), Action::Preview(7));
    assert_eq!(screensaver_action(&args(&["/p", "zz"])), Action::Preview(0));
    // The first recognised verb wins; words that merely start with a verb letter do not count.
    assert_eq!(screensaver_action(&args(&["/show", "/c"])), Action::Configure);
    assert_eq!(screensaver_action(&args(&["/C", "/p", "5"])), Action::Configure);
}
