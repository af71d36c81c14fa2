use wilson::engine::story::DayNight;
use wilson::host::config::{
    Config, Transition, DEFAULT_STORY_DAY_SECS, MAX_STORY_DAY, SPEED_MAX, SPEED_MIN, STORY_SECS_MAX,
    STORY_SECS_MIN,
};
use wilson::host::scale::{Filter, ScaleMode};
use wilson::host::state::DayState;
use wilson::host::stats::{format_duration, Stats};

#[test]
fn defaults_are_screensaver_friendly() {
    let c = Config::default();
    assert!(!c.windowed);
    assert!(!c.mute);
    assert_eq!(c.speed, 100);
    assert_eq!(c.scale, ScaleMode::Fit);
    assert_eq!(c.filter, Filter::Linear);
    assert!(!c.dedither);
    assert!(!c.debug);
    assert!(c.intro);
    assert_eq!(c.day, 0);
    assert!(!c.story);
    assert_eq!(c.story_secs, DEFAULT_STORY_DAY_SECS);
    assert_eq!(c.transition, Transition::HardCut);
}

#[test]
fn config_parse_round_trips() {
    let c = Config {
        windowed: true,
        mute: true,
        speed: 250,
        scale: ScaleMode::Integer,
        filter: Filter::Nearest,
        dedither: true,
        daynight: DayNight::Real24h,
        debug: true,
        intro: false,
        day: 7,
        story: true,
        story_secs: 120,
        transition: Transition::Dissolve,
    };
    assert_eq!(Config::parse(&c.serialize()), c);
}

#[test]
fn parse_is_lenient() {
    let c = Config::parse(
        "# comment\n\nwindowed=yes\nmute=off\nbogus=1\nscale=stretch\nfilter=crisp\ndaynight=24h\n",
    );
    assert!(c.windowed);
    assert!(!c.mute);
    assert_eq!(c.scale, ScaleMode::Stretch);
    assert_eq!(c.filter, Filter::Nearest);
    assert_eq!(c.daynight, DayNight::Real24h);
    assert_eq!(c.speed, 100);
}

#[test]
fn speed_is_clamped() {
    assert_eq!(Config::parse("speed=5\n").speed, SPEED_MIN);
    assert_eq!(Config::parse("speed=9999\n").speed, SPEED_MAX);
}

#[test]
fn story_options_are_clamped() {
    assert_eq!(Config::parse("day=99\n").day, MAX_STORY_DAY);
    assert_eq!(Config::parse("story_secs=1\n").story_secs, STORY_SECS_MIN);
    assert_eq!(Config::parse("story_secs=999999\n").story_secs, STORY_SECS_MAX);
}

#[test]
fn cli_overrides_win() {
    let mut c = Config::default();
    let args: Vec<String> = [
        "x",
        "--windowed",
        "--mute",
        "--speed",
        "200",
        "--scale",
        "integer",
        "--filter",
        "nearest",
        "--dedither",
        "--debug",
        "--daynight",
        "real24h",
        "--no-intro",
        "--story",
        "--day",
        "5",
        "--story-secs",
        "120",
        "--transition",
        "dissolve",
    ]
    .iter()
    .map(|s| s.to_string())
    .collect();
    c.apply_args(&args);
    assert!(c.windowed);
    assert!(c.mute);
    assert_eq!(c.speed, 200);
    assert_eq!(c.scale, ScaleMode::Integer);
    assert_eq!(c.filter, Filter::Nearest);
    assert!(c.dedither);
    assert!(c.debug);
    assert_eq!(c.daynight, DayNight::Real24h);
    assert!(!c.intro);
    assert!(c.story);
    assert_eq!(c.day, 5);
    assert_eq!(c.story_secs, 120);
    assert_eq!(c.transition, Transition::Dissolve);
}

#[test]
fn cli_speed_is_clamped_and_bad_values_ignored() {
    let mut c = Config::default();
    c.apply_args(&["x".into(), "--speed".into(), "1000".into()]);
    assert_eq!(c.speed, SPEED_MAX);
    let mut c2 = Config::default();
    c2.apply_args(&["x".into(), "--speed".into(), "abc".into()]);
    assert_eq!(c2.speed, 100);
}

#[test]
fn frame_delay_scales_with_speed() {
    let mut c = Config::default();
    assert_eq!(c.frame_delay_ms(6), 96);
    c.speed = 200;
    assert_eq!(c.frame_delay_ms(6), 48);
    c.speed = 50;
    assert_eq!(c.frame_delay_ms(6), 192);
}

#[test]
fn config_serialize_then_parse_keeps_every_option() {
    let c = Config {
        windowed: false,
        mute: true,
        speed: 25,
        scale: ScaleMode::Extend,
        filter: Filter::Xbr,
        dedither: false,
        daynight: DayNight::Original,
        debug: false,
        intro: true,
        day: 11,
        story: false,
        story_secs: 86_400,
        transition: Transition::HardCut,
    };
    assert_eq!(Config::parse(&c.serialize()), c);
}

#[test]
fn config_unknown_flags_and_missing_values_are_ignored() {
    let mut c = Config::default();
    c.apply_args(&["x".into(), "--bogus".into(), "--scale".into()]);
    assert_eq!(c, Config::default());
    let mut c2 = Config::default();
    c2.apply_args(&["x".into(), "--day".into(), "0".into()]);
    assert_eq!(c2.day, 0);
}

#[test]
fn parse_serialize_round_trip() {
    let s = DayState {
        current_day: 7,
        stored_yday: 165,
    };
    let parsed = DayState::parse(&s.serialize()).expect("round-trips");
    assert_eq!(parsed, s);
}

#[test]
fn parse_ignores_comments_and_blanks_and_unknown_keys() {
    let text = "# a comment\n\n  current_day = 3 \nfoo=bar\nstored_yday=10\n";
    assert_eq!(
        DayState::parse(text),
        Some(DayState {
            current_day: 3,
            stored_yday: 10,
        })
    );
}

#[test]
fn parse_rejects_missing_or_bad_fields() {
    assert_eq!(DayState::parse("current_day=3\n"), None);
    assert_eq!(DayState::parse("current_day=x\nstored_yday=1\n"), None);
    assert_eq!(DayState::parse(""), None);
}

#[test]
fn day_state_keeps_a_negative_yday() {
    let s = DayState {
        current_day: 1,
        stored_yday: -4,
    };
    assert_eq!(DayState::parse(&s.serialize()), Some(s));
}

#[test]
fn stats_parse_round_trips() {
    let s = Stats {
        sessions: 12,
        total_secs: 4000,
        max_day: 9,
    };
    assert_eq!(Stats::parse(&s.serialize()), s);
}

#[test]
fn parse_is_lenient_and_clamps() {
    let s = Stats::parse("# c\n\nsessions=3\nbogus=x\nmax_day=99\n");
    assert_eq!(s.sessions, 3);
    assert_eq!(s.total_secs, 0);
    assert_eq!(s.max_day, 11);
}

#[test]
fn note_day_keeps_the_maximum() {
    let mut s = Stats::default();
    s.note_day(5);
    s.note_day(3);
    s.note_day(8);
    s.note_day(0);
    s.note_day(12);
    assert_eq!(s.max_day, 8);
}

#[test]
fn duration_formats() {
    assert_eq!(format_duration(45), "45s");
    assert_eq!(format_duration(125), "2m 5s");
    assert_eq!(format_duration(3700), "1h 1m");
}

#[test]
fn duration_of_zero_and_whole_hours() {
    assert_eq!(format_duration(0), "0s");
    assert_eq!(format_duration(7200), "2h 0m");
}

#[test]
fn summary_mentions_the_counters() {
    let s = Stats {
        sessions: 2,
        total_secs: 3900,
        max_day: 7,
    };
    assert_eq!(s.summary(), "2 session(s), 1h 5m total, reached day 7/11");
}
