use wilson::engine::clock::Clock;
use wilson::host::clock::from_unix;
use wilson::host::pace::FramePacer;
use wilson::host::config::Config;
use wilson::host::state::DayState;
use wilson::host::timectl::{day_save_due, start_session, story_clock};

#[test]
fn epoch() {
    let c = from_unix(0);
    assert_eq!((c.month, c.day, c.hour, c.yday), (1, 1, 0, 0));
}

#[test]
fn day_two_and_hour() {
    let c = from_unix(86_400 + 3 * 3_600);
    assert_eq!((c.month, c.day, c.hour, c.yday), (1, 2, 3, 1));
}

#[test]
fn next_year_resets_yday() {
    let c = from_unix(365 * 86_400);
    assert_eq!((c.month, c.day, c.yday), (1, 1, 0));
}

#[test]
fn a_known_date() {
    let c = from_unix(951_868_800);
    assert_eq!((c.month, c.day), (3, 1));
}

#[test]
fn leap_day_and_year_end() {
    // 2000-02-29 12:00 UTC and 2000-12-31 (day 365 of a leap year).
    let c = from_unix(951_825_600);
    assert_eq!((c.month, c.day, c.hour, c.yday), (2, 29, 12, 59));
    let e = from_unix(978_220_800);
    assert_eq!((e.month, e.day, e.yday), (12, 31, 365));
}

#[test]
fn holds_a_frame_for_its_full_delay_despite_extra_redraws() {
    let mut p = FramePacer::new();
    let t0: u64 = 1_000;
    assert!(p.due(t0), "the very first frame always advances");
    p.schedule(t0, 4000);
    assert!(!p.due(t0 + 50), "a redraw 50 ms into the hold must NOT advance the engine");
    assert!(!p.due(t0 + 3_999), "still holding at 3.999 s");
    assert!(p.due(t0 + 4_000), "the next frame advances once the hold elapses");
    assert!(p.due(t0 + 10_000), "and stays due after the deadline");
}

#[test]
fn deadline_tracks_the_last_schedule() {
    let mut p = FramePacer::new();
    assert_eq!(p.deadline(), None, "no deadline before the first frame");
    let t0: u64 = 5_000;
    let due = p.schedule(t0, 16);
    assert_eq!(due, t0 + 16);
    assert_eq!(p.deadline(), Some(due));
}

#[test]
fn a_later_schedule_replaces_the_deadline() {
    let mut p = FramePacer::new();
    p.schedule(0, 100);
    let due = p.schedule(100, 40);
    assert_eq!(due, 140);
    assert_eq!(p.deadline(), Some(140));
    assert!(!p.due(139));
    assert!(p.due(140));
}

fn base() -> Clock {
    Clock {
        yday: 200,
        hour: 9,
        month: 6,
        day: 14,
    }
}

#[test]
fn story_starts_at_day_index_zero_hour_zero() {
    let c = story_clock(base(), 0, 90);
    assert_eq!(c.yday, 0);
    assert_eq!(c.hour, 0);
}

#[test]
fn story_advances_one_day_index_per_day_secs() {
    assert_eq!(story_clock(base(), 89, 90).yday, 0);
    assert_eq!(story_clock(base(), 90, 90).yday, 1);
    assert_eq!(story_clock(base(), 180, 90).yday, 2);
    assert_eq!(story_clock(base(), 90 * 11, 90).yday, 11);
}

#[test]
fn story_hour_sweeps_the_day_for_daynight() {
    assert_eq!(story_clock(base(), 0, 100).hour, 0);
    assert_eq!(story_clock(base(), 25, 100).hour, 6);
    assert_eq!(story_clock(base(), 50, 100).hour, 12);
    assert_eq!(story_clock(base(), 99, 100).hour, 23);
    assert!(story_clock(base(), 1_000_000, 100).hour <= 23);
}

#[test]
fn story_keeps_the_real_calendar_date_for_holidays() {
    let c = story_clock(base(), 12_345, 90);
    assert_eq!((c.month, c.day), (6, 14));
}

#[test]
fn story_day_secs_zero_does_not_divide_by_zero() {
    let c = story_clock(base(), 5, 0);
    assert_eq!(c.yday, 5);
}

#[test]
fn session_start_picks_the_director_and_clock() {
    let wall = Clock {
        yday: 123,
        hour: 15,
        month: 5,
        day: 3,
    };
    let saved = Some(DayState {
        current_day: 4,
        stored_yday: 120,
    });

    let cfg = Config::default();
    let (d, c, keep) = start_session(&cfg, saved, wall);
    assert_eq!((d.current_day, d.stored_yday), (4, 120));
    assert_eq!(c, wall);
    assert!(keep);
    let (d, _, _) = start_session(&cfg, None, wall);
    assert_eq!((d.current_day, d.stored_yday), (1, 123));

    let mut fixed = Config::default();
    fixed.day = 7;
    let (d, c, keep) = start_session(&fixed, saved, wall);
    assert_eq!((d.current_day, d.stored_yday), (7, 123));
    assert_eq!(c, wall);
    assert!(!keep);

    let mut story = Config::default();
    story.story = true;
    let (d, c, keep) = start_session(&story, saved, wall);
    assert_eq!((d.current_day, d.stored_yday), (1, 0));
    assert_eq!(c, story_clock(wall, 0, story.story_secs));
    assert!(!keep);
}

#[test]
fn day_is_saved_only_when_it_changed() {
    assert!(day_save_due(true, None, (3, 10)));
    assert!(!day_save_due(true, Some((3, 10)), (3, 10)));
    assert!(day_save_due(true, Some((3, 10)), (4, 11)));
    assert!(!day_save_due(false, None, (3, 10)));
}
