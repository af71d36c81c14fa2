//! Optional time controls: story mode plays the whole story arc in order on a fixed
//! cadence, without waiting real days. This synthesizes the [`Clock`] the engine
//! consumes, so the engine is always just told "what time is it".
use vstd::prelude::*;
use crate::engine::clock::Clock;
use crate::engine::story::Director;
use crate::host::config::Config;
use crate::host::state::DayState;

verus! {

/// The story-mode clock: each story day lasts `day_secs` real seconds (at least one), so
/// the day index steps once per `day_secs`; within a day the hour sweeps `0..=23` in
/// proportion; the real month and day are kept, so holidays still fire on the real date.
pub open spec fn story_clock_at(wall: Clock, elapsed_secs: u64, day_secs: u32) -> Clock {
    let d: int = if day_secs >= 1 { day_secs as int } else { 1 };
    Clock {
        yday: ((elapsed_secs as int) / d) as i32,
        hour: (((elapsed_secs as int) % d) * 24 / d) as u8,
        month: wall.month,
        day: wall.day,
    }
}

/// Synthesize the engine clock for story mode from the elapsed runtime (see
/// [`story_clock_at`]). At `elapsed_secs == 0` this is day-index 0, hour 0.
pub fn story_clock(wall: Clock, elapsed_secs: u64, day_secs: u32) -> (c: Clock)
    ensures
        c == story_clock_at(wall, elapsed_secs, day_secs),
        c.hour <= 23,
{
    let d: u64 = if day_secs >= 1 { day_secs as u64 } else { 1 };
    let day_index = #[verifier::truncate] ((elapsed_secs / d) as i32);
    let within = elapsed_secs % d;
    proof {
        assert(within * 24 / (d as int) < 24) by (nonlinear_arith)
            requires
                within < d,
                d >= 1,
        ;
        assert(within * 24 <= 24 * 0xffff_ffff) by (nonlinear_arith)
            requires
                within < d,
                d <= 0xffff_ffff,
        ;
    }
    let hour = (within * 24 / d) as u8;
    Clock { yday: day_index, hour, month: wall.month, day: wall.day }
}

/// Whether a session saves its story day: only when it follows the calendar from the
/// saved progress (neither story mode nor a fixed starting day).
pub open spec fn keeps_day(cfg: Config) -> bool {
    !cfg.story && cfg.day == 0
}

/// The director and the clock a session starts with, and whether it saves its story
/// day: story mode starts the arc at day 1 on the story clock; a fixed starting day
/// starts there today; otherwise the saved progress is resumed (day 1 today when there
/// is none), on the wall clock.
pub fn start_session(cfg: &Config, saved: Option<DayState>, wall: Clock) -> (r: (Director, Clock, bool))
    ensures
        r.2 == keeps_day(*cfg),
        cfg.story ==> r.0.current_day == 1 && r.0.stored_yday == 0 && r.1 == story_clock_at(
            wall,
            0,
            cfg.story_secs,
        ),
        !cfg.story && cfg.day != 0 ==> r.0.current_day == cfg.day && r.0.stored_yday == wall.yday
            && r.1 == wall,
        keeps_day(*cfg) ==> r.1 == wall && match saved {
            Some(s) => r.0.current_day == s.current_day && r.0.stored_yday == s.stored_yday,
            None => r.0.current_day == 1 && r.0.stored_yday == wall.yday,
        },
{
    let keep = !cfg.story && cfg.day == 0;
    if cfg.story {
        (Director::new(1, 0), story_clock(wall, 0, cfg.story_secs), keep)
    } else if cfg.day != 0 {
        (Director::new(cfg.day, wall.yday), wall, keep)
    } else {
        let d = match saved {
            Some(s) => Director::new(s.current_day, s.stored_yday),
            None => Director::new(1, wall.yday),
        };
        (d, wall, keep)
    }
}

/// Whether the story day must be saved now: the session saves its day, and the day
/// state differs from the one saved last.
pub fn day_save_due(keep: bool, last_saved: Option<(u8, i32)>, now: (u8, i32)) -> (b: bool)
    ensures
        b == (keep && last_saved != Some(now)),
{
    if !keep {
        return false;
    }
    match last_saved {
        Some(l) => l.0 != now.0 || l.1 != now.1,
        None => true,
    }
}

} // verus!
