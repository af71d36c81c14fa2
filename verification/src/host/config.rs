//! User configuration: runtime options read from a small `key=value` text file and
//! overridable by command-line flags (which win over the file but are not persisted).
//! All options have defaults, so a missing or partial file is fine.
use vstd::prelude::*;
use vstd::string::StringExecFns;
use vstd::string::StringSliceAdditionalSpecFns;
use vstd::utf8::encode_utf8;
use crate::dgds::archive::str_eq;
use crate::engine::story::{DayNight, day_night_word};
use crate::host::scale::{ScaleMode, Filter, scale_word, filter_word};
use crate::host::text::{
    split_lines, parse_line, eq_bytes, eq_lower, parse_u64, parse_bool, push_decimal, lines_of,
    line_entry, parse_uint, bool_word, lower_seq, decimal, views,
};
use crate::host::line_format::{
    lines_text, kv_line, one_line, value_char, all_value_chars, lemma_lines_text,
    lemma_lines_text_push, lemma_comment_entry, lemma_kv_entry, lemma_parse_decimal,
    lemma_decimal_digits, lemma_encode_injective, lemma_lower_word, lemma_lines_text_empty,
    lemma_kv_one_line,
};

verus! {

/// Slowest playback speed, percent of the original timing.
pub const SPEED_MIN: u32 = 25;
/// Fastest playback speed, percent of the original timing.
pub const SPEED_MAX: u32 = 400;
/// The story arc's last day (`0` means "auto").
pub const MAX_STORY_DAY: u8 = 11;
/// Shortest story-mode day, in real seconds.
pub const STORY_SECS_MIN: u32 = 5;
/// Longest story-mode day, in real seconds.
pub const STORY_SECS_MAX: u32 = 86_400;
/// Default real seconds each story day is shown in story mode.
pub const DEFAULT_STORY_DAY_SECS: u32 = 90;

/// Scene-transition style between story runs.
#[derive(Clone, Copy, Debug, PartialEq, Eq, Structural)]
pub enum Transition {
    /// Hard cut, as the original plays (its dissolve ships disabled).
    HardCut,
    /// The original's dormant tiled LFSR dissolve, switched on.
    Dissolve,
}

impl Default for Transition {
    fn default() -> (t: Self)
        ensures
            t == Transition::HardCut,
    {
        Transition::HardCut
    }
}

/// The transition a word names (any ASCII case): `none`, `cut`, `hard` or `off`, and
/// `dissolve`, `lfsr` or `tiled`.
pub open spec fn transition_word(s: Seq<u8>) -> Option<Transition> {
    let l = lower_seq(s);
    if l == "none".spec_bytes() || l == "cut".spec_bytes() || l == "hard".spec_bytes() || l
        == "off".spec_bytes() {
        Some(Transition::HardCut)
    } else if l == "dissolve".spec_bytes() || l == "lfsr".spec_bytes() || l == "tiled".spec_bytes() {
        Some(Transition::Dissolve)
    } else {
        None
    }
}

impl Transition {
    /// Read a transition name given as bytes.
    pub fn from_bytes(b: &[u8]) -> (r: Option<Transition>)
        ensures
            r == transition_word(b@),
    {
        if eq_lower(b, "none".as_bytes()) || eq_lower(b, "cut".as_bytes()) || eq_lower(b, "hard".as_bytes())
            || eq_lower(b, "off".as_bytes()) {
            Some(Transition::HardCut)
        } else if eq_lower(b, "dissolve".as_bytes()) || eq_lower(b, "lfsr".as_bytes()) || eq_lower(
            b,
            "tiled".as_bytes(),
        ) {
            Some(Transition::Dissolve)
        } else {
            None
        }
    }

    /// The canonical name (read back by [`Transition::from_bytes`]).
    pub fn as_str(self) -> (s: &'static str)
        ensures
            self is HardCut ==> s@ == "none"@,
            self is Dissolve ==> s@ == "dissolve"@,
    {
        match self {
            Transition::HardCut => "none",
            Transition::Dissolve => "dissolve",
        }
    }
}

/// The app's runtime options.
#[derive(Clone, Copy, Debug, PartialEq, Eq, Structural)]
pub struct Config {
    /// Run in a 640×480 window instead of fullscreen.
    pub windowed: bool,
    /// Disable sound effects.
    pub mute: bool,
    /// Playback speed, percent of the original timing (100 = original), clamped.
    pub speed: u32,
    /// How the frame is scaled into the window.
    pub scale: ScaleMode,
    /// How upscaled pixels are sampled.
    pub filter: Filter,
    /// Smooth the dithered backgrounds before scaling.
    pub dedither: bool,
    /// How the day/night cycle is driven.
    pub daynight: DayNight,
    /// Show diagnostics (status line and on-screen overlay).
    pub debug: bool,
    /// Show the intro screen once at startup.
    pub intro: bool,
    /// Start the story arc at this day (1–11); `0` = auto.
    pub day: u8,
    /// Story mode: play the whole arc in order on a fixed cadence.
    pub story: bool,
    /// In story mode, how many real seconds each story day is shown.
    pub story_secs: u32,
    /// Scene-transition style between story runs.
    pub transition: Transition,
}

/// The default options: fullscreen, sound on, original speed, fitted and linearly
/// filtered, the original day/night cycle, intro on, automatic day, hard cuts.
pub open spec fn default_config() -> Config {
    Config {
        windowed: false,
        mute: false,
        speed: 100,
        scale: ScaleMode::Fit,
        filter: Filter::Linear,
        dedither: false,
        daynight: DayNight::Original,
        debug: false,
        intro: true,
        day: 0,
        story: false,
        story_secs: DEFAULT_STORY_DAY_SECS,
        transition: Transition::HardCut,
    }
}

impl Default for Config {
    fn default() -> (c: Self)
        ensures
            c == default_config(),
    {
        Config {
            windowed: false,
            mute: false,
            speed: 100,
            scale: ScaleMode::Fit,
            filter: Filter::Linear,
            dedither: false,
            daynight: DayNight::Original,
            debug: false,
            intro: true,
            day: 0,
            story: false,
            story_secs: DEFAULT_STORY_DAY_SECS,
            transition: Transition::HardCut,
        }
    }
}

/// A `u32` read from decimal text, if it is one.
pub open spec fn u32_of(v: Seq<u8>) -> Option<u32> {
    match parse_uint(v) {
        Some(n) => if n <= u32::MAX { Some(n as u32) } else { None::<u32> },
        None => None::<u32>,
    }
}

/// `n` clamped to `lo..=hi`.
pub open spec fn clamp(n: u32, lo: u32, hi: u32) -> u32 {
    if n < lo { lo } else if n > hi { hi } else { n }
}

/// A playback speed, clamped.
pub open spec fn speed_of(n: u32) -> u32 {
    clamp(n, SPEED_MIN, SPEED_MAX)
}

/// A story-mode day length, clamped.
pub open spec fn story_secs_of(n: u32) -> u32 {
    clamp(n, STORY_SECS_MIN, STORY_SECS_MAX)
}

/// A story day, at most the arc's last.
pub open spec fn day_of(n: u8) -> u8 {
    if n < MAX_STORY_DAY { n } else { MAX_STORY_DAY }
}

/// The options after one `key=value` entry: a readable value replaces its option
/// (numbers clamped); anything else changes nothing.
#[verifier::opaque]
pub open spec fn config_entry(c: Config, k: Seq<u8>, v: Seq<u8>) -> Config {
    if k == "windowed".spec_bytes() {
        match bool_word(v) { Some(b) => Config { windowed: b, ..c }, None => c }
    } else if k == "mute".spec_bytes() {
        match bool_word(v) { Some(b) => Config { mute: b, ..c }, None => c }
    } else if k == "speed".spec_bytes() {
        match u32_of(v) { Some(n) => Config { speed: speed_of(n), ..c }, None => c }
    } else if k == "scale".spec_bytes() {
        match scale_word(v) { Some(m) => Config { scale: m, ..c }, None => c }
    } else if k == "filter".spec_bytes() {
        match filter_word(v) { Some(f) => Config { filter: f, ..c }, None => c }
    } else if k == "dedither".spec_bytes() {
        match bool_word(v) { Some(b) => Config { dedither: b, ..c }, None => c }
    } else if k == "debug".spec_bytes() {
        match bool_word(v) { Some(b) => Config { debug: b, ..c }, None => c }
    } else if k == "daynight".spec_bytes() {
        match day_night_word(v) { Some(m) => Config { daynight: m, ..c }, None => c }
    } else if k == "intro".spec_bytes() {
        match bool_word(v) { Some(b) => Config { intro: b, ..c }, None => c }
    } else if k == "day".spec_bytes() {
        match parse_uint(v) {
            Some(n) => if n <= 255 { Config { day: day_of(n as u8), ..c } } else { c },
            None => c,
        }
    } else if k == "story".spec_bytes() {
        match bool_word(v) { Some(b) => Config { story: b, ..c }, None => c }
    } else if k == "story_secs".spec_bytes() {
        match u32_of(v) { Some(n) => Config { story_secs: story_secs_of(n), ..c }, None => c }
    } else if k == "transition".spec_bytes() {
        match transition_word(v) { Some(t) => Config { transition: t, ..c }, None => c }
    } else {
        c
    }
}

/// The options read from the first lines of a configuration file, starting from the
/// defaults.
pub open spec fn config_of(lines: Seq<Seq<u8>>) -> Config
    decreases lines.len(),
{
    if lines.len() == 0 {
        default_config()
    } else {
        let c = config_of(lines.drop_last());
        match line_entry(lines.last()) {
            Some(Some((k, v))) => config_entry(c, k, v),
            _ => c,
        }
    }
}

/// A `u32` read from decimal text.
fn u32_from(v: &[u8]) -> (r: Option<u32>)
    ensures
        r == u32_of(v@),
{
    match parse_u64(v) {
        Some(n) => if n <= 0xffff_ffff { Some(n as u32) } else { None },
        None => None,
    }
}

fn clamp_u32(n: u32, lo: u32, hi: u32) -> (r: u32)
    ensures
        r == clamp(n, lo, hi),
{
    if n < lo { lo } else if n > hi { hi } else { n }
}

impl Config {
    /// Apply one `key=value` entry.
    #[verifier::spinoff_prover]
    #[verifier::rlimit(100)]
    fn apply_entry(&mut self, k: &[u8], v: &[u8])
        ensures
            *final(self) == config_entry(*old(self), k@, v@),
    {
        proof {
            reveal(config_entry);
        }
        if eq_bytes(k, "windowed".as_bytes()) {
            match parse_bool(v) { Some(b) => { self.windowed = b; }, None => {} }
        } else if eq_bytes(k, "mute".as_bytes()) {
            match parse_bool(v) { Some(b) => { self.mute = b; }, None => {} }
        } else if eq_bytes(k, "speed".as_bytes()) {
            match u32_from(v) { Some(n) => { self.speed = clamp_u32(n, SPEED_MIN, SPEED_MAX); }, None => {} }
        } else if eq_bytes(k, "scale".as_bytes()) {
            match ScaleMode::from_bytes(v) { Some(m) => { self.scale = m; }, None => {} }
        } else if eq_bytes(k, "filter".as_bytes()) {
            match Filter::from_bytes(v) { Some(f) => { self.filter = f; }, None => {} }
        } else if eq_bytes(k, "dedither".as_bytes()) {
            match parse_bool(v) { Some(b) => { self.dedither = b; }, None => {} }
        } else if eq_bytes(k, "debug".as_bytes()) {
            match parse_bool(v) { Some(b) => { self.debug = b; }, None => {} }
        } else if eq_bytes(k, "daynight".as_bytes()) {
            match DayNight::from_bytes(v) { Some(m) => { self.daynight = m; }, None => {} }
        } else if eq_bytes(k, "intro".as_bytes()) {
            match parse_bool(v) { Some(b) => { self.intro = b; }, None => {} }
        } else if eq_bytes(k, "day".as_bytes()) {
            match parse_u64(v) {
                Some(n) => {
                    if n <= 255 {
                        let d = n as u8;
                        self.day = if d < MAX_STORY_DAY { d } else { MAX_STORY_DAY };
                    }
                },
                None => {},
            }
        } else if eq_bytes(k, "story".as_bytes()) {
            match parse_bool(v) { Some(b) => { self.story = b; }, None => {} }
        } else if eq_bytes(k, "story_secs".as_bytes()) {
            match u32_from(v) {
                Some(n) => { self.story_secs = clamp_u32(n, STORY_SECS_MIN, STORY_SECS_MAX); },
                None => {},
            }
        } else if eq_bytes(k, "transition".as_bytes()) {
            match Transition::from_bytes(v) { Some(t) => { self.transition = t; }, None => {} }
        }
    }

    /// Parse a configuration file, starting from the defaults and overriding the
    /// recognised keys; blank lines, comments and unreadable lines are skipped.
    pub fn parse(text: &str) -> (c: Config)
        ensures
            c == config_of(lines_of(text.spec_bytes())),
    {
        let lines = split_lines(text.as_bytes());
        let ghost all = views(lines@);
        let mut c = Config::default();
        let mut i: usize = 0;
        while i < lines.len()
            invariant
                i <= lines@.len(),
                all == views(lines@),
                c == config_of(all.take(i as int)),
            decreases lines@.len() - i,
        {
            proof {
                assert(all.take(i + 1).drop_last() =~= all.take(i as int));
                assert(all.take(i + 1).last() == lines@[i as int]@);
            }
            match parse_line(lines[i]) {
                Some(Some((k, v))) => {
                    c.apply_entry(k, v);
                },
                _ => {},
            }
            i = i + 1;
        }
        proof {
            assert(all.take(lines@.len() as int) =~= all);
        }
        c
    }

    /// How long to show a frame of `ticks` engine ticks, in milliseconds, at the
    /// configured speed (16 ms per tick at 100%).
    pub fn frame_delay_ms(&self, ticks: u16) -> (ms: u64)
        requires
            self.speed > 0,
        ensures
            ms == (ticks as int) * 16 * 100 / (self.speed as int),
    {
        ticks as u64 * crate::MS_PER_TICK * 100 / self.speed as u64
    }
}

/// `true` or `false`.
pub open spec fn bool_text(b: bool) -> Seq<char> {
    if b { "true"@ } else { "false"@ }
}

fn bool_str(b: bool) -> (s: &'static str)
    ensures
        s@ == bool_text(b),
{
    if b { "true" } else { "false" }
}

/// The canonical name of a scale mode.
pub open spec fn name_text_scale(m: ScaleMode) -> Seq<char> {
    match m {
        ScaleMode::Fit => "fit"@,
        ScaleMode::Stretch => "stretch"@,
        ScaleMode::Integer => "integer"@,
        ScaleMode::Extend => "extend"@,
    }
}

/// The canonical name of a filter.
pub open spec fn name_text_filter(f: Filter) -> Seq<char> {
    match f {
        Filter::Nearest => "nearest"@,
        Filter::Linear => "linear"@,
        Filter::Xbr => "xbr"@,
        Filter::Xbrz => "xbrz"@,
    }
}

/// The canonical name of a day/night mode.
pub open spec fn name_text_daynight(d: DayNight) -> Seq<char> {
    match d {
        DayNight::Original => "original"@,
        DayNight::Real24h => "real24h"@,
    }
}

/// The canonical name of a transition.
pub open spec fn name_text_transition(t: Transition) -> Seq<char> {
    match t {
        Transition::HardCut => "none"@,
        Transition::Dissolve => "dissolve"@,
    }
}

/// The lines of a configuration file: every option, each under a comment that explains it.
pub open spec fn config_lines(c: Config) -> Seq<Seq<char>> {
    seq![
        "# Wilson Reborn — configuration."@,
        "# windowed: true runs in a window instead of fullscreen."@,
        kv_line("windowed"@, bool_text(c.windowed)),
        "# mute: true disables sound effects."@,
        kv_line("mute"@, bool_text(c.mute)),
        "# speed: playback speed percent (25–400; 100 = original)."@,
        kv_line("speed"@, decimal(c.speed as nat)),
        "# scale: window fit — fit | stretch | integer | extend (extend fills widescreen)."@,
        kv_line("scale"@, name_text_scale(c.scale)),
        "# filter: pixel sampling — nearest (crisp/retro) | linear (smooth) | xbr (HD,"@,
        "# dissolves dither) | xbrz (smooth edges, keeps dither)."@,
        kv_line("filter"@, name_text_filter(c.filter)),
        "# dedither: true smooths the dithered sea/sky (default false = authentic look)."@,
        kv_line("dedither"@, bool_text(c.dedither)),
        "# daynight: day/night cycle — original (8h, as in 1992) | real24h (wall clock)."@,
        kv_line("daynight"@, name_text_daynight(c.daynight)),
        "# debug: true shows diagnostics (stdout status line + on-screen HUD overlay)."@,
        kv_line("debug"@, bool_text(c.debug)),
        "# intro: true shows the original's intro screen (INTRO.SCR) once at startup."@,
        kv_line("intro"@, bool_text(c.intro)),
        "# day: start the 11-day arc at this day (1–11); 0 = auto (resume/today)."@,
        kv_line("day"@, decimal(c.day as nat)),
        "# story: true plays the whole arc in order (day 1→11→1…) on a fixed cadence."@,
        kv_line("story"@, bool_text(c.story)),
        "# story_secs: in story mode, real seconds per story day (5–86400)."@,
        kv_line("story_secs"@, decimal(c.story_secs as nat)),
        "# transition: scene transition — none (hard cut, faithful) | dissolve (the"@,
        "# original's dormant LFSR tiled dissolve, resurrected)."@,
        kv_line("transition"@, name_text_transition(c.transition)),
    ]
}

/// The text of a configuration file.
pub open spec fn config_text(c: Config) -> Seq<char> {
    lines_text(config_lines(c))
}

/// Append the line `line` to a text made of the lines `ls`.
fn push_line(t: &mut String, Ghost(ls): Ghost<Seq<Seq<char>>>, line: &str)
    requires
        old(t)@ == lines_text(ls),
    ensures
        final(t)@ == lines_text(ls.push(line@)),
{
    t.append(line);
    t.append("\n");
    proof {
        reveal_strlit("\n");
        lemma_lines_text_push(ls, line@);
    }
}

/// Append the line `key=value` to a text made of the lines `ls`.
fn push_kv(t: &mut String, Ghost(ls): Ghost<Seq<Seq<char>>>, key: &str, value: &str)
    requires
        old(t)@ == lines_text(ls),
    ensures
        final(t)@ == lines_text(ls.push(kv_line(key@, value@))),
{
    t.append(key);
    t.append("=");
    t.append(value);
    t.append("\n");
    proof {
        reveal_strlit("\n");
        reveal_strlit("=");
        lemma_lines_text_push(ls, kv_line(key@, value@));
        assert(t@ =~= lines_text(ls) + kv_line(key@, value@) + seq!['\n']);
    }
}

/// Append the line `key=<n>` to a text made of the lines `ls`.
fn push_kv_num(t: &mut String, Ghost(ls): Ghost<Seq<Seq<char>>>, key: &str, n: u64)
    requires
        old(t)@ == lines_text(ls),
    ensures
        final(t)@ == lines_text(ls.push(kv_line(key@, decimal(n as nat)))),
{
    t.append(key);
    t.append("=");
    push_decimal(t, n);
    t.append("\n");
    proof {
        reveal_strlit("\n");
        reveal_strlit("=");
        lemma_lines_text_push(ls, kv_line(key@, decimal(n as nat)));
        assert(t@ =~= lines_text(ls) + kv_line(key@, decimal(n as nat)) + seq!['\n']);
    }
}

fn scale_str(m: ScaleMode) -> (s: &'static str)
    ensures
        s@ == name_text_scale(m),
{
    m.as_str()
}

fn filter_str(f: Filter) -> (s: &'static str)
    ensures
        s@ == name_text_filter(f),
{
    f.as_str()
}

fn daynight_str(d: DayNight) -> (s: &'static str)
    ensures
        s@ == name_text_daynight(d),
{
    d.as_str()
}

fn transition_str(t: Transition) -> (s: &'static str)
    ensures
        s@ == name_text_transition(t),
{
    t.as_str()
}

impl Config {
    /// The text of the configuration file.
    pub fn serialize(&self) -> (t: String)
        ensures
            t@ == config_text(*self),
    {
        let mut t = String::new();
        let ghost l0: Seq<Seq<char>> = Seq::empty();
        proof {
            lemma_lines_text_empty();
            assert(t@ =~= lines_text(l0));
        }
        push_line(&mut t, Ghost(l0), "# Wilson Reborn — configuration.");
        let ghost l1 = l0.push("# Wilson Reborn — configuration."@);
        push_line(&mut t, Ghost(l1), "# windowed: true runs in a window instead of fullscreen.");
        let ghost l2 = l1.push("# windowed: true runs in a window instead of fullscreen."@);
        push_kv(&mut t, Ghost(l2), "windowed", bool_str(self.windowed));
        let ghost l3 = l2.push(kv_line("windowed"@, bool_text((*self).windowed)));
        push_line(&mut t, Ghost(l3), "# mute: true disables sound effects.");
        let ghost l4 = l3.push("# mute: true disables sound effects."@);
        push_kv(&mut t, Ghost(l4), "mute", bool_str(self.mute));
        let ghost l5 = l4.push(kv_line("mute"@, bool_text((*self).mute)));
        push_line(&mut t, Ghost(l5), "# speed: playback speed percent (25–400; 100 = original).");
        let ghost l6 = l5.push("# speed: playback speed percent (25–400; 100 = original)."@);
        push_kv_num(&mut t, Ghost(l6), "speed", self.speed as u64);
        let ghost l7 = l6.push(kv_line("speed"@, decimal((*self).speed as nat)));
        push_line(&mut t, Ghost(l7), "# scale: window fit — fit | stretch | integer | extend (extend fills widescreen).");
        let ghost l8 = l7.push("# scale: window fit — fit | stretch | integer | extend (extend fills widescreen)."@);
        push_kv(&mut t, Ghost(l8), "scale", scale_str(self.scale));
        let ghost l9 = l8.push(kv_line("scale"@, name_text_scale((*self).scale)));
        push_line(&mut t, Ghost(l9), "# filter: pixel sampling — nearest (crisp/retro) | linear (smooth) | xbr (HD,");
        let ghost l10 = l9.push("# filter: pixel sampling — nearest (crisp/retro) | linear (smooth) | xbr (HD,"@);
        push_line(&mut t, Ghost(l10), "# dissolves dither) | xbrz (smooth edges, keeps dither).");
        let ghost l11 = l10.push("# dissolves dither) | xbrz (smooth edges, keeps dither)."@);
        push_kv(&mut t, Ghost(l11), "filter", filter_str(self.filter));
        let ghost l12 = l11.push(kv_line("filter"@, name_text_filter((*self).filter)));
        push_line(&mut t, Ghost(l12), "# dedither: true smooths the dithered sea/sky (default false = authentic look).");
        let ghost l13 = l12.push("# dedither: true smooths the dithered sea/sky (default false = authentic look)."@);
        push_kv(&mut t, Ghost(l13), "dedither", bool_str(self.dedither));
        let ghost l14 = l13.push(kv_line("dedither"@, bool_text((*self).dedither)));
        push_line(&mut t, Ghost(l14), "# daynight: day/night cycle — original (8h, as in 1992) | real24h (wall clock).");
        let ghost l15 = l14.push("# daynight: day/night cycle — original (8h, as in 1992) | real24h (wall clock)."@);
        push_kv(&mut t, Ghost(l15), "daynight", daynight_str(self.daynight));
        let ghost l16 = l15.push(kv_line("daynight"@, name_text_daynight((*self).daynight)));
        push_line(&mut t, Ghost(l16), "# debug: true shows diagnostics (stdout status line + on-screen HUD overlay).");
        let ghost l17 = l16.push("# debug: true shows diagnostics (stdout status line + on-screen HUD overlay)."@);
        push_kv(&mut t, Ghost(l17), "debug", bool_str(self.debug));
        let ghost l18 = l17.push(kv_line("debug"@, bool_text((*self).debug)));
        push_line(&mut t, Ghost(l18), "# intro: true shows the original's intro screen (INTRO.SCR) once at startup.");
        let ghost l19 = l18.push("# intro: true shows the original's intro screen (INTRO.SCR) once at startup."@);
        push_kv(&mut t, Ghost(l19), "intro", bool_str(self.intro));
        let ghost l20 = l19.push(kv_line("intro"@, bool_text((*self).intro)));
        push_line(&mut t, Ghost(l20), "# day: start the 11-day arc at this day (1–11); 0 = auto (resume/today).");
        let ghost l21 = l20.push("# day: start the 11-day arc at this day (1–11); 0 = auto (resume/today)."@);
        push_kv_num(&mut t, Ghost(l21), "day", self.day as u64);
        let ghost l22 = l21.push(kv_line("day"@, decimal((*self).day as nat)));
        push_line(&mut t, Ghost(l22), "# story: true plays the whole arc in order (day 1→11→1…) on a fixed cadence.");
        let ghost l23 = l22.push("# story: true plays the whole arc in order (day 1→11→1…) on a fixed cadence."@);
        push_kv(&mut t, Ghost(l23), "story", bool_str(self.story));
        let ghost l24 = l23.push(kv_line("story"@, bool_text((*self).story)));
        push_line(&mut t, Ghost(l24), "# story_secs: in story mode, real seconds per story day (5–86400).");
        let ghost l25 = l24.push("# story_secs: in story mode, real seconds per story day (5–86400)."@);
        push_kv_num(&mut t, Ghost(l25), "story_secs", self.story_secs as u64);
        let ghost l26 = l25.push(kv_line("story_secs"@, decimal((*self).story_secs as nat)));
        push_line(&mut t, Ghost(l26), "# transition: scene transition — none (hard cut, faithful) | dissolve (the");
        let ghost l27 = l26.push("# transition: scene transition — none (hard cut, faithful) | dissolve (the"@);
        push_line(&mut t, Ghost(l27), "# original's dormant LFSR tiled dissolve, resurrected).");
        let ghost l28 = l27.push("# original's dormant LFSR tiled dissolve, resurrected)."@);
        push_kv(&mut t, Ghost(l28), "transition", transition_str(self.transition));
        let ghost l29 = l28.push(kv_line("transition"@, name_text_transition((*self).transition)));
        proof {
            assert(l29 == config_lines(*self));
        }
        t
    }
}

/// The text of each command-line argument.
pub open spec fn arg_texts(args: Seq<String>) -> Seq<Seq<char>> {
    Seq::new(args.len(), |i: int| args[i]@)
}

/// The options after the command-line arguments from `i` on: switches set their
/// option; options that take a value read the next argument and skip it when it is
/// readable (numbers clamped), and are ignored otherwise; anything else is ignored.
pub open spec fn apply_from(c: Config, args: Seq<Seq<char>>, i: int) -> Config
    decreases args.len() - i,
{
    if i < 0 || i >= args.len() {
        c
    } else {
        let a = args[i];
        let more = i + 1 < args.len();
        let v: Seq<u8> = if more { encode_utf8(args[i + 1]) } else { Seq::empty() };
        if a == "--windowed"@ {
            apply_from(Config { windowed: true, ..c }, args, i + 1)
        } else if a == "--mute"@ {
            apply_from(Config { mute: true, ..c }, args, i + 1)
        } else if a == "--dedither"@ {
            apply_from(Config { dedither: true, ..c }, args, i + 1)
        } else if a == "--debug"@ {
            apply_from(Config { debug: true, ..c }, args, i + 1)
        } else if a == "--no-intro"@ {
            apply_from(Config { intro: false, ..c }, args, i + 1)
        } else if a == "--story"@ {
            apply_from(Config { story: true, ..c }, args, i + 1)
        } else if a == "--day"@ {
            if more && parse_uint(v) is Some && parse_uint(v)->Some_0 <= 255 {
                apply_from(Config { day: day_of(parse_uint(v)->Some_0 as u8), ..c }, args, i + 2)
            } else {
                apply_from(c, args, i + 1)
            }
        } else if a == "--story-secs"@ {
            if more && u32_of(v) is Some {
                apply_from(Config { story_secs: story_secs_of(u32_of(v)->Some_0), ..c }, args, i + 2)
            } else {
                apply_from(c, args, i + 1)
            }
        } else if a == "--transition"@ {
            if more && transition_word(v) is Some {
                apply_from(Config { transition: transition_word(v)->Some_0, ..c }, args, i + 2)
            } else {
                apply_from(c, args, i + 1)
            }
        } else if a == "--speed"@ {
            if more && u32_of(v) is Some {
                apply_from(Config { speed: speed_of(u32_of(v)->Some_0), ..c }, args, i + 2)
            } else {
                apply_from(c, args, i + 1)
            }
        } else if a == "--scale"@ {
            if more && scale_word(v) is Some {
                apply_from(Config { scale: scale_word(v)->Some_0, ..c }, args, i + 2)
            } else {
                apply_from(c, args, i + 1)
            }
        } else if a == "--filter"@ {
            if more && filter_word(v) is Some {
                apply_from(Config { filter: filter_word(v)->Some_0, ..c }, args, i + 2)
            } else {
                apply_from(c, args, i + 1)
            }
        } else if a == "--daynight"@ {
            if more && day_night_word(v) is Some {
                apply_from(Config { daynight: day_night_word(v)->Some_0, ..c }, args, i + 2)
            } else {
                apply_from(c, args, i + 1)
            }
        } else {
            apply_from(c, args, i + 1)
        }
    }
}

impl Config {
    /// Apply command-line overrides: `--windowed`, `--mute`, `--dedither`, `--debug`,
    /// `--no-intro`, `--story`, `--speed <pct>`, `--scale <mode>`, `--filter <name>`,
    /// `--daynight <mode>`, `--day <1-11>`, `--story-secs <s>`, `--transition <style>`.
    /// Unknown flags are ignored.
    #[verifier::spinoff_prover]
    #[verifier::rlimit(100)]
    pub fn apply_args(&mut self, args: &[String])
        ensures
            *final(self) == apply_from(*old(self), arg_texts(args@), 0),
    {
        let ghost all = arg_texts(args@);
        let mut i: usize = 0;
        while i < args.len()
            invariant
                i <= args@.len() + 1,
                all == arg_texts(args@),
                apply_from(*self, all, i as int) == apply_from(*old(self), all, 0),
            decreases args@.len() - i,
        {
            let a = args[i].as_str();
            let more = i + 1 < args.len();
            let v: &[u8] = if more { args[i + 1].as_str().as_bytes() } else { "".as_bytes() };
            proof {
                if !more {
                    reveal_strlit("");
                    assert(v@ =~= Seq::<u8>::empty());
                }
            }
            if str_eq(a, "--windowed") {
                self.windowed = true;
            } else if str_eq(a, "--mute") {
                self.mute = true;
            } else if str_eq(a, "--dedither") {
                self.dedither = true;
            } else if str_eq(a, "--debug") {
                self.debug = true;
            } else if str_eq(a, "--no-intro") {
                self.intro = false;
            } else if str_eq(a, "--story") {
                self.story = true;
            } else if str_eq(a, "--day") {
                match if more { parse_u64(v) } else { None } {
                    Some(n) => {
                        if n <= 255 {
                            let d = n as u8;
                            self.day = if d < MAX_STORY_DAY { d } else { MAX_STORY_DAY };
                            i = i + 1;
                        }
                    },
                    None => {},
                }
            } else if str_eq(a, "--story-secs") {
                match if more { u32_from(v) } else { None } {
                    Some(n) => {
                        self.story_secs = clamp_u32(n, STORY_SECS_MIN, STORY_SECS_MAX);
                        i = i + 1;
                    },
                    None => {},
                }
            } else if str_eq(a, "--transition") {
                match if more { Transition::from_bytes(v) } else { None } {
                    Some(t) => {
                        self.transition = t;
                        i = i + 1;
                    },
                    None => {},
                }
            } else if str_eq(a, "--speed") {
                match if more { u32_from(v) } else { None } {
                    Some(n) => {
                        self.speed = clamp_u32(n, SPEED_MIN, SPEED_MAX);
                        i = i + 1;
                    },
                    None => {},
                }
            } else if str_eq(a, "--scale") {
                match if more { ScaleMode::from_bytes(v) } else { None } {
                    Some(m) => {
                        self.scale = m;
                        i = i + 1;
                    },
                    None => {},
                }
            } else if str_eq(a, "--filter") {
                match if more { Filter::from_bytes(v) } else { None } {
                    Some(f) => {
                        self.filter = f;
                        i = i + 1;
                    },
                    None => {},
                }
            } else if str_eq(a, "--daynight") {
                match if more { DayNight::from_bytes(v) } else { None } {
                    Some(m) => {
                        self.daynight = m;
                        i = i + 1;
                    },
                    None => {},
                }
            }
            i = i + 1;
        }
    }
}

/// The name written for a value reads back as that value.
pub proof fn lemma_bool_name_reads_back(b: bool)
    ensures
        bool_word(encode_utf8(bool_text(b))) == Some(b),
        all_value_chars(bool_text(b)),
        bool_text(b).len() > 0,
{
    reveal_strlit("true");
    reveal_strlit("yes");
    reveal_strlit("1");
    reveal_strlit("on");
    reveal_strlit("false");
    reveal_strlit("no");
    reveal_strlit("0");
    reveal_strlit("off");
    let w = bool_text(b);
    assert(all_value_chars(w));
    lemma_lower_word(w);
    lemma_encode_injective(w, "true"@);
    lemma_encode_injective(w, "yes"@);
    lemma_encode_injective(w, "1"@);
    lemma_encode_injective(w, "on"@);
    lemma_encode_injective(w, "false"@);
    lemma_encode_injective(w, "no"@);
    lemma_encode_injective(w, "0"@);
    lemma_encode_injective(w, "off"@);
}

/// The name written for a value reads back as that value.
pub proof fn lemma_scale_name_reads_back(m: ScaleMode)
    ensures
        scale_word(encode_utf8(name_text_scale(m))) == Some(m),
        all_value_chars(name_text_scale(m)),
        name_text_scale(m).len() > 0,
{
    reveal_strlit("fit");
    reveal_strlit("stretch");
    reveal_strlit("integer");
    reveal_strlit("extend");
    let w = name_text_scale(m);
    assert(all_value_chars(w));
    lemma_lower_word(w);
    lemma_encode_injective(w, "fit"@);
    lemma_encode_injective(w, "stretch"@);
    lemma_encode_injective(w, "integer"@);
    lemma_encode_injective(w, "extend"@);
}

/// The name written for a value reads back as that value.
pub proof fn lemma_filter_name_reads_back(f: Filter)
    ensures
        filter_word(encode_utf8(name_text_filter(f))) == Some(f),
        all_value_chars(name_text_filter(f)),
        name_text_filter(f).len() > 0,
{
    reveal_strlit("nearest");
    reveal_strlit("crisp");
    reveal_strlit("linear");
    reveal_strlit("smooth");
    reveal_strlit("xbr");
    reveal_strlit("xbrz");
    let w = name_text_filter(f);
    assert(all_value_chars(w));
    lemma_lower_word(w);
    lemma_encode_injective(w, "nearest"@);
    lemma_encode_injective(w, "crisp"@);
    lemma_encode_injective(w, "linear"@);
    lemma_encode_injective(w, "smooth"@);
    lemma_encode_injective(w, "xbr"@);
    lemma_encode_injective(w, "xbrz"@);
}

/// The name written for a value reads back as that value.
pub proof fn lemma_daynight_name_reads_back(d: DayNight)
    ensures
        day_night_word(encode_utf8(name_text_daynight(d))) == Some(d),
        all_value_chars(name_text_daynight(d)),
        name_text_daynight(d).len() > 0,
{
    reveal_strlit("original");
    reveal_strlit("8h");
    reveal_strlit("real24h");
    reveal_strlit("real");
    reveal_strlit("24h");
    let w = name_text_daynight(d);
    assert(all_value_chars(w));
    lemma_lower_word(w);
    lemma_encode_injective(w, "original"@);
    lemma_encode_injective(w, "8h"@);
    lemma_encode_injective(w, "real24h"@);
    lemma_encode_injective(w, "real"@);
    lemma_encode_injective(w, "24h"@);
}

/// The name written for a value reads back as that value.
pub proof fn lemma_transition_name_reads_back(t: Transition)
    ensures
        transition_word(encode_utf8(name_text_transition(t))) == Some(t),
        all_value_chars(name_text_transition(t)),
        name_text_transition(t).len() > 0,
{
    reveal_strlit("none");
    reveal_strlit("cut");
    reveal_strlit("hard");
    reveal_strlit("off");
    reveal_strlit("dissolve");
    reveal_strlit("lfsr");
    reveal_strlit("tiled");
    let w = name_text_transition(t);
    assert(all_value_chars(w));
    lemma_lower_word(w);
    lemma_encode_injective(w, "none"@);
    lemma_encode_injective(w, "cut"@);
    lemma_encode_injective(w, "hard"@);
    lemma_encode_injective(w, "off"@);
    lemma_encode_injective(w, "dissolve"@);
    lemma_encode_injective(w, "lfsr"@);
    lemma_encode_injective(w, "tiled"@);
}

proof fn lemma_config_lines_are_lines(c: Config)
    requires
        all_value_chars(decimal(c.speed as nat)),
        all_value_chars(decimal(c.day as nat)),
        all_value_chars(decimal(c.story_secs as nat)),
        all_value_chars(bool_text(c.windowed)),
        all_value_chars(bool_text(c.mute)),
        all_value_chars(bool_text(c.dedither)),
        all_value_chars(bool_text(c.debug)),
        all_value_chars(bool_text(c.intro)),
        all_value_chars(bool_text(c.story)),
        all_value_chars(name_text_scale(c.scale)),
        all_value_chars(name_text_filter(c.filter)),
        all_value_chars(name_text_daynight(c.daynight)),
        all_value_chars(name_text_transition(c.transition)),
    ensures
        forall|i: int| 0 <= i < config_lines(c).len() ==> one_line(#[trigger] config_lines(c)[i]),
        config_lines(c)[0].len() > 0 && config_lines(c)[0][0] == '#',
        config_lines(c)[1].len() > 0 && config_lines(c)[1][0] == '#',
        config_lines(c)[3].len() > 0 && config_lines(c)[3][0] == '#',
        config_lines(c)[5].len() > 0 && config_lines(c)[5][0] == '#',
        config_lines(c)[7].len() > 0 && config_lines(c)[7][0] == '#',
        config_lines(c)[9].len() > 0 && config_lines(c)[9][0] == '#',
        config_lines(c)[10].len() > 0 && config_lines(c)[10][0] == '#',
        config_lines(c)[12].len() > 0 && config_lines(c)[12][0] == '#',
        config_lines(c)[14].len() > 0 && config_lines(c)[14][0] == '#',
        config_lines(c)[16].len() > 0 && config_lines(c)[16][0] == '#',
        config_lines(c)[18].len() > 0 && config_lines(c)[18][0] == '#',
        config_lines(c)[20].len() > 0 && config_lines(c)[20][0] == '#',
        config_lines(c)[22].len() > 0 && config_lines(c)[22][0] == '#',
        config_lines(c)[24].len() > 0 && config_lines(c)[24][0] == '#',
        config_lines(c)[26].len() > 0 && config_lines(c)[26][0] == '#',
        config_lines(c)[27].len() > 0 && config_lines(c)[27][0] == '#',
{
    let ls = config_lines(c);
    reveal_strlit("# Wilson Reborn — configuration.");
    reveal_strlit("# windowed: true runs in a window instead of fullscreen.");
    reveal_strlit("# mute: true disables sound effects.");
    reveal_strlit("# speed: playback speed percent (25–400; 100 = original).");
    reveal_strlit("# scale: window fit — fit | stretch | integer | extend (extend fills widescreen).");
    reveal_strlit("# filter: pixel sampling — nearest (crisp/retro) | linear (smooth) | xbr (HD,");
    reveal_strlit("# dissolves dither) | xbrz (smooth edges, keeps dither).");
    reveal_strlit("# dedither: true smooths the dithered sea/sky (default false = authentic look).");
    reveal_strlit("# daynight: day/night cycle — original (8h, as in 1992) | real24h (wall clock).");
    reveal_strlit("# debug: true shows diagnostics (stdout status line + on-screen HUD overlay).");
    reveal_strlit("# intro: true shows the original's intro screen (INTRO.SCR) once at startup.");
    reveal_strlit("# day: start the 11-day arc at this day (1–11); 0 = auto (resume/today).");
    reveal_strlit("# story: true plays the whole arc in order (day 1→11→1…) on a fixed cadence.");
    reveal_strlit("# story_secs: in story mode, real seconds per story day (5–86400).");
    reveal_strlit("# transition: scene transition — none (hard cut, faithful) | dissolve (the");
    reveal_strlit("# original's dormant LFSR tiled dissolve, resurrected).");
    reveal_strlit("windowed");
    reveal_strlit("mute");
    reveal_strlit("speed");
    reveal_strlit("scale");
    reveal_strlit("filter");
    reveal_strlit("dedither");
    reveal_strlit("debug");
    reveal_strlit("daynight");
    reveal_strlit("intro");
    reveal_strlit("day");
    reveal_strlit("story");
    reveal_strlit("story_secs");
    reveal_strlit("transition");
    assert(one_line(ls[0]));
    assert(one_line(ls[1]));
    lemma_kv_one_line("windowed"@, bool_text(c.windowed));
    assert(one_line(ls[3]));
    lemma_kv_one_line("mute"@, bool_text(c.mute));
    assert(one_line(ls[5]));
    lemma_kv_one_line("speed"@, decimal(c.speed as nat));
    assert(one_line(ls[7]));
    lemma_kv_one_line("scale"@, name_text_scale(c.scale));
    assert(one_line(ls[9]));
    assert(one_line(ls[10]));
    lemma_kv_one_line("filter"@, name_text_filter(c.filter));
    assert(one_line(ls[12]));
    lemma_kv_one_line("dedither"@, bool_text(c.dedither));
    assert(one_line(ls[14]));
    lemma_kv_one_line("daynight"@, name_text_daynight(c.daynight));
    assert(one_line(ls[16]));
    lemma_kv_one_line("debug"@, bool_text(c.debug));
    assert(one_line(ls[18]));
    lemma_kv_one_line("intro"@, bool_text(c.intro));
    assert(one_line(ls[20]));
    lemma_kv_one_line("day"@, decimal(c.day as nat));
    assert(one_line(ls[22]));
    lemma_kv_one_line("story"@, bool_text(c.story));
    assert(one_line(ls[24]));
    lemma_kv_one_line("story_secs"@, decimal(c.story_secs as nat));
    assert(one_line(ls[26]));
    assert(one_line(ls[27]));
    lemma_kv_one_line("transition"@, name_text_transition(c.transition));
    assert forall|i: int| 0 <= i < ls.len() implies one_line(#[trigger] ls[i]) by {}
}

#[verifier::rlimit(40)]
proof fn lemma_entry_windowed(c0: Config, b: bool)
    ensures
        config_entry(c0, encode_utf8("windowed"@), encode_utf8(bool_text(b))) == (Config { windowed: b, ..c0 }),
{
    reveal(config_entry);
    reveal_strlit("windowed");
    lemma_bool_name_reads_back(b);
}

#[verifier::rlimit(40)]
proof fn lemma_entry_mute(c0: Config, b: bool)
    ensures
        config_entry(c0, encode_utf8("mute"@), encode_utf8(bool_text(b))) == (Config { mute: b, ..c0 }),
{
    reveal(config_entry);
    reveal_strlit("windowed");
    reveal_strlit("mute");
    lemma_bool_name_reads_back(b);
    lemma_encode_injective("mute"@, "windowed"@);
}

#[verifier::rlimit(40)]
proof fn lemma_entry_speed(c0: Config, n: u32)
    requires
        SPEED_MIN <= n <= SPEED_MAX,
    ensures
        config_entry(c0, encode_utf8("speed"@), encode_utf8(decimal(n as nat))) == (Config { speed: n, ..c0 }),
{
    reveal(config_entry);
    reveal_strlit("windowed");
    reveal_strlit("mute");
    reveal_strlit("speed");
    lemma_parse_decimal(n as nat);
    lemma_encode_injective("speed"@, "windowed"@);
    lemma_encode_injective("speed"@, "mute"@);
}

#[verifier::rlimit(40)]
proof fn lemma_entry_scale(c0: Config, m: ScaleMode)
    ensures
        config_entry(c0, encode_utf8("scale"@), encode_utf8(name_text_scale(m))) == (Config { scale: m, ..c0 }),
{
    reveal(config_entry);
    reveal_strlit("windowed");
    reveal_strlit("mute");
    reveal_strlit("speed");
    reveal_strlit("scale");
    lemma_scale_name_reads_back(m);
    lemma_encode_injective("scale"@, "windowed"@);
    lemma_encode_injective("scale"@, "mute"@);
    assert("scale"@[1] != "speed"@[1]);
    lemma_encode_injective("scale"@, "speed"@);
}

#[verifier::rlimit(40)]
proof fn lemma_entry_filter(c0: Config, f: Filter)
    ensures
        config_entry(c0, encode_utf8("filter"@), encode_utf8(name_text_filter(f))) == (Config { filter: f, ..c0 }),
{
    reveal(config_entry);
    reveal_strlit("windowed");
    reveal_strlit("mute");
    reveal_strlit("speed");
    reveal_strlit("scale");
    reveal_strlit("filter");
    lemma_filter_name_reads_back(f);
    lemma_encode_injective("filter"@, "windowed"@);
    lemma_encode_injective("filter"@, "mute"@);
    lemma_encode_injective("filter"@, "speed"@);
    lemma_encode_injective("filter"@, "scale"@);
}

#[verifier::rlimit(40)]
proof fn lemma_entry_dedither(c0: Config, b: bool)
    ensures
        config_entry(c0, encode_utf8("dedither"@), encode_utf8(bool_text(b))) == (Config { dedither: b, ..c0 }),
{
    reveal(config_entry);
    reveal_strlit("windowed");
    reveal_strlit("mute");
    reveal_strlit("speed");
    reveal_strlit("scale");
    reveal_strlit("filter");
    reveal_strlit("dedither");
    lemma_bool_name_reads_back(b);
    assert("dedither"@[0] != "windowed"@[0]);
    lemma_encode_injective("dedither"@, "windowed"@);
    lemma_encode_injective("dedither"@, "mute"@);
    lemma_encode_injective("dedither"@, "speed"@);
    lemma_encode_injective("dedither"@, "scale"@);
    lemma_encode_injective("dedither"@, "filter"@);
}

#[verifier::rlimit(40)]
proof fn lemma_entry_debug(c0: Config, b: bool)
    ensures
        config_entry(c0, encode_utf8("debug"@), encode_utf8(bool_text(b))) == (Config { debug: b, ..c0 }),
{
    reveal(config_entry);
    reveal_strlit("windowed");
    reveal_strlit("mute");
    reveal_strlit("speed");
    reveal_strlit("scale");
    reveal_strlit("filter");
    reveal_strlit("dedither");
    reveal_strlit("debug");
    lemma_bool_name_reads_back(b);
    lemma_encode_injective("debug"@, "windowed"@);
    lemma_encode_injective("debug"@, "mute"@);
    assert("debug"@[0] != "speed"@[0]);
    lemma_encode_injective("debug"@, "speed"@);
    assert("debug"@[0] != "scale"@[0]);
    lemma_encode_injective("debug"@, "scale"@);
    lemma_encode_injective("debug"@, "filter"@);
    lemma_encode_injective("debug"@, "dedither"@);
}

#[verifier::rlimit(40)]
proof fn lemma_entry_daynight(c0: Config, d: DayNight)
    ensures
        config_entry(c0, encode_utf8("daynight"@), encode_utf8(name_text_daynight(d))) == (Config { daynight: d, ..c0 }),
{
    reveal(config_entry);
    reveal_strlit("windowed");
    reveal_strlit("mute");
    reveal_strlit("speed");
    reveal_strlit("scale");
    reveal_strlit("filter");
    reveal_strlit("dedither");
    reveal_strlit("debug");
    reveal_strlit("daynight");
    lemma_daynight_name_reads_back(d);
    assert("daynight"@[0] != "windowed"@[0]);
    lemma_encode_injective("daynight"@, "windowed"@);
    lemma_encode_injective("daynight"@, "mute"@);
    lemma_encode_injective("daynight"@, "speed"@);
    lemma_encode_injective("daynight"@, "scale"@);
    lemma_encode_injective("daynight"@, "filter"@);
    assert("daynight"@[1] != "dedither"@[1]);
    lemma_encode_injective("daynight"@, "dedither"@);
    lemma_encode_injective("daynight"@, "debug"@);
}

#[verifier::rlimit(40)]
proof fn lemma_entry_intro(c0: Config, b: bool)
    ensures
        config_entry(c0, encode_utf8("intro"@), encode_utf8(bool_text(b))) == (Config { intro: b, ..c0 }),
{
    reveal(config_entry);
    reveal_strlit("windowed");
    reveal_strlit("mute");
    reveal_strlit("speed");
    reveal_strlit("scale");
    reveal_strlit("filter");
    reveal_strlit("dedither");
    reveal_strlit("debug");
    reveal_strlit("daynight");
    reveal_strlit("intro");
    lemma_bool_name_reads_back(b);
    lemma_encode_injective("intro"@, "windowed"@);
    lemma_encode_injective("intro"@, "mute"@);
    assert("intro"@[0] != "speed"@[0]);
    lemma_encode_injective("intro"@, "speed"@);
    assert("intro"@[0] != "scale"@[0]);
    lemma_encode_injective("intro"@, "scale"@);
    lemma_encode_injective("intro"@, "filter"@);
    lemma_encode_injective("intro"@, "dedither"@);
    assert("intro"@[0] != "debug"@[0]);
    lemma_encode_injective("intro"@, "debug"@);
    lemma_encode_injective("intro"@, "daynight"@);
}

#[verifier::rlimit(40)]
proof fn lemma_entry_day(c0: Config, n: u8)
    requires
        n <= MAX_STORY_DAY,
    ensures
        config_entry(c0, encode_utf8("day"@), encode_utf8(decimal(n as nat))) == (Config { day: n, ..c0 }),
{
    reveal(config_entry);
    reveal_strlit("windowed");
    reveal_strlit("mute");
    reveal_strlit("speed");
    reveal_strlit("scale");
    reveal_strlit("filter");
    reveal_strlit("dedither");
    reveal_strlit("debug");
    reveal_strlit("daynight");
    reveal_strlit("intro");
    reveal_strlit("day");
    lemma_parse_decimal(n as nat);
    lemma_encode_injective("day"@, "windowed"@);
    lemma_encode_injective("day"@, "mute"@);
    lemma_encode_injective("day"@, "speed"@);
    lemma_encode_injective("day"@, "scale"@);
    lemma_encode_injective("day"@, "filter"@);
    lemma_encode_injective("day"@, "dedither"@);
    lemma_encode_injective("day"@, "debug"@);
    lemma_encode_injective("day"@, "daynight"@);
    lemma_encode_injective("day"@, "intro"@);
}

#[verifier::rlimit(40)]
proof fn lemma_entry_story(c0: Config, b: bool)
    ensures
        config_entry(c0, encode_utf8("story"@), encode_utf8(bool_text(b))) == (Config { story: b, ..c0 }),
{
    reveal(config_entry);
    reveal_strlit("windowed");
    reveal_strlit("mute");
    reveal_strlit("speed");
    reveal_strlit("scale");
    reveal_strlit("filter");
    reveal_strlit("dedither");
    reveal_strlit("debug");
    reveal_strlit("daynight");
    reveal_strlit("intro");
    reveal_strlit("day");
    reveal_strlit("story");
    lemma_bool_name_reads_back(b);
    lemma_encode_injective("story"@, "windowed"@);
    lemma_encode_injective("story"@, "mute"@);
    assert("story"@[1] != "speed"@[1]);
    lemma_encode_injective("story"@, "speed"@);
    assert("story"@[1] != "scale"@[1]);
    lemma_encode_injective("story"@, "scale"@);
    lemma_encode_injective("story"@, "filter"@);
    lemma_encode_injective("story"@, "dedither"@);
    assert("story"@[0] != "debug"@[0]);
    lemma_encode_injective("story"@, "debug"@);
    lemma_encode_injective("story"@, "daynight"@);
    assert("story"@[0] != "intro"@[0]);
    lemma_encode_injective("story"@, "intro"@);
    lemma_encode_injective("story"@, "day"@);
}

#[verifier::rlimit(40)]
proof fn lemma_entry_story_secs(c0: Config, n: u32)
    requires
        STORY_SECS_MIN <= n <= STORY_SECS_MAX,
    ensures
        config_entry(c0, encode_utf8("story_secs"@), encode_utf8(decimal(n as nat))) == (Config { story_secs: n, ..c0 }),
{
    reveal(config_entry);
    reveal_strlit("windowed");
    reveal_strlit("mute");
    reveal_strlit("speed");
    reveal_strlit("scale");
    reveal_strlit("filter");
    reveal_strlit("dedither");
    reveal_strlit("debug");
    reveal_strlit("daynight");
    reveal_strlit("intro");
    reveal_strlit("day");
    reveal_strlit("story");
    reveal_strlit("story_secs");
    lemma_parse_decimal(n as nat);
    lemma_encode_injective("story_secs"@, "windowed"@);
    lemma_encode_injective("story_secs"@, "mute"@);
    lemma_encode_injective("story_secs"@, "speed"@);
    lemma_encode_injective("story_secs"@, "scale"@);
    lemma_encode_injective("story_secs"@, "filter"@);
    lemma_encode_injective("story_secs"@, "dedither"@);
    lemma_encode_injective("story_secs"@, "debug"@);
    lemma_encode_injective("story_secs"@, "daynight"@);
    lemma_encode_injective("story_secs"@, "intro"@);
    lemma_encode_injective("story_secs"@, "day"@);
    lemma_encode_injective("story_secs"@, "story"@);
}

#[verifier::rlimit(40)]
proof fn lemma_entry_transition(c0: Config, t: Transition)
    ensures
        config_entry(c0, encode_utf8("transition"@), encode_utf8(name_text_transition(t))) == (Config { transition: t, ..c0 }),
{
    reveal(config_entry);
    reveal_strlit("windowed");
    reveal_strlit("mute");
    reveal_strlit("speed");
    reveal_strlit("scale");
    reveal_strlit("filter");
    reveal_strlit("dedither");
    reveal_strlit("debug");
    reveal_strlit("daynight");
    reveal_strlit("intro");
    reveal_strlit("day");
    reveal_strlit("story");
    reveal_strlit("story_secs");
    reveal_strlit("transition");
    lemma_transition_name_reads_back(t);
    lemma_encode_injective("transition"@, "windowed"@);
    lemma_encode_injective("transition"@, "mute"@);
    lemma_encode_injective("transition"@, "speed"@);
    lemma_encode_injective("transition"@, "scale"@);
    lemma_encode_injective("transition"@, "filter"@);
    lemma_encode_injective("transition"@, "dedither"@);
    lemma_encode_injective("transition"@, "debug"@);
    lemma_encode_injective("transition"@, "daynight"@);
    lemma_encode_injective("transition"@, "intro"@);
    lemma_encode_injective("transition"@, "day"@);
    lemma_encode_injective("transition"@, "story"@);
    assert("transition"@[0] != "story_secs"@[0]);
    lemma_encode_injective("transition"@, "story_secs"@);
}

proof fn lemma_config_of_step(lines: Seq<Seq<u8>>, k: int)
    requires
        0 <= k < lines.len(),
    ensures
        config_of(lines.take(k + 1)) == match line_entry(lines[k]) {
            Some(Some((kk, v))) => config_entry(config_of(lines.take(k)), kk, v),
            _ => config_of(lines.take(k)),
        },
{
    assert(lines.take(k + 1).drop_last() =~= lines.take(k));
    assert(lines.take(k + 1).last() == lines[k]);
}

proof fn lemma_config_read_0_5(c: Config, lines: Seq<Seq<u8>>)
    requires
        SPEED_MIN <= c.speed <= SPEED_MAX,
        STORY_SECS_MIN <= c.story_secs <= STORY_SECS_MAX,
        c.day <= MAX_STORY_DAY,
        forall|i: int| 0 <= i < config_lines(c).len() ==> one_line(#[trigger] config_lines(c)[i]),
        lines == Seq::new(config_lines(c).len(), |i: int| encode_utf8(config_lines(c)[i])),
        config_of(lines.take(0)) == default_config(),
    ensures
        config_of(lines.take(5)) == (Config { windowed: c.windowed, mute: c.mute, ..default_config() }),
{
    let ls = config_lines(c);
    lemma_config_of_step(lines, 0);
    reveal_strlit("# Wilson Reborn — configuration.");
    lemma_comment_entry(ls[0]);
    assert(config_of(lines.take(1)) == default_config());
    lemma_config_of_step(lines, 1);
    reveal_strlit("# windowed: true runs in a window instead of fullscreen.");
    lemma_comment_entry(ls[1]);
    assert(config_of(lines.take(2)) == default_config());
    lemma_config_of_step(lines, 2);
    reveal_strlit("windowed");
    lemma_bool_name_reads_back(c.windowed);
    lemma_kv_entry("windowed"@, bool_text(c.windowed));
    lemma_entry_windowed(default_config(), c.windowed);
    assert(config_of(lines.take(3)) == (Config { windowed: c.windowed, ..default_config() }));
    lemma_config_of_step(lines, 3);
    reveal_strlit("# mute: true disables sound effects.");
    lemma_comment_entry(ls[3]);
    assert(config_of(lines.take(4)) == (Config { windowed: c.windowed, ..default_config() }));
    lemma_config_of_step(lines, 4);
    reveal_strlit("mute");
    lemma_bool_name_reads_back(c.mute);
    lemma_kv_entry("mute"@, bool_text(c.mute));
    lemma_entry_mute((Config { windowed: c.windowed, ..default_config() }), c.mute);
    assert(config_of(lines.take(5)) == (Config { windowed: c.windowed, mute: c.mute, ..default_config() }));
}

proof fn lemma_config_read_5_10(c: Config, lines: Seq<Seq<u8>>)
    requires
        SPEED_MIN <= c.speed <= SPEED_MAX,
        STORY_SECS_MIN <= c.story_secs <= STORY_SECS_MAX,
        c.day <= MAX_STORY_DAY,
        forall|i: int| 0 <= i < config_lines(c).len() ==> one_line(#[trigger] config_lines(c)[i]),
        lines == Seq::new(config_lines(c).len(), |i: int| encode_utf8(config_lines(c)[i])),
        config_of(lines.take(5)) == (Config { windowed: c.windowed, mute: c.mute, ..default_config() }),
    ensures
        config_of(lines.take(10)) == (Config { windowed: c.windowed, mute: c.mute, speed: c.speed, scale: c.scale, ..default_config() }),
{
    let ls = config_lines(c);
    lemma_config_of_step(lines, 5);
    reveal_strlit("# speed: playback speed percent (25–400; 100 = original).");
    lemma_comment_entry(ls[5]);
    assert(config_of(lines.take(6)) == (Config { windowed: c.windowed, mute: c.mute, ..default_config() }));
    lemma_config_of_step(lines, 6);
    reveal_strlit("speed");
    lemma_parse_decimal(c.speed as nat);
    lemma_kv_entry("speed"@, decimal(c.speed as nat));
    lemma_entry_speed((Config { windowed: c.windowed, mute: c.mute, ..default_config() }), c.speed);
    assert(config_of(lines.take(7)) == (Config { windowed: c.windowed, mute: c.mute, speed: c.speed, ..default_config() }));
    lemma_config_of_step(lines, 7);
    reveal_strlit("# scale: window fit — fit | stretch | integer | extend (extend fills widescreen).");
    lemma_comment_entry(ls[7]);
    assert(config_of(lines.take(8)) == (Config { windowed: c.windowed, mute: c.mute, speed: c.speed, ..default_config() }));
    lemma_config_of_step(lines, 8);
    reveal_strlit("scale");
    lemma_scale_name_reads_back(c.scale);
    lemma_kv_entry("scale"@, name_text_scale(c.scale));
    lemma_entry_scale((Config { windowed: c.windowed, mute: c.mute, speed: c.speed, ..default_config() }), c.scale);
    assert(config_of(lines.take(9)) == (Config { windowed: c.windowed, mute: c.mute, speed: c.speed, scale: c.scale, ..default_config() }));
    lemma_config_of_step(lines, 9);
    reveal_strlit("# filter: pixel sampling — nearest (crisp/retro) | linear (smooth) | xbr (HD,");
    lemma_comment_entry(ls[9]);
    assert(config_of(lines.take(10)) == (Config { windowed: c.windowed, mute: c.mute, speed: c.speed, scale: c.scale, ..default_config() }));
}

proof fn lemma_config_read_10_15(c: Config, lines: Seq<Seq<u8>>)
    requires
        SPEED_MIN <= c.speed <= SPEED_MAX,
        STORY_SECS_MIN <= c.story_secs <= STORY_SECS_MAX,
        c.day <= MAX_STORY_DAY,
        forall|i: int| 0 <= i < config_lines(c).len() ==> one_line(#[trigger] config_lines(c)[i]),
        lines == Seq::new(config_lines(c).len(), |i: int| encode_utf8(config_lines(c)[i])),
        config_of(lines.take(10)) == (Config { windowed: c.windowed, mute: c.mute, speed: c.speed, scale: c.scale, ..default_config() }),
    ensures
        config_of(lines.take(15)) == (Config { windowed: c.windowed, mute: c.mute, speed: c.speed, scale: c.scale, filter: c.filter, dedither: c.dedither, ..default_config() }),
{
    let ls = config_lines(c);
    lemma_config_of_step(lines, 10);
    reveal_strlit("# dissolves dither) | xbrz (smooth edges, keeps dither).");
    lemma_comment_entry(ls[10]);
    assert(config_of(lines.take(11)) == (Config { windowed: c.windowed, mute: c.mute, speed: c.speed, scale: c.scale, ..default_config() }));
    lemma_config_of_step(lines, 11);
    reveal_strlit("filter");
    lemma_filter_name_reads_back(c.filter);
    lemma_kv_entry("filter"@, name_text_filter(c.filter));
    lemma_entry_filter((Config { windowed: c.windowed, mute: c.mute, speed: c.speed, scale: c.scale, ..default_config() }), c.filter);
    assert(config_of(lines.take(12)) == (Config { windowed: c.windowed, mute: c.mute, speed: c.speed, scale: c.scale, filter: c.filter, ..default_config() }));
    lemma_config_of_step(lines, 12);
    reveal_strlit("# dedither: true smooths the dithered sea/sky (default false = authentic look).");
    lemma_comment_entry(ls[12]);
    assert(config_of(lines.take(13)) == (Config { windowed: c.windowed, mute: c.mute, speed: c.speed, scale: c.scale, filter: c.filter, ..default_config() }));
    lemma_config_of_step(lines, 13);
    reveal_strlit("dedither");
    lemma_bool_name_reads_back(c.dedither);
    lemma_kv_entry("dedither"@, bool_text(c.dedither));
    lemma_entry_dedither((Config { windowed: c.windowed, mute: c.mute, speed: c.speed, scale: c.scale, filter: c.filter, ..default_config() }), c.dedither);
    assert(config_of(lines.take(14)) == (Config { windowed: c.windowed, mute: c.mute, speed: c.speed, scale: c.scale, filter: c.filter, dedither: c.dedither, ..default_config() }));
    lemma_config_of_step(lines, 14);
    reveal_strlit("# daynight: day/night cycle — original (8h, as in 1992) | real24h (wall clock).");
    lemma_comment_entry(ls[14]);
    assert(config_of(lines.take(15)) == (Config { windowed: c.windowed, mute: c.mute, speed: c.speed, scale: c.scale, filter: c.filter, dedither: c.dedither, ..default_config() }));
}

proof fn lemma_config_read_15_20(c: Config, lines: Seq<Seq<u8>>)
    requires
        SPEED_MIN <= c.speed <= SPEED_MAX,
        STORY_SECS_MIN <= c.story_secs <= STORY_SECS_MAX,
        c.day <= MAX_STORY_DAY,
        forall|i: int| 0 <= i < config_lines(c).len() ==> one_line(#[trigger] config_lines(c)[i]),
        lines == Seq::new(config_lines(c).len(), |i: int| encode_utf8(config_lines(c)[i])),
        config_of(lines.take(15)) == (Config { windowed: c.windowed, mute: c.mute, speed: c.speed, scale: c.scale, filter: c.filter, dedither: c.dedither, ..default_config() }),
    ensures
        config_of(lines.take(20)) == (Config { windowed: c.windowed, mute: c.mute, speed: c.speed, scale: c.scale, filter: c.filter, dedither: c.dedither, daynight: c.daynight, debug: c.debug, intro: c.intro, ..default_config() }),
{
    let ls = config_lines(c);
    lemma_config_of_step(lines, 15);
    reveal_strlit("daynight");
    lemma_daynight_name_reads_back(c.daynight);
    lemma_kv_entry("daynight"@, name_text_daynight(c.daynight));
    lemma_entry_daynight((Config { windowed: c.windowed, mute: c.mute, speed: c.speed, scale: c.scale, filter: c.filter, dedither: c.dedither, ..default_config() }), c.daynight);
    assert(config_of(lines.take(16)) == (Config { windowed: c.windowed, mute: c.mute, speed: c.speed, scale: c.scale, filter: c.filter, dedither: c.dedither, daynight: c.daynight, ..default_config() }));
    lemma_config_of_step(lines, 16);
    reveal_strlit("# debug: true shows diagnostics (stdout status line + on-screen HUD overlay).");
    lemma_comment_entry(ls[16]);
    assert(config_of(lines.take(17)) == (Config { windowed: c.windowed, mute: c.mute, speed: c.speed, scale: c.scale, filter: c.filter, dedither: c.dedither, daynight: c.daynight, ..default_config() }));
    lemma_config_of_step(lines, 17);
    reveal_strlit("debug");
    lemma_bool_name_reads_back(c.debug);
    lemma_kv_entry("debug"@, bool_text(c.debug));
    lemma_entry_debug((Config { windowed: c.windowed, mute: c.mute, speed: c.speed, scale: c.scale, filter: c.filter, dedither: c.dedither, daynight: c.daynight, ..default_config() }), c.debug);
    assert(config_of(lines.take(18)) == (Config { windowed: c.windowed, mute: c.mute, speed: c.speed, scale: c.scale, filter: c.filter, dedither: c.dedither, daynight: c.daynight, debug: c.debug, ..default_config() }));
    lemma_config_of_step(lines, 18);
    reveal_strlit("# intro: true shows the original's intro screen (INTRO.SCR) once at startup.");
    lemma_comment_entry(ls[18]);
    assert(config_of(lines.take(19)) == (Config { windowed: c.windowed, mute: c.mute, speed: c.speed, scale: c.scale, filter: c.filter, dedither: c.dedither, daynight: c.daynight, debug: c.debug, ..default_config() }));
    lemma_config_of_step(lines, 19);
    reveal_strlit("intro");
    lemma_bool_name_reads_back(c.intro);
    lemma_kv_entry("intro"@, bool_text(c.intro));
    lemma_entry_intro((Config { windowed: c.windowed, mute: c.mute, speed: c.speed, scale: c.scale, filter: c.filter, dedither: c.dedither, daynight: c.daynight, debug: c.debug, ..default_config() }), c.intro);
    assert(config_of(lines.take(20)) == (Config { windowed: c.windowed, mute: c.mute, speed: c.speed, scale: c.scale, filter: c.filter, dedither: c.dedither, daynight: c.daynight, debug: c.debug, intro: c.intro, ..default_config() }));
}

proof fn lemma_config_read_20_25(c: Config, lines: Seq<Seq<u8>>)
    requires
        SPEED_MIN <= c.speed <= SPEED_MAX,
        STORY_SECS_MIN <= c.story_secs <= STORY_SECS_MAX,
        c.day <= MAX_STORY_DAY,
        forall|i: int| 0 <= i < config_lines(c).len() ==> one_line(#[trigger] config_lines(c)[i]),
        lines == Seq::new(config_lines(c).len(), |i: int| encode_utf8(config_lines(c)[i])),
        config_of(lines.take(20)) == (Config { windowed: c.windowed, mute: c.mute, speed: c.speed, scale: c.scale, filter: c.filter, dedither: c.dedither, daynight: c.daynight, debug: c.debug, intro: c.intro, ..default_config() }),
    ensures
        config_of(lines.take(25)) == (Config { windowed: c.windowed, mute: c.mute, speed: c.speed, scale: c.scale, filter: c.filter, dedither: c.dedither, daynight: c.daynight, debug: c.debug, intro: c.intro, day: c.day, story: c.story, ..default_config() }),
{
    let ls = config_lines(c);
    lemma_config_of_step(lines, 20);
    reveal_strlit("# day: start the 11-day arc at this day (1–11); 0 = auto (resume/today).");
    lemma_comment_entry(ls[20]);
    assert(config_of(lines.take(21)) == (Config { windowed: c.windowed, mute: c.mute, speed: c.speed, scale: c.scale, filter: c.filter, dedither: c.dedither, daynight: c.daynight, debug: c.debug, intro: c.intro, ..default_config() }));
    lemma_config_of_step(lines, 21);
    reveal_strlit("day");
    lemma_parse_decimal(c.day as nat);
    lemma_kv_entry("day"@, decimal(c.day as nat));
    lemma_entry_day((Config { windowed: c.windowed, mute: c.mute, speed: c.speed, scale: c.scale, filter: c.filter, dedither: c.dedither, daynight: c.daynight, debug: c.debug, intro: c.intro, ..default_config() }), c.day);
    assert(config_of(lines.take(22)) == (Config { windowed: c.windowed, mute: c.mute, speed: c.speed, scale: c.scale, filter: c.filter, dedither: c.dedither, daynight: c.daynight, debug: c.debug, intro: c.intro, day: c.day, ..default_config() }));
    lemma_config_of_step(lines, 22);
    reveal_strlit("# story: true plays the whole arc in order (day 1→11→1…) on a fixed cadence.");
    lemma_comment_entry(ls[22]);
    assert(config_of(lines.take(23)) == (Config { windowed: c.windowed, mute: c.mute, speed: c.speed, scale: c.scale, filter: c.filter, dedither: c.dedither, daynight: c.daynight, debug: c.debug, intro: c.intro, day: c.day, ..default_config() }));
    lemma_config_of_step(lines, 23);
    reveal_strlit("story");
    lemma_bool_name_reads_back(c.story);
    lemma_kv_entry("story"@, bool_text(c.story));
    lemma_entry_story((Config { windowed: c.windowed, mute: c.mute, speed: c.speed, scale: c.scale, filter: c.filter, dedither: c.dedither, daynight: c.daynight, debug: c.debug, intro: c.intro, day: c.day, ..default_config() }), c.story);
    assert(config_of(lines.take(24)) == (Config { windowed: c.windowed, mute: c.mute, speed: c.speed, scale: c.scale, filter: c.filter, dedither: c.dedither, daynight: c.daynight, debug: c.debug, intro: c.intro, day: c.day, story: c.story, ..default_config() }));
    lemma_config_of_step(lines, 24);
    reveal_strlit("# story_secs: in story mode, real seconds per story day (5–86400).");
    lemma_comment_entry(ls[24]);
    assert(config_of(lines.take(25)) == (Config { windowed: c.windowed, mute: c.mute, speed: c.speed, scale: c.scale, filter: c.filter, dedither: c.dedither, daynight: c.daynight, debug: c.debug, intro: c.intro, day: c.day, story: c.story, ..default_config() }));
}

proof fn lemma_config_read_25_29(c: Config, lines: Seq<Seq<u8>>)
    requires
        SPEED_MIN <= c.speed <= SPEED_MAX,
        STORY_SECS_MIN <= c.story_secs <= STORY_SECS_MAX,
        c.day <= MAX_STORY_DAY,
        forall|i: int| 0 <= i < config_lines(c).len() ==> one_line(#[trigger] config_lines(c)[i]),
        lines == Seq::new(config_lines(c).len(), |i: int| encode_utf8(config_lines(c)[i])),
        config_of(lines.take(25)) == (Config { windowed: c.windowed, mute: c.mute, speed: c.speed, scale: c.scale, filter: c.filter, dedither: c.dedither, daynight: c.daynight, debug: c.debug, intro: c.intro, day: c.day, story: c.story, ..default_config() }),
    ensures
        config_of(lines.take(29)) == (Config { windowed: c.windowed, mute: c.mute, speed: c.speed, scale: c.scale, filter: c.filter, dedither: c.dedither, daynight: c.daynight, debug: c.debug, intro: c.intro, day: c.day, story: c.story, story_secs: c.story_secs, transition: c.transition, ..default_config() }),
{
    let ls = config_lines(c);
    lemma_config_of_step(lines, 25);
    reveal_strlit("story_secs");
    lemma_parse_decimal(c.story_secs as nat);
    lemma_kv_entry("story_secs"@, decimal(c.story_secs as nat));
    lemma_entry_story_secs((Config { windowed: c.windowed, mute: c.mute, speed: c.speed, scale: c.scale, filter: c.filter, dedither: c.dedither, daynight: c.daynight, debug: c.debug, intro: c.intro, day: c.day, story: c.story, ..default_config() }), c.story_secs);
    assert(config_of(lines.take(26)) == (Config { windowed: c.windowed, mute: c.mute, speed: c.speed, scale: c.scale, filter: c.filter, dedither: c.dedither, daynight: c.daynight, debug: c.debug, intro: c.intro, day: c.day, story: c.story, story_secs: c.story_secs, ..default_config() }));
    lemma_config_of_step(lines, 26);
    reveal_strlit("# transition: scene transition — none (hard cut, faithful) | dissolve (the");
    lemma_comment_entry(ls[26]);
    assert(config_of(lines.take(27)) == (Config { windowed: c.windowed, mute: c.mute, speed: c.speed, scale: c.scale, filter: c.filter, dedither: c.dedither, daynight: c.daynight, debug: c.debug, intro: c.intro, day: c.day, story: c.story, story_secs: c.story_secs, ..default_config() }));
    lemma_config_of_step(lines, 27);
    reveal_strlit("# original's dormant LFSR tiled dissolve, resurrected).");
    lemma_comment_entry(ls[27]);
    assert(config_of(lines.take(28)) == (Config { windowed: c.windowed, mute: c.mute, speed: c.speed, scale: c.scale, filter: c.filter, dedither: c.dedither, daynight: c.daynight, debug: c.debug, intro: c.intro, day: c.day, story: c.story, story_secs: c.story_secs, ..default_config() }));
    lemma_config_of_step(lines, 28);
    reveal_strlit("transition");
    lemma_transition_name_reads_back(c.transition);
    lemma_kv_entry("transition"@, name_text_transition(c.transition));
    lemma_entry_transition((Config { windowed: c.windowed, mute: c.mute, speed: c.speed, scale: c.scale, filter: c.filter, dedither: c.dedither, daynight: c.daynight, debug: c.debug, intro: c.intro, day: c.day, story: c.story, story_secs: c.story_secs, ..default_config() }), c.transition);
    assert(config_of(lines.take(29)) == (Config { windowed: c.windowed, mute: c.mute, speed: c.speed, scale: c.scale, filter: c.filter, dedither: c.dedither, daynight: c.daynight, debug: c.debug, intro: c.intro, day: c.day, story: c.story, story_secs: c.story_secs, transition: c.transition, ..default_config() }));
}

/// Writing the options and reading them back gives the same options, for any options
/// within the ranges the reader clamps to.
pub proof fn lemma_config_round_trip(c: Config)
    requires
        SPEED_MIN <= c.speed <= SPEED_MAX,
        STORY_SECS_MIN <= c.story_secs <= STORY_SECS_MAX,
        c.day <= MAX_STORY_DAY,
    ensures
        config_of(lines_of(encode_utf8(config_text(c)))) == c,
{
    lemma_bool_name_reads_back(c.windowed);
    lemma_bool_name_reads_back(c.mute);
    lemma_bool_name_reads_back(c.dedither);
    lemma_bool_name_reads_back(c.debug);
    lemma_bool_name_reads_back(c.intro);
    lemma_bool_name_reads_back(c.story);
    lemma_scale_name_reads_back(c.scale);
    lemma_filter_name_reads_back(c.filter);
    lemma_daynight_name_reads_back(c.daynight);
    lemma_transition_name_reads_back(c.transition);
    lemma_parse_decimal(c.speed as nat);
    lemma_parse_decimal(c.day as nat);
    lemma_parse_decimal(c.story_secs as nat);
    lemma_config_lines_are_lines(c);
    lemma_lines_text(config_lines(c));
    let lines = lines_of(encode_utf8(config_text(c)));
    assert(lines.take(0) =~= Seq::<Seq<u8>>::empty());
    lemma_config_read_0_5(c, lines);
    lemma_config_read_5_10(c, lines);
    lemma_config_read_10_15(c, lines);
    lemma_config_read_15_20(c, lines);
    lemma_config_read_20_25(c, lines);
    lemma_config_read_25_29(c, lines);
    assert(lines.take(29) =~= lines);
}

} // verus!
