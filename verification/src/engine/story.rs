//! The story director: the scene table, scene selection, the day cycle and the per-scene
//! island state (tide, night, raft, holiday, position).
//!
//! This is pure decision logic: it produces a [`StoryRun`] (which `.ADS` scenes to play, in
//! order, with the island state) for the ADS scheduler. Date, time and randomness are
//! passed in, so every plan is deterministic.
use vstd::prelude::*;
use crate::engine::rng::{Rng, draw, xorshift};
use vstd::string::StringSliceAdditionalSpecFns;

verus! {

/// The climactic scene of a run.
pub const FINAL: u8 = 0x01;
/// A scene with no walk-in lead-up.
pub const FIRST: u8 = 0x02;
/// A scene that takes place on the island (vs. a cutaway).
pub const ISLAND: u8 = 0x04;
/// The island is drawn shifted fully to the left.
pub const LEFT_ISLAND: u8 = 0x08;
/// The island position may be randomised.
pub const VARPOS_OK: u8 = 0x10;
/// Low tide is allowed for this scene.
pub const LOWTIDE_OK: u8 = 0x20;
/// The raft must not be shown.
pub const NORAFT: u8 = 0x40;
/// Holiday props must not be drawn (e.g. the cargo ship fills the screen).
pub const HOLIDAY_NOK: u8 = 0x80;

/// Island spot A.
pub const SPOT_A: u8 = 0;
/// Island spot B.
pub const SPOT_B: u8 = 1;
/// Island spot C.
pub const SPOT_C: u8 = 2;
/// Island spot D.
pub const SPOT_D: u8 = 3;
/// Island spot E.
pub const SPOT_E: u8 = 4;
/// Island spot F.
pub const SPOT_F: u8 = 5;

/// Heading: south.
pub const HDG_S: u8 = 0;
/// Heading: south-west.
pub const HDG_SW: u8 = 1;
/// Heading: west.
pub const HDG_W: u8 = 2;
/// Heading: north-west.
pub const HDG_NW: u8 = 3;
/// Heading: north.
pub const HDG_N: u8 = 4;
/// Heading: north-east.
pub const HDG_NE: u8 = 5;
/// Heading: east.
pub const HDG_E: u8 = 6;
/// Heading: south-east.
pub const HDG_SE: u8 = 7;

/// One entry of the story scene table.
#[derive(Debug, Clone, Copy, PartialEq, Eq)]
pub struct StoryScene {
    /// The `.ADS` resource that plays this scene.
    pub ads_name: &'static str,
    /// The sequence tag within the `.ADS`.
    pub ads_tag: u16,
    /// Spot Johnny starts at (for walk-in).
    pub spot_start: u8,
    /// Heading Johnny faces at the start.
    pub hdg_start: u8,
    /// Spot Johnny ends at.
    pub spot_end: u8,
    /// Heading Johnny faces at the end.
    pub hdg_end: u8,
    /// Story day this scene is tied to (0 = any day).
    pub day: u8,
    /// Behaviour flags (see the `FINAL`/`ISLAND`/… constants).
    pub flags: u8,
}

/// A table entry built from its fields.
pub open spec fn scene(
    ads_name: &'static str,
    ads_tag: u16,
    spot_start: u8,
    hdg_start: u8,
    spot_end: u8,
    hdg_end: u8,
    day: u8,
    flags: u8,
) -> StoryScene {
    StoryScene { ads_name, ads_tag, spot_start, hdg_start, spot_end, hdg_end, day, flags }
}

fn sc(
    ads_name: &'static str,
    ads_tag: u16,
    spot_start: u8,
    hdg_start: u8,
    spot_end: u8,
    hdg_end: u8,
    day: u8,
    flags: u8,
) -> (s: StoryScene)
    ensures
        s == scene(ads_name, ads_tag, spot_start, hdg_start, spot_end, hdg_end, day, flags),
{
    StoryScene { ads_name, ads_tag, spot_start, hdg_start, spot_end, hdg_end, day, flags }
}

/// The full story scene table.
pub open spec fn story_table() -> Seq<StoryScene> {
    seq![
        scene("ACTIVITY.ADS", 1, SPOT_E, HDG_SE, SPOT_A, HDG_S, 0, ISLAND | FINAL | VARPOS_OK),
        scene("ACTIVITY.ADS", 12, SPOT_D, HDG_SW, SPOT_A, HDG_S, 0, ISLAND | FINAL | VARPOS_OK | LOWTIDE_OK),
        scene("ACTIVITY.ADS", 11, SPOT_A, HDG_S, SPOT_A, HDG_S, 0, ISLAND | FINAL | FIRST | VARPOS_OK),
        scene("ACTIVITY.ADS", 10, SPOT_D, HDG_SW, SPOT_A, HDG_S, 0, ISLAND | FINAL | VARPOS_OK | LOWTIDE_OK),
        scene("ACTIVITY.ADS", 4, SPOT_E, HDG_SE, SPOT_E, HDG_SE, 0, ISLAND | VARPOS_OK | LOWTIDE_OK),
        scene("ACTIVITY.ADS", 5, SPOT_E, HDG_SW, SPOT_A, HDG_S, 0, ISLAND | FINAL | VARPOS_OK | LOWTIDE_OK),
        scene("ACTIVITY.ADS", 6, SPOT_D, HDG_SW, SPOT_A, HDG_S, 0, ISLAND | FINAL | VARPOS_OK),
        scene("ACTIVITY.ADS", 7, SPOT_D, HDG_SW, SPOT_F, HDG_SW, 0, ISLAND | VARPOS_OK | LOWTIDE_OK),
        scene("ACTIVITY.ADS", 8, SPOT_A, HDG_S, SPOT_D, HDG_SE, 0, ISLAND | FIRST | VARPOS_OK),
        scene("ACTIVITY.ADS", 9, SPOT_E, HDG_E, SPOT_A, HDG_S, 0, ISLAND | FINAL | LOWTIDE_OK),
        scene("BUILDING.ADS", 1, SPOT_F, HDG_W, SPOT_A, HDG_W, 0, ISLAND | VARPOS_OK | LOWTIDE_OK),
        scene("BUILDING.ADS", 4, SPOT_A, HDG_E, SPOT_A, HDG_S, 0, ISLAND | FINAL | VARPOS_OK),
        scene("BUILDING.ADS", 3, SPOT_A, HDG_E, SPOT_C, HDG_SE, 0, ISLAND | VARPOS_OK | LOWTIDE_OK),
        scene("BUILDING.ADS", 2, SPOT_F, HDG_W, SPOT_A, HDG_S, 0, ISLAND | FINAL | VARPOS_OK),
        scene("BUILDING.ADS", 5, SPOT_D, HDG_W, SPOT_D, HDG_E, 0, ISLAND | VARPOS_OK | LOWTIDE_OK),
        scene("BUILDING.ADS", 7, SPOT_D, HDG_W, SPOT_D, HDG_E, 0, ISLAND | VARPOS_OK | LOWTIDE_OK),
        scene("BUILDING.ADS", 6, SPOT_A, HDG_E, SPOT_A, HDG_S, 0, ISLAND | FINAL | VARPOS_OK),
        scene("FISHING.ADS", 1, SPOT_D, HDG_W, SPOT_D, HDG_E, 0, ISLAND | VARPOS_OK | LOWTIDE_OK),
        scene("FISHING.ADS", 2, SPOT_D, HDG_W, SPOT_D, HDG_E, 0, ISLAND | VARPOS_OK | LOWTIDE_OK),
        scene("FISHING.ADS", 3, SPOT_D, HDG_W, SPOT_A, HDG_S, 0, ISLAND | FINAL | VARPOS_OK | LOWTIDE_OK),
        scene("FISHING.ADS", 4, SPOT_E, HDG_E, SPOT_A, HDG_S, 0, ISLAND | FINAL | LEFT_ISLAND | LOWTIDE_OK),
        scene("FISHING.ADS", 5, SPOT_E, HDG_E, SPOT_A, HDG_S, 0, ISLAND | FINAL | VARPOS_OK),
        scene("FISHING.ADS", 6, SPOT_D, HDG_W, SPOT_A, HDG_S, 0, ISLAND | FINAL | LOWTIDE_OK),
        scene("FISHING.ADS", 7, SPOT_E, HDG_E, SPOT_E, HDG_W, 0, ISLAND | LEFT_ISLAND | VARPOS_OK | LOWTIDE_OK),
        scene("FISHING.ADS", 8, SPOT_E, HDG_E, SPOT_E, HDG_W, 0, ISLAND | LEFT_ISLAND | VARPOS_OK | LOWTIDE_OK),
        scene("JOHNNY.ADS", 1, SPOT_A, HDG_S, SPOT_A, HDG_S, 11, FINAL | FIRST),
        scene("JOHNNY.ADS", 2, SPOT_E, HDG_SW, SPOT_F, HDG_S, 2, ISLAND | FINAL | VARPOS_OK),
        scene("JOHNNY.ADS", 3, SPOT_E, HDG_SW, SPOT_F, HDG_NE, 6, ISLAND | VARPOS_OK | LOWTIDE_OK),
        scene("JOHNNY.ADS", 4, SPOT_E, HDG_SW, SPOT_F, HDG_NE, 0, ISLAND | VARPOS_OK),
        scene("JOHNNY.ADS", 5, SPOT_E, HDG_SW, SPOT_F, HDG_NE, 0, ISLAND | VARPOS_OK),
        scene("JOHNNY.ADS", 6, SPOT_A, HDG_S, SPOT_A, HDG_S, 10, FINAL | FIRST),
        scene("MARY.ADS", 1, SPOT_E, HDG_SW, SPOT_A, HDG_S, 5, ISLAND | FINAL | VARPOS_OK | LOWTIDE_OK),
        scene("MARY.ADS", 3, SPOT_F, HDG_SW, SPOT_A, HDG_S, 4, ISLAND | FINAL | FIRST | VARPOS_OK),
        scene("MARY.ADS", 2, SPOT_E, HDG_E, SPOT_A, HDG_S, 1, ISLAND | FINAL | VARPOS_OK),
        scene("MARY.ADS", 4, SPOT_E, HDG_E, SPOT_A, HDG_S, 7, ISLAND | FINAL | VARPOS_OK),
        scene("MARY.ADS", 5, SPOT_E, HDG_NW, SPOT_A, HDG_S, 8, ISLAND | LEFT_ISLAND | FINAL | FIRST | NORAFT | VARPOS_OK),
        scene("MISCGAG.ADS", 1, SPOT_D, HDG_W, SPOT_A, HDG_S, 0, ISLAND | FINAL | VARPOS_OK | LOWTIDE_OK),
        scene("MISCGAG.ADS", 2, SPOT_D, HDG_W, SPOT_A, HDG_S, 0, ISLAND | FINAL | VARPOS_OK),
        scene("STAND.ADS", 1, SPOT_A, HDG_SW, SPOT_A, HDG_SW, 0, ISLAND | VARPOS_OK | LOWTIDE_OK),
        scene("STAND.ADS", 2, SPOT_A, HDG_W, SPOT_A, HDG_W, 0, ISLAND | VARPOS_OK | LOWTIDE_OK),
        scene("STAND.ADS", 3, SPOT_A, HDG_NW, SPOT_A, HDG_NW, 0, ISLAND | VARPOS_OK | LOWTIDE_OK),
        scene("STAND.ADS", 4, SPOT_B, HDG_SW, SPOT_B, HDG_SW, 0, ISLAND | VARPOS_OK | LOWTIDE_OK),
        scene("STAND.ADS", 5, SPOT_B, HDG_S, SPOT_B, HDG_S, 0, ISLAND | VARPOS_OK | LOWTIDE_OK),
        scene("STAND.ADS", 6, SPOT_B, HDG_SE, SPOT_B, HDG_SE, 0, ISLAND | VARPOS_OK | LOWTIDE_OK),
        scene("STAND.ADS", 7, SPOT_C, HDG_NE, SPOT_C, HDG_NE, 0, ISLAND | VARPOS_OK | LOWTIDE_OK),
        scene("STAND.ADS", 8, SPOT_C, HDG_E, SPOT_C, HDG_E, 0, ISLAND | VARPOS_OK | LOWTIDE_OK),
        scene("STAND.ADS", 9, SPOT_D, HDG_NW, SPOT_D, HDG_NW, 0, ISLAND | VARPOS_OK | LOWTIDE_OK),
        scene("STAND.ADS", 10, SPOT_D, HDG_NE, SPOT_D, HDG_NE, 0, ISLAND | VARPOS_OK | LOWTIDE_OK),
        scene("STAND.ADS", 11, SPOT_E, HDG_NW, SPOT_E, HDG_NW, 0, ISLAND | VARPOS_OK | LOWTIDE_OK),
        scene("STAND.ADS", 12, SPOT_F, HDG_S, SPOT_F, HDG_S, 0, ISLAND | VARPOS_OK | LOWTIDE_OK),
        scene("STAND.ADS", 15, SPOT_A, HDG_S, SPOT_A, HDG_S, 0, ISLAND | VARPOS_OK | LOWTIDE_OK),
        scene("STAND.ADS", 16, SPOT_C, HDG_S, SPOT_C, HDG_S, 0, ISLAND | VARPOS_OK | LOWTIDE_OK),
        scene("SUZY.ADS", 1, SPOT_A, HDG_S, SPOT_A, HDG_S, 3, FINAL | FIRST),
        scene("SUZY.ADS", 2, SPOT_A, HDG_S, SPOT_A, HDG_S, 9, FINAL | FIRST),
        scene("VISITOR.ADS", 1, SPOT_A, HDG_S, SPOT_A, HDG_S, 0, ISLAND | LOWTIDE_OK),
        scene("VISITOR.ADS", 3, SPOT_B, HDG_NW, SPOT_D, HDG_S, 0, ISLAND | FINAL | HOLIDAY_NOK),
        scene("VISITOR.ADS", 4, SPOT_D, HDG_S, SPOT_D, HDG_W, 0, ISLAND | VARPOS_OK | LOWTIDE_OK),
        scene("VISITOR.ADS", 6, SPOT_D, HDG_S, SPOT_D, HDG_SW, 0, ISLAND | VARPOS_OK | LOWTIDE_OK),
        scene("VISITOR.ADS", 7, SPOT_D, HDG_S, SPOT_D, HDG_SW, 0, ISLAND | VARPOS_OK | LOWTIDE_OK),
        scene("VISITOR.ADS", 5, SPOT_E, HDG_SW, SPOT_A, HDG_S, 0, ISLAND | FINAL | LEFT_ISLAND | VARPOS_OK | LOWTIDE_OK),
        scene("WALKSTUF.ADS", 1, SPOT_A, HDG_NE, SPOT_A, HDG_S, 0, ISLAND | FINAL | LOWTIDE_OK),
        scene("WALKSTUF.ADS", 2, SPOT_E, HDG_E, SPOT_D, HDG_SE, 0, ISLAND | VARPOS_OK),
        scene("WALKSTUF.ADS", 3, SPOT_D, HDG_W, SPOT_E, HDG_W, 0, ISLAND | VARPOS_OK | LOWTIDE_OK),
    ]
}

/// The full story scene table, as a vector.
pub fn story_scenes() -> (v: Vec<StoryScene>)
    ensures
        v@ == story_table(),
{
    vec![
        sc("ACTIVITY.ADS", 1, SPOT_E, HDG_SE, SPOT_A, HDG_S, 0, ISLAND | FINAL | VARPOS_OK),
        sc("ACTIVITY.ADS", 12, SPOT_D, HDG_SW, SPOT_A, HDG_S, 0, ISLAND | FINAL | VARPOS_OK | LOWTIDE_OK),
        sc("ACTIVITY.ADS", 11, SPOT_A, HDG_S, SPOT_A, HDG_S, 0, ISLAND | FINAL | FIRST | VARPOS_OK),
        sc("ACTIVITY.ADS", 10, SPOT_D, HDG_SW, SPOT_A, HDG_S, 0, ISLAND | FINAL | VARPOS_OK | LOWTIDE_OK),
        sc("ACTIVITY.ADS", 4, SPOT_E, HDG_SE, SPOT_E, HDG_SE, 0, ISLAND | VARPOS_OK | LOWTIDE_OK),
        sc("ACTIVITY.ADS", 5, SPOT_E, HDG_SW, SPOT_A, HDG_S, 0, ISLAND | FINAL | VARPOS_OK | LOWTIDE_OK),
        sc("ACTIVITY.ADS", 6, SPOT_D, HDG_SW, SPOT_A, HDG_S, 0, ISLAND | FINAL | VARPOS_OK),
        sc("ACTIVITY.ADS", 7, SPOT_D, HDG_SW, SPOT_F, HDG_SW, 0, ISLAND | VARPOS_OK | LOWTIDE_OK),
        sc("ACTIVITY.ADS", 8, SPOT_A, HDG_S, SPOT_D, HDG_SE, 0, ISLAND | FIRST | VARPOS_OK),
        sc("ACTIVITY.ADS", 9, SPOT_E, HDG_E, SPOT_A, HDG_S, 0, ISLAND | FINAL | LOWTIDE_OK),
        sc("BUILDING.ADS", 1, SPOT_F, HDG_W, SPOT_A, HDG_W, 0, ISLAND | VARPOS_OK | LOWTIDE_OK),
        sc("BUILDING.ADS", 4, SPOT_A, HDG_E, SPOT_A, HDG_S, 0, ISLAND | FINAL | VARPOS_OK),
        sc("BUILDING.ADS", 3, SPOT_A, HDG_E, SPOT_C, HDG_SE, 0, ISLAND | VARPOS_OK | LOWTIDE_OK),
        sc("BUILDING.ADS", 2, SPOT_F, HDG_W, SPOT_A, HDG_S, 0, ISLAND | FINAL | VARPOS_OK),
        sc("BUILDING.ADS", 5, SPOT_D, HDG_W, SPOT_D, HDG_E, 0, ISLAND | VARPOS_OK | LOWTIDE_OK),
        sc("BUILDING.ADS", 7, SPOT_D, HDG_W, SPOT_D, HDG_E, 0, ISLAND | VARPOS_OK | LOWTIDE_OK),
        sc("BUILDING.ADS", 6, SPOT_A, HDG_E, SPOT_A, HDG_S, 0, ISLAND | FINAL | VARPOS_OK),
        sc("FISHING.ADS", 1, SPOT_D, HDG_W, SPOT_D, HDG_E, 0, ISLAND | VARPOS_OK | LOWTIDE_OK),
        sc("FISHING.ADS", 2, SPOT_D, HDG_W, SPOT_D, HDG_E, 0, ISLAND | VARPOS_OK | LOWTIDE_OK),
        sc("FISHING.ADS", 3, SPOT_D, HDG_W, SPOT_A, HDG_S, 0, ISLAND | FINAL | VARPOS_OK | LOWTIDE_OK),
        sc("FISHING.ADS", 4, SPOT_E, HDG_E, SPOT_A, HDG_S, 0, ISLAND | FINAL | LEFT_ISLAND | LOWTIDE_OK),
        sc("FISHING.ADS", 5, SPOT_E, HDG_E, SPOT_A, HDG_S, 0, ISLAND | FINAL | VARPOS_OK),
        sc("FISHING.ADS", 6, SPOT_D, HDG_W, SPOT_A, HDG_S, 0, ISLAND | FINAL | LOWTIDE_OK),
        sc("FISHING.ADS", 7, SPOT_E, HDG_E, SPOT_E, HDG_W, 0, ISLAND | LEFT_ISLAND | VARPOS_OK | LOWTIDE_OK),
        sc("FISHING.ADS", 8, SPOT_E, HDG_E, SPOT_E, HDG_W, 0, ISLAND | LEFT_ISLAND | VARPOS_OK | LOWTIDE_OK),
        sc("JOHNNY.ADS", 1, SPOT_A, HDG_S, SPOT_A, HDG_S, 11, FINAL | FIRST),
        sc("JOHNNY.ADS", 2, SPOT_E, HDG_SW, SPOT_F, HDG_S, 2, ISLAND | FINAL | VARPOS_OK),
        sc("JOHNNY.ADS", 3, SPOT_E, HDG_SW, SPOT_F, HDG_NE, 6, ISLAND | VARPOS_OK | LOWTIDE_OK),
        sc("JOHNNY.ADS", 4, SPOT_E, HDG_SW, SPOT_F, HDG_NE, 0, ISLAND | VARPOS_OK),
        sc("JOHNNY.ADS", 5, SPOT_E, HDG_SW, SPOT_F, HDG_NE, 0, ISLAND | VARPOS_OK),
        sc("JOHNNY.ADS", 6, SPOT_A, HDG_S, SPOT_A, HDG_S, 10, FINAL | FIRST),
        sc("MARY.ADS", 1, SPOT_E, HDG_SW, SPOT_A, HDG_S, 5, ISLAND | FINAL | VARPOS_OK | LOWTIDE_OK),
        sc("MARY.ADS", 3, SPOT_F, HDG_SW, SPOT_A, HDG_S, 4, ISLAND | FINAL | FIRST | VARPOS_OK),
        sc("MARY.ADS", 2, SPOT_E, HDG_E, SPOT_A, HDG_S, 1, ISLAND | FINAL | VARPOS_OK),
        sc("MARY.ADS", 4, SPOT_E, HDG_E, SPOT_A, HDG_S, 7, ISLAND | FINAL | VARPOS_OK),
        sc("MARY.ADS", 5, SPOT_E, HDG_NW, SPOT_A, HDG_S, 8, ISLAND | LEFT_ISLAND | FINAL | FIRST | NORAFT | VARPOS_OK),
        sc("MISCGAG.ADS", 1, SPOT_D, HDG_W, SPOT_A, HDG_S, 0, ISLAND | FINAL | VARPOS_OK | LOWTIDE_OK),
        sc("MISCGAG.ADS", 2, SPOT_D, HDG_W, SPOT_A, HDG_S, 0, ISLAND | FINAL | VARPOS_OK),
        sc("STAND.ADS", 1, SPOT_A, HDG_SW, SPOT_A, HDG_SW, 0, ISLAND | VARPOS_OK | LOWTIDE_OK),
        sc("STAND.ADS", 2, SPOT_A, HDG_W, SPOT_A, HDG_W, 0, ISLAND | VARPOS_OK | LOWTIDE_OK),
        sc("STAND.ADS", 3, SPOT_A, HDG_NW, SPOT_A, HDG_NW, 0, ISLAND | VARPOS_OK | LOWTIDE_OK),
        sc("STAND.ADS", 4, SPOT_B, HDG_SW, SPOT_B, HDG_SW, 0, ISLAND | VARPOS_OK | LOWTIDE_OK),
        sc("STAND.ADS", 5, SPOT_B, HDG_S, SPOT_B, HDG_S, 0, ISLAND | VARPOS_OK | LOWTIDE_OK),
        sc("STAND.ADS", 6, SPOT_B, HDG_SE, SPOT_B, HDG_SE, 0, ISLAND | VARPOS_OK | LOWTIDE_OK),
        sc("STAND.ADS", 7, SPOT_C, HDG_NE, SPOT_C, HDG_NE, 0, ISLAND | VARPOS_OK | LOWTIDE_OK),
        sc("STAND.ADS", 8, SPOT_C, HDG_E, SPOT_C, HDG_E, 0, ISLAND | VARPOS_OK | LOWTIDE_OK),
        sc("STAND.ADS", 9, SPOT_D, HDG_NW, SPOT_D, HDG_NW, 0, ISLAND | VARPOS_OK | LOWTIDE_OK),
        sc("STAND.ADS", 10, SPOT_D, HDG_NE, SPOT_D, HDG_NE, 0, ISLAND | VARPOS_OK | LOWTIDE_OK),
        sc("STAND.ADS", 11, SPOT_E, HDG_NW, SPOT_E, HDG_NW, 0, ISLAND | VARPOS_OK | LOWTIDE_OK),
        sc("STAND.ADS", 12, SPOT_F, HDG_S, SPOT_F, HDG_S, 0, ISLAND | VARPOS_OK | LOWTIDE_OK),
        sc("STAND.ADS", 15, SPOT_A, HDG_S, SPOT_A, HDG_S, 0, ISLAND | VARPOS_OK | LOWTIDE_OK),
        sc("STAND.ADS", 16, SPOT_C, HDG_S, SPOT_C, HDG_S, 0, ISLAND | VARPOS_OK | LOWTIDE_OK),
        sc("SUZY.ADS", 1, SPOT_A, HDG_S, SPOT_A, HDG_S, 3, FINAL | FIRST),
        sc("SUZY.ADS", 2, SPOT_A, HDG_S, SPOT_A, HDG_S, 9, FINAL | FIRST),
        sc("VISITOR.ADS", 1, SPOT_A, HDG_S, SPOT_A, HDG_S, 0, ISLAND | LOWTIDE_OK),
        sc("VISITOR.ADS", 3, SPOT_B, HDG_NW, SPOT_D, HDG_S, 0, ISLAND | FINAL | HOLIDAY_NOK),
        sc("VISITOR.ADS", 4, SPOT_D, HDG_S, SPOT_D, HDG_W, 0, ISLAND | VARPOS_OK | LOWTIDE_OK),
        sc("VISITOR.ADS", 6, SPOT_D, HDG_S, SPOT_D, HDG_SW, 0, ISLAND | VARPOS_OK | LOWTIDE_OK),
        sc("VISITOR.ADS", 7, SPOT_D, HDG_S, SPOT_D, HDG_SW, 0, ISLAND | VARPOS_OK | LOWTIDE_OK),
        sc("VISITOR.ADS", 5, SPOT_E, HDG_SW, SPOT_A, HDG_S, 0, ISLAND | FINAL | LEFT_ISLAND | VARPOS_OK | LOWTIDE_OK),
        sc("WALKSTUF.ADS", 1, SPOT_A, HDG_NE, SPOT_A, HDG_S, 0, ISLAND | FINAL | LOWTIDE_OK),
        sc("WALKSTUF.ADS", 2, SPOT_E, HDG_E, SPOT_D, HDG_SE, 0, ISLAND | VARPOS_OK),
        sc("WALKSTUF.ADS", 3, SPOT_D, HDG_W, SPOT_E, HDG_W, 0, ISLAND | VARPOS_OK | LOWTIDE_OK),
    ]
}

/// A commemorative day.
#[derive(Debug, Clone, Copy, PartialEq, Eq, Structural)]
pub enum Holiday {
    /// No holiday.
    NoHoliday,
    /// Halloween (Oct 29–31).
    Halloween,
    /// St Patrick's Day (Mar 15–17).
    StPatrick,
    /// Christmas (Dec 23–25).
    Christmas,
    /// New Year (Dec 29–Jan 1).
    NewYear,
}

/// The environment state for a run's island.
#[derive(Debug, Clone, Copy, PartialEq, Eq, Structural)]
pub struct IslandState {
    /// Whether the tide is low.
    pub low_tide: bool,
    /// Whether it is night.
    pub night: bool,
    /// Raft build stage (0–5).
    pub raft: u8,
    /// Active holiday, if any.
    pub holiday: Holiday,
    /// Island X offset.
    pub x_pos: i32,
    /// Island Y offset.
    pub y_pos: i32,
}

/// One scene to play within a [`StoryRun`].
#[derive(Debug, Clone, Copy, PartialEq, Eq)]
pub struct ScenePlay {
    /// The `.ADS` resource name.
    pub ads_name: &'static str,
    /// The sequence tag.
    pub ads_tag: u16,
    /// `(spot, heading)` Johnny walks from (None for the first scene of the run).
    pub walk_from: Option<(u8, u8)>,
    /// `(spot, heading)` Johnny walks to (None for cutaway scenes off the island).
    pub walk_to: Option<(u8, u8)>,
    /// Whether this scene is a scripted day beat (plays the transition sound).
    pub day_beat: bool,
    /// Whether this scene uses the left-shifted island.
    pub left_island: bool,
}

/// A planned story run: the island state and the ordered scenes to play.
#[derive(Debug, Clone, PartialEq, Eq)]
pub struct StoryRun {
    /// Whether the climactic scene takes place on the island.
    pub on_island: bool,
    /// The island environment for the run.
    pub island: IslandState,
    /// The scenes to play, in order (the climactic scene is last).
    pub scenes: Vec<ScenePlay>,
}

/// Night falls on two hours of every eight-hour cycle.
pub open spec fn night_hour(hour: u8) -> bool {
    hour % 8 == 0 || hour % 8 == 7
}

/// Whether the given hour is night (the clock runs an eight-hour cycle).
pub fn is_night(hour: u8) -> (b: bool)
    ensures
        b == night_hour(hour),
{
    let h = hour % 8;
    h == 0 || h == 7
}

/// The raft build stage reached on a story day.
pub open spec fn raft_stage(day: u8) -> u8 {
    if day <= 2 {
        1
    } else if day == 3 {
        2
    } else if day == 4 {
        3
    } else if day == 5 {
        4
    } else {
        5
    }
}

/// The raft build stage for a story day.
pub fn raft_for_day(day: u8) -> (r: u8)
    ensures
        r == raft_stage(day),
        1 <= r <= 5,
{
    match day {
        0..=2 => 1,
        3 => 2,
        4 => 3,
        5 => 4,
        _ => 5,
    }
}

/// The holiday of a month and day, by their `MMDD` number.
pub open spec fn holiday_of(month: u8, day: u8) -> Holiday {
    let mmdd = month * 100 + day;
    if 1028 < mmdd && mmdd < 1101 {
        Holiday::Halloween
    } else if 314 < mmdd && mmdd < 318 {
        Holiday::StPatrick
    } else if 1222 < mmdd && mmdd < 1226 {
        Holiday::Christmas
    } else if !(102 <= mmdd && mmdd <= 1228) {
        Holiday::NewYear
    } else {
        Holiday::NoHoliday
    }
}

/// The holiday active on `month`/`day`.
pub fn holiday_for_date(month: u8, day: u8) -> (h: Holiday)
    ensures
        h == holiday_of(month, day),
{
    let mmdd: i32 = month as i32 * 100 + day as i32;
    if 1028 < mmdd && mmdd < 1101 {
        Holiday::Halloween
    } else if 314 < mmdd && mmdd < 318 {
        Holiday::StPatrick
    } else if 1222 < mmdd && mmdd < 1226 {
        Holiday::Christmas
    } else if !(102 <= mmdd && mmdd <= 1228) {
        Holiday::NewYear
    } else {
        Holiday::NoHoliday
    }
}

/// Whether `s` carries every `wanted` flag, no `unwanted` flag, and belongs to `day`
/// (or to any day).
pub open spec fn scene_fits(s: StoryScene, day: u8, wanted: u8, unwanted: u8) -> bool {
    &&& (s.flags & wanted) == wanted
    &&& (s.flags & unwanted) == 0
    &&& (s.day == 0 || s.day == day)
}

/// The table scenes that fit, in table order.
pub open spec fn candidates(day: u8, wanted: u8, unwanted: u8) -> Seq<StoryScene> {
    story_table().filter(|s: StoryScene| scene_fits(s, day, wanted, unwanted))
}

/// The index that one draw from state `st` picks among `n` choices.
pub open spec fn pick_index(st: u64, n: nat) -> int {
    (draw(st) as int) % (n as int)
}

/// Pick a uniformly random scene that fits the flag and day constraints: the draw
/// `rng.below(n)` over the `n` fitting scenes, in table order.
pub fn pick_scene(day: u8, wanted: u8, unwanted: u8, rng: &mut Rng) -> (r: Option<StoryScene>)
    ensures
        candidates(day, wanted, unwanted).len() == 0 ==> r is None && final(rng).state() == old(
            rng,
        ).state(),
        candidates(day, wanted, unwanted).len() > 0 ==> {
            &&& r == Some(
                candidates(day, wanted, unwanted)[pick_index(
                    old(rng).state(),
                    candidates(day, wanted, unwanted).len(),
                )],
            )
            &&& final(rng).state() == xorshift(old(rng).state())
        },
        r matches Some(s) ==> scene_fits(s, day, wanted, unwanted) && story_table().contains(s),
{
    let table = story_scenes();
    let ghost pred = |s: StoryScene| scene_fits(s, day, wanted, unwanted);
    let mut matches: Vec<StoryScene> = Vec::new();
    let mut i: usize = 0;
    while i < table.len()
        invariant
            i <= table@.len(),
            table@ == story_table(),
            pred == (|s: StoryScene| scene_fits(s, day, wanted, unwanted)),
            matches@ == table@.take(i as int).filter(pred),
            matches@.len() <= i,
        decreases table.len() - i,
    {
        let s = table[i];
        proof {
            assert(table@.take(i + 1).drop_last() =~= table@.take(i as int));
            reveal(Seq::filter);
        }
        if (s.flags & wanted) == wanted && (s.flags & unwanted) == 0 && (s.day == 0 || s.day == day) {
            matches.push(s);
        }
        i = i + 1;
    }
    proof {
        assert(table@.take(table@.len() as int) =~= table@);
    }
    if matches.len() == 0 {
        None
    } else {
        let k = rng.below(matches.len() as u32) as usize;
        let s = matches[k];
        proof {
            table@.filter_lemma(pred);
            assert(pred(matches@[k as int]));
            table@.lemma_filter_contains_rev(pred, s);
        }
        Some(s)
    }
}

/// Whether `(x, y)` is a position that a randomised island can take: one of three
/// boxes of the 1992 placement table.
pub open spec fn varpos_in_range(x: i32, y: i32) -> bool {
    ||| (-222 <= x <= -114 && -44 <= y <= 83)
    ||| (-114 <= x <= 19 && -14 <= y <= 84)
    ||| (-114 <= x <= 4 && -73 <= y <= -14)
}

/// What holds of the island state computed for `scene` on story day `day`.
pub open spec fn island_fits(st: IslandState, scene: StoryScene, day: u8, holiday: Holiday, night: bool) -> bool {
    &&& st.night == night
    &&& st.low_tide ==> (scene.flags & LOWTIDE_OK) != 0
    &&& st.raft == (if (scene.flags & NORAFT) != 0 { 0 } else { raft_stage(day) })
    &&& st.holiday == (if (scene.flags & HOLIDAY_NOK) != 0 { Holiday::NoHoliday } else { holiday })
    &&& (scene.flags & VARPOS_OK) != 0 ==> varpos_in_range(st.x_pos, st.y_pos)
    &&& (scene.flags & VARPOS_OK) == 0 && (scene.flags & LEFT_ISLAND) != 0 ==> st.x_pos == -272 && st.y_pos == 0
    &&& (scene.flags & VARPOS_OK) == 0 && (scene.flags & LEFT_ISLAND) == 0 ==> st.x_pos == 0 && st.y_pos == 0
}

/// Where a randomised island goes, from generator state `r`, and the state after: one
/// of three boxes of the 1992 placement table, then a spot within it.
pub open spec fn varpos_spec(r: u64) -> ((i32, i32), u64) {
    let r1 = xorshift(r);
    let r2 = xorshift(r1);
    let r3 = xorshift(r2);
    let r4 = xorshift(r3);
    if draw(r) % 2 == 1 {
        let x: int = -222 + draw(r1) % 109;
        let y: int = -44 + draw(r2) % 128;
        ((x as i32, y as i32), r3)
    } else if draw(r1) % 2 == 1 {
        let x: int = -114 + draw(r2) % 134;
        let y: int = -14 + draw(r3) % 99;
        ((x as i32, y as i32), r4)
    } else {
        let x: int = -114 + draw(r2) % 119;
        let y: int = -73 + draw(r3) % 60;
        ((x as i32, y as i32), r4)
    }
}

/// The island state computed for `scene` on story day `day` from generator state `r`,
/// and the state after: a tide coin flip where low tide is allowed, a random position
/// where the scene may move the island (the left spot, or the middle, otherwise), the
/// raft stage and the holiday unless the scene forbids them.
pub open spec fn island_spec(scene: StoryScene, day: u8, holiday: Holiday, night: bool, r: u64) -> (IslandState, u64) {
    let (low_tide, r1) = if (scene.flags & LOWTIDE_OK) != 0 {
        (draw(r) % 2 == 1, xorshift(r))
    } else {
        (false, r)
    };
    let (pos, r2) = if (scene.flags & VARPOS_OK) != 0 {
        varpos_spec(r1)
    } else if (scene.flags & LEFT_ISLAND) != 0 {
        ((-272i32, 0i32), r1)
    } else {
        ((0i32, 0i32), r1)
    };
    (
        IslandState {
            low_tide,
            night,
            raft: if (scene.flags & NORAFT) != 0 { 0 } else { raft_stage(day) },
            holiday: if (scene.flags & HOLIDAY_NOK) != 0 { Holiday::NoHoliday } else { holiday },
            x_pos: pos.0,
            y_pos: pos.1,
        },
        r2,
    )
}

/// Compute the island state for a chosen scene: a tide coin flip where low tide is
/// allowed, a random position where the scene may move the island, the raft stage
/// and the holiday unless the scene forbids them.
pub fn island_from_scene(
    scene: &StoryScene,
    day: u8,
    holiday: Holiday,
    night: bool,
    rng: &mut Rng,
) -> (st: IslandState)
    ensures
        (st, final(rng).state()) == island_spec(*scene, day, holiday, night, old(rng).state()),
        island_fits(st, *scene, day, holiday, night),
{
    let low_tide = if scene.flags & LOWTIDE_OK != 0 {
        rng.below(2) == 1
    } else {
        false
    };
    let (x_pos, y_pos) = if scene.flags & VARPOS_OK != 0 {
        if rng.below(2) == 1 {
            let a = rng.below(109) as i32;
            let b = rng.below(128) as i32;
            (-222 + a, -44 + b)
        } else if rng.below(2) == 1 {
            let a = rng.below(134) as i32;
            let b = rng.below(99) as i32;
            (-114 + a, -14 + b)
        } else {
            let a = rng.below(119) as i32;
            let b = rng.below(60) as i32;
            (-114 + a, -73 + b)
        }
    } else if scene.flags & LEFT_ISLAND != 0 {
        (-272i32, 0i32)
    } else {
        (0i32, 0i32)
    };
    let raft = if scene.flags & NORAFT != 0 {
        0
    } else {
        raft_for_day(day)
    };
    let holiday = if scene.flags & HOLIDAY_NOK != 0 {
        Holiday::NoHoliday
    } else {
        holiday
    };
    IslandState { low_tide, night, raft, holiday, x_pos, y_pos }
}

/// The story day after a calendar check: one more when the calendar day changed,
/// back to 1 when outside `1..=11`.
pub open spec fn next_story_day(current_day: u8, stored_yday: i32, today_yday: i32) -> u8 {
    let d = if today_yday != stored_yday { current_day + 1 } else { current_day as int };
    if 1 <= d <= 11 { d as u8 } else { 1 }
}

/// The play of table scene `s`, walking from `from`, and to its start spot unless it
/// is a cutaway.
pub open spec fn play_of(s: StoryScene, from: Option<(u8, u8)>, walks_in: bool) -> ScenePlay {
    ScenePlay {
        ads_name: s.ads_name,
        ads_tag: s.ads_tag,
        walk_from: from,
        walk_to: if walks_in { Some((s.spot_start, s.hdg_start)) } else { None },
        day_beat: s.day != 0,
        left_island: (s.flags & LEFT_ISLAND) != 0,
    }
}

/// The plays of a chain of chosen scenes: each walks from where the previous one
/// ended; all but the last walk in, and the last walks in when it is on the island.
pub open spec fn chain_plays(chosen: Seq<StoryScene>, on_island: bool) -> Seq<ScenePlay> {
    Seq::new(
        chosen.len(),
        |k: int|
            play_of(
                chosen[k],
                if k == 0 { None } else { Some((chosen[k - 1].spot_end, chosen[k - 1].hdg_end)) },
                k < chosen.len() - 1 || on_island,
            ),
    )
}

/// Whether `chosen` is a valid run on story day `day`: ambient scenes that are never
/// climactic, fit the island's tide and position, and after the first never need to
/// open a run; then one climactic scene of the day, alone when it opens runs.
pub open spec fn valid_chain(chosen: Seq<StoryScene>, day: u8, island: IslandState, on_island: bool) -> bool {
    let n = chosen.len();
    let last = chosen[n - 1];
    &&& 1 <= n <= 20
    &&& candidates(day, FINAL, 0).contains(last)
    &&& on_island == ((last.flags & ISLAND) != 0)
    &&& (last.flags & FIRST) != 0 ==> n == 1
    &&& forall|k: int| 0 <= k < n - 1 ==> ambient_ok(#[trigger] chosen[k], k, day, island)
}

/// Whether `s` may stand at place `k` of the ambient lead-up on story day `day`: a table
/// scene of the day that is never climactic, fits the island's tide and position, and
/// after the first place never needs to open a run.
pub open spec fn ambient_ok(s: StoryScene, k: int, day: u8, island: IslandState) -> bool {
    &&& story_table().contains(s)
    &&& scene_fits(s, day, 0, FINAL)
    &&& island.low_tide ==> (s.flags & LOWTIDE_OK) != 0
    &&& (island.x_pos != 0 || island.y_pos != 0) ==> (s.flags & VARPOS_OK) != 0
    &&& k > 0 ==> (s.flags & FIRST) == 0
}

/// The island of a run whose climax is a cutaway: high tide, no raft, no holiday, not
/// moved.
pub open spec fn cutaway_island(night: bool) -> IslandState {
    IslandState { low_tide: false, night, raft: 0, holiday: Holiday::NoHoliday, x_pos: 0, y_pos: 0 }
}

/// Whether `run` is the plan made of the chain `chosen` on story day `day`: the plays
/// of the chain, and the island of its climactic scene.
pub open spec fn planned_from(chosen: Seq<StoryScene>, run: StoryRun, day: u8, holiday: Holiday, night: bool) -> bool {
    &&& valid_chain(chosen, day, run.island, run.on_island)
    &&& run.scenes@ == chain_plays(chosen, run.on_island)
    &&& run.on_island ==> island_fits(run.island, chosen.last(), day, holiday, night)
    &&& !run.on_island ==> run.island == cutaway_island(night)
}

/// The ambient lead-up after `n` draws on story day `cur` from generator state `r`: the
/// scenes picked, the generator state after, and whether a draw found no fitting scene
/// (which ends the lead-up). The first scene may open a run; later ones may not.
pub open spec fn ambient_picks(cur: u8, wanted: u8, r: u64, n: nat) -> (Seq<StoryScene>, u64, bool)
    decreases n,
{
    if n == 0 {
        (Seq::empty(), r, false)
    } else {
        let prev = ambient_picks(cur, wanted, r, (n - 1) as nat);
        let unwanted: u8 = if n == 1 { FINAL } else { FINAL | FIRST };
        let c = candidates(cur, wanted, unwanted);
        if prev.2 || c.len() == 0 {
            (prev.0, prev.1, true)
        } else {
            (prev.0.push(c[pick_index(prev.1, c.len())]), xorshift(prev.1), false)
        }
    }
}

/// Once the lead-up has ended it stays as it is.
proof fn lemma_picks_stay(cur: u8, wanted: u8, r: u64, k: nat, m: nat)
    requires
        k <= m,
        ambient_picks(cur, wanted, r, k).2,
    ensures
        ambient_picks(cur, wanted, r, m) == ambient_picks(cur, wanted, r, k),
    decreases m - k,
{
    if k < m {
        lemma_picks_stay(cur, wanted, r, k, (m - 1) as nat);
    }
}

/// The run planned on story day `cur` from generator state `r0`: whether its climax is
/// on the island, the island, the chosen scenes (the climax last), and the generator
/// state after. The climax is drawn among the day's climactic scenes; unless it opens
/// runs, 6 to 19 ambient scenes that fit the island are drawn before it.
pub open spec fn plan_spec(cur: u8, night: bool, holiday: Holiday, r0: u64) -> (bool, IslandState, Seq<StoryScene>, u64) {
    let finals = candidates(cur, FINAL, 0);
    if finals.len() == 0 {
        (false, cutaway_island(night), Seq::empty(), r0)
    } else {
        let fs = finals[pick_index(r0, finals.len())];
        let r1 = xorshift(r0);
        let on = (fs.flags & ISLAND) != 0;
        let (isl, r2) = if on { island_spec(fs, cur, holiday, night, r1) } else { (cutaway_island(night), r1) };
        if (fs.flags & FIRST) == 0 {
            let count = 6 + draw(r2) % 14;
            let wanted: u8 = (if isl.low_tide { LOWTIDE_OK } else { 0u8 }) | (if isl.x_pos != 0
                || isl.y_pos != 0 { VARPOS_OK } else { 0u8 });
            let picks = ambient_picks(cur, wanted, xorshift(r2), count as nat);
            (on, isl, picks.0.push(fs), picks.1)
        } else {
            (on, isl, seq![fs], r2)
        }
    }
}

/// The story director: tracks the current day and plans runs.
#[derive(Debug, Clone)]
pub struct Director {
    /// Current story day (1–11).
    pub current_day: u8,
    /// Persisted day-of-year used to detect calendar changes.
    pub stored_yday: i32,
}

impl Director {
    /// Create a director at `current_day` with a stored day-of-year.
    pub fn new(current_day: u8, stored_yday: i32) -> (d: Self)
        ensures
            d.current_day == current_day,
            d.stored_yday == stored_yday,
    {
        Director { current_day, stored_yday }
    }

    /// Advance the story day if the calendar day changed; bring it back to 1 when
    /// outside `1..=11`. Returns whether anything changed.
    pub fn advance_day(&mut self, today_yday: i32) -> (changed: bool)
        requires
            today_yday != old(self).stored_yday ==> old(self).current_day < 255,
        ensures
            final(self).stored_yday == today_yday,
            final(self).current_day == next_story_day(
                old(self).current_day,
                old(self).stored_yday,
                today_yday,
            ),
            1 <= final(self).current_day <= 11,
            changed == (today_yday != old(self).stored_yday || old(self).current_day < 1
                || old(self).current_day > 11),
    {
        let mut changed = false;
        if today_yday != self.stored_yday {
            self.stored_yday = today_yday;
            self.current_day = self.current_day + 1;
            changed = true;
        }
        if self.current_day < 1 || self.current_day > 11 {
            self.current_day = 1;
            changed = true;
        }
        changed
    }

    /// Plan one run: pick the climactic scene, the ambient lead-up chain (with walking
    /// between spots), and the island state.
    pub fn plan_run(&mut self, today_yday: i32, hour: u8, month: u8, day: u8, rng: &mut Rng) -> (run: StoryRun)
        requires
            today_yday != old(self).stored_yday ==> old(self).current_day < 255,
        ensures
            final(self).stored_yday == today_yday,
            final(self).current_day == next_story_day(
                old(self).current_day,
                old(self).stored_yday,
                today_yday,
            ),
            run.island.night == night_hour(hour),
            ({
                let p = plan_spec(final(self).current_day, night_hour(hour), holiday_of(month, day), old(rng).state());
                &&& run.on_island == p.0
                &&& run.island == p.1
                &&& run.scenes@ == chain_plays(p.2, p.0)
                &&& final(rng).state() == p.3
            }),
            exists|chosen: Seq<StoryScene>|
                planned_from(
                    chosen,
                    run,
                    final(self).current_day,
                    holiday_of(month, day),
                    night_hour(hour),
                ),
            run.scenes@.len() == 1 || 7 <= run.scenes@.len() <= 20,
            run.scenes@[0].walk_from is None,
            !run.on_island ==> run.island.raft == 0 && run.island.holiday == Holiday::NoHoliday,
            from_table(run.scenes@.last(), true),
            forall|k: int| 0 <= k < run.scenes@.len() - 1 ==> from_table(#[trigger] run.scenes@[k], false),
    {
        self.advance_day(today_yday);
        let cur = self.current_day;
        let night = is_night(hour);
        let holiday = holiday_for_date(month, day);
        proof {
            lemma_final_scene_exists(cur);
        }
        let final_scene = match pick_scene(cur, FINAL, 0, rng) {
            Some(s) => s,
            None => {
                return StoryRun {
                    on_island: false,
                    island: IslandState {
                        low_tide: false,
                        night,
                        raft: 0,
                        holiday: Holiday::NoHoliday,
                        x_pos: 0,
                        y_pos: 0,
                    },
                    scenes: Vec::new(),
                };
            },
        };
        let on_island = final_scene.flags & ISLAND != 0;
        let island = if on_island {
            island_from_scene(&final_scene, cur, holiday, night, rng)
        } else {
            IslandState { low_tide: false, night, raft: 0, holiday: Holiday::NoHoliday, x_pos: 0, y_pos: 0 }
        };
        let mut scenes: Vec<ScenePlay> = Vec::new();
        let mut prev: Option<(u8, u8)> = None;
        let ghost mut chosen: Seq<StoryScene> = Seq::empty();
        let ghost r2 = rng.state();
        if final_scene.flags & FIRST == 0 {
            let count = 6 + rng.below(14);
            let ghost r3 = rng.state();
            let wanted: u8 = (if island.low_tide { LOWTIDE_OK } else { 0 }) | (if island.x_pos != 0
                || island.y_pos != 0 { VARPOS_OK } else { 0 });
            let mut unwanted: u8 = FINAL;
            let mut n: u32 = 0;
            while n < count
                invariant
                    n <= count,
                    count < 20,
                    chosen.len() == n,
                    scenes@ == chain_plays(chosen, true),
                    n == 0 ==> prev is None && unwanted == FINAL,
                    n > 0 ==> prev == Some((chosen[n - 1].spot_end, chosen[n - 1].hdg_end))
                        && unwanted == (FINAL | FIRST),
                    wanted == ((if island.low_tide { LOWTIDE_OK } else { 0u8 }) | (if island.x_pos != 0
                        || island.y_pos != 0 { VARPOS_OK } else { 0u8 })),
                    forall|k: int| 0 <= k < n ==> ambient_ok(#[trigger] chosen[k], k, cur, island),
                    (chosen, rng.state()) == (ambient_picks(cur, wanted, r3, n as nat).0, ambient_picks(cur, wanted, r3, n as nat).1),
                    !ambient_picks(cur, wanted, r3, n as nat).2,
                ensures
                    (chosen, rng.state()) == (ambient_picks(cur, wanted, r3, count as nat).0, ambient_picks(cur, wanted, r3, count as nat).1),
                decreases count - n,
            {
                let scene = match pick_scene(cur, wanted, unwanted, rng) {
                    Some(s) => s,
                    None => {
                        proof {
                            assert(ambient_picks(cur, wanted, r3, (n + 1) as nat).2);
                            lemma_picks_stay(cur, wanted, r3, (n + 1) as nat, count as nat);
                        }
                        break;
                    },
                };
                proof {
                    lemma_fits_parts(scene, cur, wanted, unwanted, island.low_tide, island.x_pos != 0 || island.y_pos != 0, n > 0);
                }
                scenes.push(ScenePlay {
                    ads_name: scene.ads_name,
                    ads_tag: scene.ads_tag,
                    walk_from: prev,
                    walk_to: Some((scene.spot_start, scene.hdg_start)),
                    day_beat: scene.day != 0,
                    left_island: scene.flags & LEFT_ISLAND != 0,
                });
                proof {
                    let old_chosen = chosen;
                    chosen = chosen.push(scene);
                    assert(scenes@ =~= chain_plays(chosen, true)) by {
                        assert forall|k: int| 0 <= k < chosen.len() implies scenes@[k] == chain_plays(chosen, true)[k] by {
                            if k < old_chosen.len() {
                                assert(chosen[k] == old_chosen[k]);
                                if k > 0 {
                                    assert(chosen[k - 1] == old_chosen[k - 1]);
                                }
                            }
                        }
                    }
                }
                unwanted = FINAL | FIRST;
                prev = Some((scene.spot_end, scene.hdg_end));
                n = n + 1;
            }
        }
        scenes.push(ScenePlay {
            ads_name: final_scene.ads_name,
            ads_tag: final_scene.ads_tag,
            walk_from: prev,
            walk_to: if on_island {
                Some((final_scene.spot_start, final_scene.hdg_start))
            } else {
                None
            },
            day_beat: final_scene.day != 0,
            left_island: final_scene.flags & LEFT_ISLAND != 0,
        });
        proof {
            let old_chosen = chosen;
            chosen = chosen.push(final_scene);
            assert(scenes@ =~= chain_plays(chosen, on_island)) by {
                assert forall|k: int| 0 <= k < chosen.len() implies scenes@[k] == chain_plays(chosen, on_island)[k] by {
                    if k < old_chosen.len() {
                        assert(chosen[k] == old_chosen[k]);
                        if k > 0 {
                            assert(chosen[k - 1] == old_chosen[k - 1]);
                        }
                    }
                }
            }
            assert(valid_chain(chosen, cur, island, on_island)) by {
                assert(chosen.last() == final_scene);
                assert forall|k: int| 0 <= k < chosen.len() - 1 implies #[trigger] chosen[k] == old_chosen[k] by {}
            }
        }
        let run = StoryRun { on_island, island, scenes };
        proof {
            assert(planned_from(chosen, run, cur, holiday, night));
            lemma_run_shape(run, cur, night, holiday, old(rng).state());
        }
        run
    }
}

/// Whether `play` plays a table scene that is climactic (`climax`) or not.
pub open spec fn from_table(play: ScenePlay, climax: bool) -> bool {
    exists|s: StoryScene|
        #![trigger story_table().contains(s)]
        story_table().contains(s) && s.ads_name == play.ads_name && s.ads_tag == play.ads_tag && ((
        s.flags & FINAL) != 0) == climax
}

/// What the shape of every planned run means for the plays of a run made from it.
proof fn lemma_run_shape(run: StoryRun, cur: u8, night: bool, holiday: Holiday, r0: u64)
    requires
        ({
            let p = plan_spec(cur, night, holiday, r0);
            &&& run.on_island == p.0
            &&& run.island == p.1
            &&& run.scenes@ == chain_plays(p.2, p.0)
        }),
    ensures
        run.scenes@.len() == 1 || 7 <= run.scenes@.len() <= 20,
        run.scenes@[0].walk_from is None,
        run.island.night == night,
        !run.on_island ==> run.island.raft == 0 && run.island.holiday == Holiday::NoHoliday,
        from_table(run.scenes@.last(), true),
        forall|k: int| 0 <= k < run.scenes@.len() - 1 ==> from_table(#[trigger] run.scenes@[k], false),
{
    lemma_plan_shape(cur, night, holiday, r0);
    let p = plan_spec(cur, night, holiday, r0);
    let n = p.2.len();
    assert(story_table().contains(p.2[n - 1]));
    assert(run.scenes@.last() == chain_plays(p.2, p.0)[n - 1]);
    assert forall|k: int| 0 <= k < run.scenes@.len() - 1 implies from_table(#[trigger] run.scenes@[k], false) by {
        assert(story_table().contains(p.2[k]));
        assert(run.scenes@[k] == chain_plays(p.2, p.0)[k]);
    }
}

/// Every story day `1..=11` has a climactic scene: the first table entry is climactic
/// and tied to no day.
proof fn lemma_final_scene_exists(day: u8)
    ensures
        candidates(day, FINAL, 0).len() > 0,
{
    let t = story_table();
    let pred = |s: StoryScene| scene_fits(s, day, FINAL, 0);
    assert((t[0].flags & FINAL) == FINAL) by {
        assert(((ISLAND | FINAL | VARPOS_OK) & FINAL) == FINAL) by (bit_vector);
    }
    assert((t[0].flags & 0) == 0) by {
        assert(((ISLAND | FINAL | VARPOS_OK) & 0u8) == 0u8) by (bit_vector);
    }
    assert(pred(t[0]));
    t.lemma_filter_contains(pred, 0);
}

/// Every ambient draw has a scene to pick: the table's fourth entry is tied to no day,
/// never climactic, never opens a run, and fits any tide and position.
proof fn lemma_ambient_candidate(day: u8, wanted: u8, unwanted: u8, low: bool, var: bool, later: bool)
    requires
        wanted == ((if low { LOWTIDE_OK } else { 0u8 }) | (if var { VARPOS_OK } else { 0u8 })),
        unwanted == (if later { FINAL | FIRST } else { FINAL }),
    ensures
        candidates(day, wanted, unwanted).len() > 0,
{
    let t = story_table();
    let pred = |s: StoryScene| scene_fits(s, day, wanted, unwanted);
    let f = t[4].flags;
    assert(f == (ISLAND | VARPOS_OK | LOWTIDE_OK));
    assert((f & (LOWTIDE_OK | VARPOS_OK)) == (LOWTIDE_OK | VARPOS_OK)) by (bit_vector)
        requires f == (ISLAND | VARPOS_OK | LOWTIDE_OK);
    assert((f & (LOWTIDE_OK | 0u8)) == (LOWTIDE_OK | 0u8)) by (bit_vector)
        requires f == (ISLAND | VARPOS_OK | LOWTIDE_OK);
    assert((f & (0u8 | VARPOS_OK)) == (0u8 | VARPOS_OK)) by (bit_vector)
        requires f == (ISLAND | VARPOS_OK | LOWTIDE_OK);
    assert((f & (0u8 | 0u8)) == (0u8 | 0u8)) by (bit_vector);
    assert((f & FINAL) == 0u8 && (f & (FINAL | FIRST)) == 0u8) by (bit_vector)
        requires f == (ISLAND | VARPOS_OK | LOWTIDE_OK);
    assert(pred(t[4]));
    t.filter_lemma(pred);
    assert(t.filter(pred).contains(t[4]));
}

/// The ambient lead-up always gets all `n` of its draws: each is a table scene that is
/// never climactic.
proof fn lemma_ambient_full(cur: u8, wanted: u8, r: u64, n: nat, low: bool, var: bool)
    requires
        wanted == ((if low { LOWTIDE_OK } else { 0u8 }) | (if var { VARPOS_OK } else { 0u8 })),
    ensures
        !ambient_picks(cur, wanted, r, n).2,
        ambient_picks(cur, wanted, r, n).0.len() == n,
        forall|k: int|
            0 <= k < n ==> story_table().contains(#[trigger] ambient_picks(cur, wanted, r, n).0[k])
                && (ambient_picks(cur, wanted, r, n).0[k].flags & FINAL) == 0,
    decreases n,
{
    if n > 0 {
        lemma_ambient_full(cur, wanted, r, (n - 1) as nat, low, var);
        let prev = ambient_picks(cur, wanted, r, (n - 1) as nat);
        let later = n != 1;
        let unwanted: u8 = if n == 1 { FINAL } else { FINAL | FIRST };
        lemma_ambient_candidate(cur, wanted, unwanted, low, var, later);
        let c = candidates(cur, wanted, unwanted);
        let pred = |s: StoryScene| scene_fits(s, cur, wanted, unwanted);
        let i = pick_index(prev.1, c.len());
        assert(0 <= i < c.len());
        story_table().filter_lemma(pred);
        let s = c[i];
        assert(pred(s));
        assert(c.contains(s));
        story_table().lemma_filter_contains_rev(pred, s);
        lemma_fits_parts(s, cur, wanted, unwanted, low, var, later);
        let f = s.flags;
        assert((f & 0u8) == 0u8) by (bit_vector);
        let next = ambient_picks(cur, wanted, r, n);
        assert(next.0 == prev.0.push(s));
        assert forall|k: int| 0 <= k < n implies story_table().contains(#[trigger] next.0[k])
            && (next.0[k].flags & FINAL) == 0 by {
            if k < n - 1 {
                assert(next.0[k] == prev.0[k]);
            }
        }
    }
}

/// The shape of every planned run: one climactic table scene, last; before it either
/// nothing (the climax opens runs) or 6 to 19 ambient table scenes, none climactic; the
/// first play walks from nowhere; the island carries the requested night flag, and a
/// cutaway climax leaves the island plain (no raft, no holiday).
pub proof fn lemma_plan_shape(cur: u8, night: bool, holiday: Holiday, r0: u64)
    ensures
        ({
            let p = plan_spec(cur, night, holiday, r0);
            let s = p.2;
            let n = s.len();
            &&& n == 1 || 7 <= n <= 20
            &&& story_table().contains(s[n - 1])
            &&& (s[n - 1].flags & FINAL) != 0
            &&& forall|k: int|
                0 <= k < n - 1 ==> story_table().contains(#[trigger] s[k]) && (s[k].flags & FINAL) == 0
            &&& chain_plays(s, p.0)[0].walk_from is None
            &&& p.1.night == night
            &&& !p.0 ==> p.1.raft == 0 && p.1.holiday == Holiday::NoHoliday
        }),
{
    lemma_final_scene_exists(cur);
    let finals = candidates(cur, FINAL, 0);
    let fpred = |s: StoryScene| scene_fits(s, cur, FINAL, 0);
    let fi = pick_index(r0, finals.len());
    assert(0 <= fi < finals.len());
    story_table().filter_lemma(fpred);
    let fs = finals[fi];
    assert(fpred(fs));
    assert(finals.contains(fs));
    story_table().lemma_filter_contains_rev(fpred, fs);
    let f = fs.flags;
    assert((f & FINAL) == FINAL ==> (f & FINAL) != 0u8) by (bit_vector);
    let r1 = xorshift(r0);
    let on = (fs.flags & ISLAND) != 0;
    let (isl, r2) = if on { island_spec(fs, cur, holiday, night, r1) } else { (cutaway_island(night), r1) };
    let p = plan_spec(cur, night, holiday, r0);
    if (fs.flags & FIRST) == 0 {
        let count = 6 + draw(r2) % 14;
        let low = isl.low_tide;
        let var = isl.x_pos != 0 || isl.y_pos != 0;
        let wanted: u8 = (if low { LOWTIDE_OK } else { 0u8 }) | (if var { VARPOS_OK } else { 0u8 });
        lemma_ambient_full(cur, wanted, xorshift(r2), count as nat, low, var);
        let picks = ambient_picks(cur, wanted, xorshift(r2), count as nat);
        assert(p.2 == picks.0.push(fs));
        assert forall|k: int| 0 <= k < p.2.len() - 1 implies story_table().contains(#[trigger] p.2[k])
            && (p.2[k].flags & FINAL) == 0 by {
            assert(p.2[k] == picks.0[k]);
        }
    } else {
        assert(p.2 == seq![fs]);
    }
}

/// What a scene that fits the ambient constraints has.
proof fn lemma_fits_parts(s: StoryScene, day: u8, wanted: u8, unwanted: u8, low: bool, var: bool, later: bool)
    requires
        scene_fits(s, day, wanted, unwanted),
        wanted == ((if low { LOWTIDE_OK } else { 0u8 }) | (if var { VARPOS_OK } else { 0u8 })),
        unwanted == (if later { FINAL | FIRST } else { FINAL }),
    ensures
        scene_fits(s, day, 0, FINAL),
        low ==> (s.flags & LOWTIDE_OK) != 0,
        var ==> (s.flags & VARPOS_OK) != 0,
        later ==> (s.flags & FIRST) == 0,
{
    let f = s.flags;
    assert((f & 0u8) == 0u8) by (bit_vector);
    assert((f & (FINAL | FIRST)) == 0u8 ==> (f & FINAL) == 0u8 && (f & FIRST) == 0u8) by (bit_vector);
    assert((f & (LOWTIDE_OK | VARPOS_OK)) == (LOWTIDE_OK | VARPOS_OK) ==> (f & LOWTIDE_OK) != 0u8 && (f & VARPOS_OK) != 0u8) by (bit_vector);
    assert((f & (LOWTIDE_OK | 0u8)) == (LOWTIDE_OK | 0u8) ==> (f & LOWTIDE_OK) != 0u8) by (bit_vector);
    assert((f & (0u8 | VARPOS_OK)) == (0u8 | VARPOS_OK) ==> (f & VARPOS_OK) != 0u8) by (bit_vector);
}

/// How the day/night cycle is driven: the original's eight-hour cycle, or the real
/// 24-hour wall clock.
#[derive(Debug, Clone, Copy, PartialEq, Eq, Structural)]
pub enum DayNight {
    /// The original's eight-hour cycle.
    Original,
    /// The real 24-hour wall clock.
    Real24h,
}

/// The day/night mode a word names (any ASCII case): `original` or `8h`, and `real24h`,
/// `real` or `24h`.
pub open spec fn day_night_word(s: Seq<u8>) -> Option<DayNight> {
    let l = crate::host::text::lower_seq(s);
    if l == "original".spec_bytes() || l == "8h".spec_bytes() {
        Some(DayNight::Original)
    } else if l == "real24h".spec_bytes() || l == "real".spec_bytes() || l == "24h".spec_bytes() {
        Some(DayNight::Real24h)
    } else {
        None
    }
}

impl DayNight {
    /// Read a mode name (see [`day_night_word`]).
    pub fn parse(s: &str) -> (r: Option<DayNight>)
        ensures
            r == day_night_word(s.spec_bytes()),
    {
        Self::from_bytes(s.as_bytes())
    }

    /// Read a mode name given as bytes.
    pub fn from_bytes(b: &[u8]) -> (r: Option<DayNight>)
        ensures
            r == day_night_word(b@),
    {
        if crate::host::text::eq_lower(b, "original".as_bytes()) || crate::host::text::eq_lower(b, "8h".as_bytes()) {
            Some(DayNight::Original)
        } else if crate::host::text::eq_lower(b, "real24h".as_bytes()) || crate::host::text::eq_lower(
            b,
            "real".as_bytes(),
        ) || crate::host::text::eq_lower(b, "24h".as_bytes()) {
            Some(DayNight::Real24h)
        } else {
            None
        }
    }

    /// The canonical name.
    pub fn as_str(self) -> (s: &'static str)
        ensures
            self is Original ==> s@ == "original"@,
            self is Real24h ==> s@ == "real24h"@,
    {
        match self {
            DayNight::Original => "original",
            DayNight::Real24h => "real24h",
        }
    }
}

} // verus!
