//! The runtime that strings the story together: it plans runs with the [`Director`],
//! builds the island for each, plays the run's scenes one after the other with an
//! [`AdsVm`] over the island scenery, and hands out one composited [`Frame`] at a time.
//!
//! Around the scenes it shows the intro screen once (when enabled), lays the holiday
//! prop over every island frame, cues the day-beat sound as a day's scene begins, and,
//! when switched on, dissolves from the last frame of a run into the first of the next.
//! Johnny's walks between spots are not part of this runtime: each scene starts where
//! the previous one left him. Missing resources skip a scene rather than failing.
use vstd::prelude::*;
use crate::dgds::archive::Archive;
use crate::dgds::pal::Palette;
use crate::engine::ads_vm::{AdsVm, AdsFrame, MAX_TTM_THREADS};
use crate::engine::clock::Clock;
use crate::engine::dissolve::Dissolve;
use crate::engine::island::Island;
use crate::engine::rng::Rng;
use crate::engine::story::{Director, Holiday, IslandState, ScenePlay, StoryRun, next_story_day};
use crate::engine::surface::{Surface, TRANSPARENT};
use crate::engine::ttm_exec::{archive_images_wf, draw_screen, images_complete, offset_ok, screen_pixel};
use crate::dgds::archive::first_named;
use crate::dgds::ads::ads_decodes_to;

verus! {

/// How far right the sprites of a scene played on the left-shifted island move.
pub const LEFT_ISLAND_SHIFT: i32 = 272;

/// How long the intro screen is held, in engine ticks (about 4 s at 16 ms a tick).
pub const INTRO_TICKS: u16 = 250;

/// How many scene starts one frame request tries before it gives up and shows a blank
/// frame (data in which nothing can be played).
pub const MAX_TRIES: u32 = 20000;

/// The sprite offset of a scene on the island: the island's drift `(dx, dy)`, moved
/// [`LEFT_ISLAND_SHIFT`] to the right for a left-island scene.
pub fn ads_offset(drift: (i32, i32), left_island: bool) -> (r: (i32, i32))
    requires
        left_island ==> drift.0 + LEFT_ISLAND_SHIFT <= i32::MAX,
    ensures
        r == (if left_island { (drift.0 + LEFT_ISLAND_SHIFT) as i32 } else { drift.0 }, drift.1),
{
    let dx: i32 = drift.0;
    let dy: i32 = drift.1;
    (if left_island { dx + LEFT_ISLAND_SHIFT } else { dx }, dy)
}

/// A composited frame to display.
#[derive(Debug)]
pub struct Frame {
    /// The composited indexed-colour image.
    pub surface: Surface,
    /// How long to display it, in engine ticks (one tick is 16 ms).
    pub delay_ticks: u16,
    /// Sound effect ids triggered this frame.
    pub sounds: Vec<u16>,
}

/// A snapshot of the runtime's state, for a debug log or overlay.
#[derive(Debug, Clone, Copy)]
pub struct DebugInfo {
    /// Current story day (1–11).
    pub day: u8,
    /// The scene being played `(ADS name, tag)`, if any.
    pub scene: Option<(&'static str, u16)>,
    /// What the runtime is doing: `intro`, `play` or `idle`.
    pub stage: &'static str,
    /// The island's drift `(dx, dy)`, when the run is on the island.
    pub offset: Option<(i32, i32)>,
    /// Whether the current run is on the island.
    pub on_island: bool,
    /// Whether it is night.
    pub night: bool,
    /// Whether the tide is low.
    pub low_tide: bool,
    /// Raft build stage (0–5).
    pub raft: u8,
    /// Active holiday.
    pub holiday: Holiday,
}

/// `bottom` with every pixel of `top` that is not transparent laid over it.
pub open spec fn overlaid(bottom: Seq<u8>, top: Seq<u8>) -> Seq<u8> {
    Seq::new(
        bottom.len(),
        |i: int| if i < top.len() && top[i] != TRANSPARENT { top[i] } else { bottom[i] },
    )
}

/// The pixels of a scene frame once the holiday layer (if any) is laid on top.
pub open spec fn with_layer(pixels: Seq<u8>, layer: Option<Surface>) -> Seq<u8> {
    match layer {
        Some(l) => overlaid(pixels, l.pixels@),
        None => pixels,
    }
}

/// Whether `r` is the frame shown for the scene frame `af`: its image under the holiday
/// layer, its delay, and its sounds after the cue `cue` when one is due.
pub open spec fn scene_frame(af: AdsFrame, cue: Option<u16>, layer: Option<Surface>, r: Frame) -> bool {
    &&& r.surface.width == af.surface.width
    &&& r.surface.height == af.surface.height
    &&& r.surface.pixels@ == with_layer(af.surface.pixels@, layer)
    &&& r.delay_ticks == af.delay_ticks
    &&& r.sounds@ == match cue {
        Some(s) => seq![s] + af.sounds@,
        None => af.sounds@,
    }
}

/// Whether `s` is the intro screen `scr` on a black `width`×`height` canvas.
pub open spec fn intro_image(s: Surface, scr: &crate::dgds::scr::Scr, width: u16, height: u16) -> bool {
    &&& s.wf()
    &&& s.width == width
    &&& s.height == height
    &&& forall|x: int, y: int| #![trigger s.at(x, y)] s.inside(x, y) ==> s.at(x, y) == screen_pixel(scr, x, y)
}

/// Whether the archive's `INTRO.SCR`, if it has one, holds all of its pixels.
pub open spec fn intro_complete(archive: &Archive) -> bool {
    match first_named(archive.screens@, "INTRO.SCR"@) {
        Some(i) => archive.screens@[i].1.pixels@.len() >= archive.screens@[i].1.width
            * archive.screens@[i].1.height,
        None => true,
    }
}

/// A copy of a surface.
fn copy_surface(s: &Surface) -> (r: Surface)
    ensures
        r.width == s.width,
        r.height == s.height,
        r.pixels@ == s.pixels@,
{
    let pixels = s.pixels.clone();
    proof {
        assert(pixels@ =~= s.pixels@);
    }
    Surface { width: s.width, height: s.height, pixels }
}

/// Whether a surface holds exactly `width * height` pixels.
fn surface_ok(s: &Surface) -> (b: bool)
    ensures
        b == s.wf(),
{
    proof { crate::dgds::scr::lemma_u16_product(s.width, s.height); }
    s.pixels.len() == s.width as usize * s.height as usize
}

/// Whether two pixel buffers are equal.
fn same_pixels(a: &Vec<u8>, b: &Vec<u8>) -> (r: bool)
    ensures
        r == (a@ == b@),
{
    if a.len() != b.len() {
        return false;
    }
    let mut i: usize = 0;
    while i < a.len()
        invariant
            a@.len() == b@.len(),
            i <= a@.len(),
            forall|k: int| 0 <= k < i ==> a@[k] == b@[k],
        decreases a@.len() - i,
    {
        if a[i] != b[i] {
            return false;
        }
        i = i + 1;
    }
    assert(a@ =~= b@);
    true
}

/// Whether a drift leaves room for every 16-bit coordinate the scripts use.
fn fits(d: i32) -> (b: bool)
    ensures
        b == offset_ok(d),
{
    -0x7fff_0000 <= d && d <= 0x7fff_0000
}

/// Whether `after` is the player `v` once it has shown the frame `f`: the scheduler's
/// pass over all threads, the frame it composes, and the state it leaves.
pub open spec fn vm_step(v: AdsVm, archive: &Archive, f: AdsFrame, after: AdsVm) -> bool {
    exists|states: Seq<AdsVm>, sounds: Seq<Seq<u16>>|
        #![trigger AdsVm::pass_chain(v, states, sounds, MAX_TTM_THREADS as nat, archive)]
        {
            &&& AdsVm::pass_chain(v, states, sounds, MAX_TTM_THREADS as nat, archive)
            &&& AdsVm::shows(states.last(), f, sounds.flatten())
            &&& AdsVm::same_stage(states.last(), after)
            &&& after.sched() == AdsVm::retired(states.last(), f.delay_ticks)
        }
}

/// Whether some thread of the player `v` asks, in its next frame, for a resource the
/// archive lacks.
pub open spec fn vm_fails(v: AdsVm, archive: &Archive) -> bool {
    exists|states: Seq<AdsVm>, sounds: Seq<Seq<u16>>, i: nat|
        #![trigger AdsVm::pass_chain(v, states, sounds, i, archive)]
        i < MAX_TTM_THREADS && AdsVm::pass_chain(v, states, sounds, i, archive)
            && AdsVm::thread_fails(states.last(), i as int, archive)
}

/// Whether the player `v` has a next frame to show: the archive's images are complete,
/// a thread is still running, and none asks for a missing resource.
pub open spec fn yields(v: AdsVm, archive: &Archive) -> bool {
    &&& archive_images_wf(archive)
    &&& v.active() > 0
    &&& !vm_fails(v, archive)
}

/// Whether `v` is a player started for `scene`: it runs the script of the scene's
/// `.ADS`, at the show's size, over the island scenery `backdrop` (or a blank screen of
/// the show's size off the island).
pub open spec fn plays_scene(
    v: AdsVm,
    scene: ScenePlay,
    archive: &Archive,
    width: u16,
    height: u16,
    backdrop: Option<Surface>,
) -> bool {
    &&& first_named(archive.ads@, scene.ads_name@) matches Some(i) && ads_decodes_to(
        archive.ads@[i].1.bytecode@,
        v.ads_spec().0,
    )
    &&& v.size() == (width, height)
    &&& match backdrop {
        Some(b) => v.backdrop().width == b.width && v.backdrop().height == b.height
            && v.backdrop().pixels@ == b.pixels@,
        None => v.backdrop().width == width && v.backdrop().height == height,
    }
}

/// Whether `r` is the blank frame shown when nothing could be played.
pub open spec fn blank_frame(r: Frame, width: u16, height: u16) -> bool {
    &&& r.surface.wf()
    &&& r.surface.width == width
    &&& r.surface.height == height
    &&& forall|i: int| 0 <= i < r.surface.pixels@.len() ==> #[trigger] r.surface.pixels@[i] == 0
    &&& r.delay_ticks == 8
    &&& r.sounds@.len() == 0
}

/// The end-to-end runtime, as a frame generator.
pub struct Show {
    palette: Palette,
    width: u16,
    height: u16,
    director: Director,
    clock: Clock,
    rng: Rng,
    run: StoryRun,
    scene_idx: usize,
    island: Option<Island>,
    vm: Option<AdsVm>,
    pending_sound: Option<u16>,
    intro: Option<Surface>,
    dissolve_on: bool,
    prev: Option<Surface>,
    dissolve: Option<Dissolve>,
    pending: Option<Frame>,
    run_boundary: bool,
    starts: Ghost<nat>,
    fresh: Ghost<Option<AdsVm>>,
}

/// Whether `new` kept playing the scene player of `old`: no scene was started, and `r`
/// is the frame that player showed next, under the holiday layer and after the cue due.
pub open spec fn kept_playing(old: Show, new: Show, archive: &Archive, r: Frame) -> bool {
    &&& new.scene_starts() == old.scene_starts()
    &&& new.run_spec() == old.run_spec()
    &&& new.scene_spec() == old.scene_spec()
    &&& old.vm_spec() matches Some(v) && new.vm_spec() matches Some(v2) && exists|af: AdsFrame|
        #![trigger vm_step(v, archive, af, v2)]
        vm_step(v, archive, af, v2) && scene_frame(af, old.cue_spec(), old.layer_spec(), r)
}

/// Whether `new` moved on from the scene player of `old`: at least one scene was
/// started, and `r` is either the first frame of the player started for the current
/// scene (with the day-beat cue when that scene is a day's beat), or, after
/// [`MAX_TRIES`] starts gave no frame, the blank frame.
pub open spec fn moved_on(old: Show, new: Show, archive: &Archive, r: Frame) -> bool {
    &&& new.scene_starts() > old.scene_starts()
    &&& {
        ||| {
            &&& new.fresh_spec() matches Some(v0)
            &&& new.vm_spec() matches Some(v2)
            &&& new.scene_spec() matches Some(sc)
            &&& plays_scene(v0, sc, archive, new.size().0, new.size().1, new.island_bg())
            &&& exists|af: AdsFrame, cue: Option<u16>|
                #![trigger vm_step(v0, archive, af, v2), scene_frame(af, cue, new.layer_spec(), r)]
                {
                    &&& vm_step(v0, archive, af, v2)
                    &&& cue is None || cue == Some(0u16)
                    &&& sc.day_beat ==> cue == Some(0u16)
                    &&& scene_frame(af, cue, new.layer_spec(), r)
                }
        }
        ||| {
            &&& blank_frame(r, new.size().0, new.size().1)
            &&& new.scene_starts() == old.scene_starts() + MAX_TRIES
        }
    }
}

impl Show {
    /// The invariant kept within a frame: a story day in range, and a well-formed
    /// island, player and dissolve of the show's size where there are any.
    closed spec fn inner_wf(&self) -> bool {
        &&& 1 <= self.director.current_day <= 11
        &&& self.island matches Some(i) ==> i.wf() && i.background_spec().width == self.width
            && i.background_spec().height == self.height
        &&& self.vm matches Some(v) ==> v.wf() && offset_ok(v.offset().0) && offset_ok(v.offset().1)
            && v.backdrop().width == self.width && v.backdrop().height == self.height
        &&& self.dissolve matches Some(d) ==> d.wf() && self.pending is Some && d.dest_spec().width
            == self.width && d.dest_spec().height == self.height
        &&& self.pending_sound is None || self.pending_sound == Some(0u16)
        &&& self.frames_fit()
    }

    /// The frames held for later are of the show's size.
    closed spec fn frames_fit(&self) -> bool {
        &&& self.pending matches Some(p) ==> p.surface.width == self.width && p.surface.height == self.height
        &&& self.prev matches Some(p) ==> p.width == self.width && p.height == self.height
        &&& self.intro matches Some(s) ==> s.width == self.width && s.height == self.height
    }

    /// The runtime's invariant between frames.
    pub closed spec fn wf(&self) -> bool {
        &&& self.inner_wf()
        &&& !self.run_boundary
    }

    /// Whether the running player, if any, is the one started for the current scene,
    /// with the day-beat cue due when that scene is a day's beat.
    closed spec fn started(&self, archive: &Archive) -> bool {
        self.vm matches Some(v) ==> {
            &&& self.fresh@ == Some(v)
            &&& self.scene_idx < self.run.scenes@.len()
            &&& plays_scene(
                v,
                self.run.scenes@[self.scene_idx as int],
                archive,
                self.width,
                self.height,
                self.island_bg(),
            )
            &&& self.run.scenes@[self.scene_idx as int].day_beat ==> self.pending_sound == Some(0u16)
        }
    }

    /// The show with no intro queued.
    pub closed spec fn without_intro(self) -> Show {
        Show { intro: None, ..self }
    }

    /// The show with the dissolve between runs switched on.
    pub closed spec fn with_dissolve(self) -> Show {
        Show { dissolve_on: true, ..self }
    }

    /// The show planning with the wall clock `clock`.
    pub closed spec fn with_clock(self, clock: Clock) -> Show {
        Show { clock, ..self }
    }

    /// The intro screen still to show, if any.
    pub closed spec fn intro_spec(&self) -> Option<Surface> {
        self.intro
    }

    /// The dissolve in progress, if any.
    pub closed spec fn dissolve_spec(&self) -> Option<Dissolve> {
        self.dissolve
    }

    /// The frame a dissolve in progress leads to.
    pub closed spec fn pending_spec(&self) -> Option<Frame> {
        self.pending
    }

    /// Whether the dissolve between runs is switched on.
    pub closed spec fn dissolve_enabled(&self) -> bool {
        self.dissolve_on
    }

    /// The story day and the day of the year it was last advanced.
    pub closed spec fn day_spec(&self) -> (u8, i32) {
        (self.director.current_day, self.director.stored_yday)
    }

    /// The wall clock the director plans with.
    pub closed spec fn clock_spec(&self) -> Clock {
        self.clock
    }

    /// The frame size.
    pub closed spec fn size(&self) -> (u16, u16) {
        (self.width, self.height)
    }

    /// The holiday layer of the current island, if any.
    pub closed spec fn layer_spec(&self) -> Option<Surface> {
        match self.island {
            Some(i) => i.holiday_spec(),
            None => None,
        }
    }

    /// The scenery of the current island, if any.
    pub closed spec fn island_bg(&self) -> Option<Surface> {
        match self.island {
            Some(i) => Some(i.background_spec()),
            None => None,
        }
    }

    /// The run being played.
    pub closed spec fn run_spec(&self) -> StoryRun {
        self.run
    }

    /// The scene being played, if any.
    pub closed spec fn scene_spec(&self) -> Option<ScenePlay> {
        if self.scene_idx < self.run.scenes@.len() {
            Some(self.run.scenes@[self.scene_idx as int])
        } else {
            None
        }
    }

    /// The running scene player, if any.
    pub closed spec fn vm_spec(&self) -> Option<AdsVm> {
        self.vm
    }

    /// The scene player as it was when the current scene was started.
    pub closed spec fn fresh_spec(&self) -> Option<AdsVm> {
        self.fresh@
    }

    /// The sound cue due with the next scene frame (the day-beat cue), if any.
    pub closed spec fn cue_spec(&self) -> Option<u16> {
        self.pending_sound
    }

    /// How many scene starts the runtime has made.
    pub closed spec fn scene_starts(&self) -> nat {
        self.starts@
    }

    /// Whether a scene player is running.
    pub closed spec fn playing(&self) -> bool {
        self.vm is Some
    }

    /// The island's drift, when the run has an island.
    pub closed spec fn drift_spec(&self) -> Option<(i32, i32)> {
        match self.island {
            Some(i) => Some(i.offset_spec()),
            None => None,
        }
    }

    /// Create a runtime and plan its first run.
    pub fn new(
        archive: &Archive,
        palette: &Palette,
        width: u16,
        height: u16,
        director: Director,
        clock: Clock,
        seed: u64,
    ) -> (s: Self)
        requires
            clock.yday != director.stored_yday ==> director.current_day < 255,
        ensures
            s.wf(),
            s.size() == (width, height),
            s.clock_spec() == clock,
            s.day_spec() == (
                next_story_day(director.current_day, director.stored_yday, clock.yday),
                clock.yday,
            ),
            s.intro_spec() is None,
            s.dissolve_spec() is None,
            !s.dissolve_enabled(),
    {
        let mut show = Show {
            palette: *palette,
            width,
            height,
            director,
            clock,
            rng: Rng::new(seed),
            run: StoryRun {
                on_island: false,
                island: IslandState {
                    low_tide: false,
                    night: false,
                    raft: 0,
                    holiday: Holiday::NoHoliday,
                    x_pos: 0,
                    y_pos: 0,
                },
                scenes: Vec::new(),
            },
            scene_idx: 0,
            island: None,
            vm: None,
            pending_sound: None,
            intro: None,
            dissolve_on: false,
            prev: None,
            dissolve: None,
            pending: None,
            run_boundary: false,
            starts: Ghost(0nat),
            fresh: Ghost(None),
        };
        show.plan_new_run(archive);
        show.run_boundary = false;
        show
    }

    /// Switch on the dissolve between story runs (the original ships it disabled and
    /// cuts hard).
    pub fn enable_dissolve(&mut self)
        requires
            old(self).wf(),
        ensures
            final(self).wf(),
            final(self).dissolve_enabled(),
            *final(self) == old(self).with_dissolve(),
    {
        self.dissolve_on = true;
    }

    /// Update the wall clock the next run is planned with.
    pub fn set_clock(&mut self, clock: Clock)
        requires
            old(self).wf(),
        ensures
            final(self).wf(),
            final(self).clock_spec() == clock,
            *final(self) == old(self).with_clock(clock),
    {
        self.clock = clock;
    }

    /// Queue the intro screen (`INTRO.SCR`) to be shown once, as the next frame; nothing
    /// changes when the archive has no intro screen.
    pub fn enable_intro(&mut self, archive: &Archive)
        requires
            old(self).wf(),
            intro_complete(archive),
        ensures
            final(self).wf(),
            match first_named(archive.screens@, "INTRO.SCR"@) {
                Some(i) => {
                    &&& final(self).intro_spec() matches Some(s) && intro_image(
                        s,
                        &archive.screens@[i].1,
                        old(self).size().0,
                        old(self).size().1,
                    )
                    &&& final(self).without_intro() == old(self).without_intro()
                },
                None => *final(self) == *old(self),
            },
    {
        let scr = match archive.scr("INTRO.SCR") {
            Some(s) => s,
            None => return,
        };
        let mut surface = Surface::new(self.width, self.height, 0);
        draw_screen(&mut surface, scr);
        self.intro = Some(surface);
    }

    /// The story day and the day of the year it was last advanced, for the host to save
    /// so the eleven-day arc resumes across sessions.
    pub fn day_state(&self) -> (r: (u8, i32))
        ensures
            r == self.day_spec(),
    {
        (self.director.current_day, self.director.stored_yday)
    }

    /// Whether an intro screen is still to be shown.
    pub fn intro_pending(&self) -> (b: bool)
        ensures
            b == self.intro_spec() is Some,
    {
        self.intro.is_some()
    }

    /// The island's drift, when the run has an island.
    pub fn island_offset(&self) -> (r: Option<(i32, i32)>)
        ensures
            r == self.drift_spec(),
    {
        match &self.island {
            Some(i) => Some(i.offset()),
            None => None,
        }
    }
    /// A snapshot of the runtime's state.
    pub fn debug_info(&self) -> (d: DebugInfo)
        ensures
            d.day == self.day_spec().0,
            d.scene == (match self.scene_spec() {
                Some(s) => Some((s.ads_name, s.ads_tag)),
                None => None,
            }),
            d.stage@ == (if self.intro_spec() is Some {
                "intro"@
            } else if self.playing() {
                "play"@
            } else {
                "idle"@
            }),
            d.offset == self.drift_spec(),
            d.on_island == self.run_spec().on_island,
            d.night == self.run_spec().island.night,
            d.low_tide == self.run_spec().island.low_tide,
            d.raft == self.run_spec().island.raft,
            d.holiday == self.run_spec().island.holiday,
    {
        let scene = if self.scene_idx < self.run.scenes.len() {
            let s = self.run.scenes[self.scene_idx];
            Some((s.ads_name, s.ads_tag))
        } else {
            None
        };
        let stage: &'static str = if self.intro.is_some() {
            "intro"
        } else if self.vm.is_some() {
            "play"
        } else {
            "idle"
        };
        DebugInfo {
            day: self.director.current_day,
            scene,
            stage,
            offset: self.island_offset(),
            on_island: self.run.on_island,
            night: self.run.island.night,
            low_tide: self.run.island.low_tide,
            raft: self.run.island.raft,
            holiday: self.run.island.holiday,
        }
    }

    /// Plan the next run and build its island, then start its first scene.
    #[verifier::rlimit(50)]
    fn plan_new_run(&mut self, archive: &Archive)
        requires
            old(self).dissolve is None,
            old(self).pending_sound is None || old(self).pending_sound == Some(0u16),
            old(self).frames_fit(),
            old(self).clock.yday != old(self).director.stored_yday ==> old(self).director.current_day < 255,
        ensures
            final(self).inner_wf(),
            final(self).started(archive),
            final(self).width == old(self).width,
            final(self).height == old(self).height,
            final(self).clock == old(self).clock,
            final(self).director.current_day == next_story_day(
                old(self).director.current_day,
                old(self).director.stored_yday,
                old(self).clock.yday,
            ),
            final(self).director.stored_yday == old(self).clock.yday,
            final(self).intro == old(self).intro,
            final(self).dissolve == old(self).dissolve,
            final(self).pending == old(self).pending,
            final(self).dissolve_on == old(self).dissolve_on,
            final(self).prev == old(self).prev,
            final(self).starts == old(self).starts,
            final(self).run_boundary,
    {
        self.run = self.director.plan_run(
            self.clock.yday,
            self.clock.hour,
            self.clock.month,
            self.clock.day,
            &mut self.rng,
        );
        self.scene_idx = 0;
        self.vm = None;
        let images_ok = images_complete(archive);
        self.island = if self.run.on_island && images_ok && fits(self.run.island.x_pos) && fits(
            self.run.island.y_pos,
        ) {
            match Island::build(archive, &self.run.island, &self.palette, self.width, self.height, &mut self.rng) {
                Ok(i) => Some(i),
                Err(_) => None,
            }
        } else {
            None
        };
        self.start_current(archive);
        self.run_boundary = true;
    }

    /// Move on to the next scene of the run, or plan the next run after the last one.
    fn go_next_scene(&mut self, archive: &Archive)
        requires
            old(self).inner_wf(),
            old(self).dissolve is None,
        ensures
            final(self).inner_wf(),
            final(self).started(archive),
            final(self).width == old(self).width,
            final(self).height == old(self).height,
            final(self).clock == old(self).clock,
            final(self).intro == old(self).intro,
            final(self).dissolve is None,
            final(self).pending == old(self).pending,
            final(self).dissolve_on == old(self).dissolve_on,
            final(self).prev == old(self).prev,
            final(self).starts@ == old(self).starts@ + 1,
    {
        self.starts = Ghost(self.starts@ + 1);
        self.scene_idx = self.scene_idx.saturating_add(1);
        if self.scene_idx >= self.run.scenes.len() {
            self.plan_new_run(archive);
        } else {
            self.start_current(archive);
        }
    }

    /// Start the current scene's player, if its resources are there.
    fn start_current(&mut self, archive: &Archive)
        requires
            old(self).island matches Some(i) ==> i.wf() && i.background_spec().width
                == old(self).width && i.background_spec().height == old(self).height,
            1 <= old(self).director.current_day <= 11,
            old(self).dissolve matches Some(d) ==> d.wf() && old(self).pending is Some
                && d.dest_spec().width == old(self).width && d.dest_spec().height == old(self).height,
            old(self).pending_sound is None || old(self).pending_sound == Some(0u16),
            old(self).frames_fit(),
        ensures
            final(self).inner_wf(),
            final(self).started(archive),
            final(self).width == old(self).width,
            final(self).height == old(self).height,
            final(self).clock == old(self).clock,
            final(self).director == old(self).director,
            final(self).island == old(self).island,
            final(self).run == old(self).run,
            final(self).scene_idx == old(self).scene_idx,
            final(self).intro == old(self).intro,
            final(self).dissolve == old(self).dissolve,
            final(self).pending == old(self).pending,
            final(self).dissolve_on == old(self).dissolve_on,
            final(self).prev == old(self).prev,
            final(self).run_boundary == old(self).run_boundary,
            final(self).starts == old(self).starts,
    {
        self.vm = None;
        if self.scene_idx >= self.run.scenes.len() {
            return;
        }
        let scene = self.run.scenes[self.scene_idx];
        let ads = match archive.ads(scene.ads_name) {
            Some(a) => a,
            None => return,
        };
        let seed = self.rng.next_u32() as u64;
        let mut vm = match AdsVm::new(ads, scene.ads_tag, archive, &self.palette, self.width, self.height, seed) {
            Ok(v) => v,
            Err(_) => return,
        };
        match &self.island {
            Some(isl) => {
                proof { isl.lemma_parts(); }
                vm.set_background(copy_surface(isl.background()));
                let (ox, oy) = ads_offset(isl.offset(), scene.left_island);
                if fits(ox) {
                    vm.set_offset(ox, oy);
                }
            },
            None => {},
        }
        if scene.day_beat {
            self.pending_sound = Some(0);
        }
        self.fresh = Ghost(Some(vm));
        self.vm = Some(vm);
    }

    /// The frame shown for the scene frame `af`: the holiday layer on top, and the
    /// day-beat cue first among its sounds when one is due.
    fn scene_frame(&mut self, af: AdsFrame) -> (r: Frame)
        ensures
            scene_frame(af, old(self).pending_sound, old(self).layer_spec(), r),
            *final(self) == (Show { pending_sound: None, ..*old(self) }),
    {
        let mut sounds: Vec<u16> = Vec::new();
        match self.pending_sound {
            Some(s) => sounds.push(s),
            None => {},
        }
        self.pending_sound = None;
        let mut i: usize = 0;
        let ghost start = sounds@;
        while i < af.sounds.len()
            invariant
                i <= af.sounds@.len(),
                sounds@ == start + af.sounds@.take(i as int),
            decreases af.sounds@.len() - i,
        {
            sounds.push(af.sounds[i]);
            i = i + 1;
            proof {
                assert(af.sounds@.take(i as int) =~= af.sounds@.take(i - 1).push(af.sounds@[i - 1]));
            }
        }
        proof {
            assert(af.sounds@.take(af.sounds@.len() as int) =~= af.sounds@);
        }
        let delay_ticks = af.delay_ticks;
        let surface = match &self.island {
            Some(isl) => match isl.holiday_layer() {
                Some(layer) => af.surface.compose_over(layer),
                None => af.surface,
            },
            None => af.surface,
        };
        proof {
            match self.layer_spec() {
                Some(l) => {
                    assert(surface.pixels@ =~= overlaid(af.surface.pixels@, l.pixels@));
                },
                None => {},
            }
        }
        Frame { surface, delay_ticks, sounds }
    }

    /// Advance the dissolve in progress by one step: its image, or once it has reached
    /// the destination, the frame it was leading to.
    fn step_dissolve(&mut self) -> (r: Frame)
        requires
            old(self).wf(),
            old(self).dissolve is Some,
        ensures
            final(self).wf(),
            r.surface.width == old(self).width,
            r.surface.height == old(self).height,
            ({
                let d = old(self).dissolve->Some_0;
                let p = old(self).pending->Some_0;
                if d.progress().0 + d.batch() >= d.progress().1 {
                    &&& final(self).dissolve is None
                    &&& r == p
                    &&& r.surface.pixels@ == p.surface.pixels@
                    &&& r.surface.width == p.surface.width
                    &&& r.surface.height == p.surface.height
                    &&& r.delay_ticks == p.delay_ticks
                    &&& r.sounds@ == p.sounds@
                } else {
                    &&& final(self).dissolve matches Some(d2) && {
                        &&& d2.progress().0 == d.progress().0 + d.batch()
                        &&& d2.progress().1 == d.progress().1
                        &&& d2.dest_spec() == d.dest_spec()
                        &&& r.surface.width == d2.image_spec().width
                        &&& r.surface.height == d2.image_spec().height
                        &&& r.surface.pixels@ == d2.image_spec().pixels@
                    }
                    &&& final(self).pending == old(self).pending
                    &&& r.delay_ticks == 1
                    &&& r.sounds@.len() == 0
                }
            }),
            final(self).island == old(self).island,
            final(self).vm == old(self).vm,
            final(self).fresh == old(self).fresh,
            final(self).starts == old(self).starts,
            final(self).run == old(self).run,
            final(self).scene_idx == old(self).scene_idx,
            final(self).pending_sound == old(self).pending_sound,
            final(self).director == old(self).director,
            final(self).intro == old(self).intro,
            final(self).dissolve_on == old(self).dissolve_on,
            final(self).run_boundary == old(self).run_boundary,
            final(self).width == old(self).width,
            final(self).height == old(self).height,
            final(self).clock == old(self).clock,
    {
        let mut d = self.dissolve.take().unwrap();
        d.step();
        if d.done() {
            let surface = d.into_destination();
            self.prev = Some(copy_surface(&surface));
            let p = self.pending.take().unwrap();
            return p;
        }
        let image = copy_surface(d.image());
        self.dissolve = Some(d);
        Frame { surface: image, delay_ticks: 1, sounds: Vec::new() }
    }

    /// The next frame of the scenes, or the intro screen when it is due.
    fn scene_or_intro(&mut self, archive: &Archive) -> (r: Frame)
        requires
            old(self).wf(),
            old(self).dissolve is None,
        ensures
            final(self).inner_wf(),
            final(self).dissolve is None,
            final(self).pending == old(self).pending,
            final(self).dissolve_on == old(self).dissolve_on,
            final(self).prev == old(self).prev,
            final(self).intro is None,
            final(self).width == old(self).width,
            final(self).height == old(self).height,
            final(self).clock == old(self).clock,
            r.surface.width == old(self).width,
            r.surface.height == old(self).height,
            old(self).intro matches Some(s) ==> {
                &&& r.surface.width == s.width
                &&& r.surface.height == s.height
                &&& r.surface.pixels@ == s.pixels@
                &&& r.delay_ticks == INTRO_TICKS
                &&& r.sounds@.len() == 0
                &&& *final(self) == old(self).without_intro()
            },
            old(self).intro is None ==> {
                &&& (old(self).vm_spec() matches Some(v) && yields(v, archive)) ==> !final(self).run_boundary
                    && kept_playing(*old(self), *final(self), archive, r)
                &&& (!final(self).run_boundary && kept_playing(*old(self), *final(self), archive, r))
                    || moved_on(*old(self), *final(self), archive, r)
            },
    {
        match self.intro.take() {
            Some(surface) => {
                return Frame { surface, delay_ticks: INTRO_TICKS, sounds: Vec::new() };
            },
            None => {},
        }
        let images_ok = images_complete(archive);
        let mut tries: u32 = 0;
        while tries < MAX_TRIES
            invariant
                self.inner_wf(),
                self.dissolve is None,
                self.pending == old(self).pending,
                self.dissolve_on == old(self).dissolve_on,
                self.prev == old(self).prev,
                self.intro is None,
                self.width == old(self).width,
                self.height == old(self).height,
                self.clock == old(self).clock,
                images_ok == archive_images_wf(archive),
                old(self).intro is None,
                old(self).wf(),
                tries <= MAX_TRIES,
                tries == 0 ==> *self == *old(self),
                tries > 0 ==> self.started(archive) && self.starts@ == old(self).starts@ + tries,
                tries > 0 ==> !(old(self).vm matches Some(v) && yields(v, archive)),
            decreases MAX_TRIES - tries,
        {
            match self.vm.take() {
                Some(mut vm) => {
                    let ghost v0 = vm;
                    if images_ok {
                        match vm.next_frame(archive) {
                            Ok(Some(af)) => {
                                self.vm = Some(vm);
                                let ghost mid = *self;
                                let r = self.scene_frame(af);
                                proof {
                                    assert(vm_step(v0, archive, af, vm));
                                    if tries > 0 {
                                        assert(mid.fresh@ == Some(v0));
                                        assert(self.fresh_spec() == Some(v0));
                                        assert(self.vm_spec() == Some(vm));
                                        let sc = self.run.scenes@[self.scene_idx as int];
                                        assert(self.scene_spec() == Some(sc));
                                        assert(plays_scene(v0, sc, archive, self.width, self.height, self.island_bg()));
                                        assert(self.layer_spec() == mid.layer_spec());
                                        let cue = mid.pending_sound;
                                        assert(scene_frame(af, cue, self.layer_spec(), r));
                                        assert(sc.day_beat ==> cue == Some(0u16));
                                        assert(self.scene_starts() > old(self).scene_starts());
                                        let fv = self.fresh_spec()->Some_0;
                                        let nv = self.vm_spec()->Some_0;
                                        let nl = self.layer_spec();
                                        assert(fv == v0 && nv == vm);
                                        assert(vm_step(fv, archive, af, nv));
                                        assert(scene_frame(af, cue, nl, r));
                                        assert(exists|a: AdsFrame, c: Option<u16>|
                                            #![trigger vm_step(fv, archive, a, nv), scene_frame(a, c, nl, r)]
                                            {
                                                &&& vm_step(fv, archive, a, nv)
                                                &&& c is None || c == Some(0u16)
                                                &&& sc.day_beat ==> c == Some(0u16)
                                                &&& scene_frame(a, c, nl, r)
                                            });
                                        assert(moved_on(*old(self), *self, archive, r));
                                    } else {
                                        assert(old(self).vm_spec() == Some(v0));
                                        assert(self.scene_starts() == old(self).scene_starts());
                                        assert(self.run_spec() == old(self).run_spec());
                                        assert(self.scene_spec() == old(self).scene_spec());
                                        assert(self.vm_spec() == Some(vm));
                                        assert(mid.pending_sound == old(self).cue_spec());
                                        assert(mid.layer_spec() == old(self).layer_spec());
                                        assert(scene_frame(af, old(self).cue_spec(), old(self).layer_spec(), r));
                                        let ov = old(self).vm_spec()->Some_0;
                                        let nv = self.vm_spec()->Some_0;
                                        assert(ov == v0 && nv == vm);
                                        assert(vm_step(ov, archive, af, nv));
                                        assert(exists|a: AdsFrame| #![trigger vm_step(ov, archive, a, nv)]
                                            vm_step(ov, archive, a, nv) && scene_frame(a, old(self).cue_spec(), old(self).layer_spec(), r));
                                        assert(kept_playing(*old(self), *self, archive, r));
                                    }
                                }
                                return r;
                            },
                            _ => {
                                proof {
                                    assert(tries > 0 || !yields(v0, archive));
                                }
                            },
                        }
                    }
                    self.go_next_scene(archive);
                },
                None => {
                    self.go_next_scene(archive);
                },
            }
            tries = tries + 1;
        }
        let r = Frame { surface: Surface::new(self.width, self.height, 0), delay_ticks: 8, sounds: Vec::new() };
        proof {
            assert(blank_frame(r, self.size().0, self.size().1));
            assert(self.scene_starts() == old(self).scene_starts() + MAX_TRIES);
            assert(moved_on(*old(self), *self, archive, r));
        }
        r
    }

    /// Produce the next frame (the runtime never ends): a step of a dissolve in
    /// progress; else the intro screen when it is due; else the next frame of the
    /// running scene player, or, when it has none, the first frame of the next scene
    /// that has one (a blank frame after [`MAX_TRIES`] scene starts without one). At
    /// the start of a run with the dissolve switched on, the first step of a dissolve
    /// from the last frame shown into that frame is shown instead, and the frame is
    /// kept as the dissolve's destination.
    pub fn next_frame(&mut self, archive: &Archive) -> (r: Frame)
        requires
            old(self).wf(),
        ensures
            final(self).wf(),
            final(self).size() == old(self).size(),
            final(self).clock_spec() == old(self).clock_spec(),
            final(self).dissolve_enabled() == old(self).dissolve_enabled(),
            r.surface.width == old(self).size().0,
            r.surface.height == old(self).size().1,
            old(self).dissolve_spec() matches Some(d) ==> ({
                let p = old(self).pending_spec()->Some_0;
                if d.progress().0 + d.batch() >= d.progress().1 {
                    &&& final(self).dissolve_spec() is None
                    &&& r.surface.pixels@ == p.surface.pixels@
                    &&& r.delay_ticks == p.delay_ticks
                    &&& r.sounds@ == p.sounds@
                } else {
                    &&& final(self).dissolve_spec() matches Some(d2) && {
                        &&& d2.progress().0 == d.progress().0 + d.batch()
                        &&& d2.dest_spec() == d.dest_spec()
                        &&& r.surface.pixels@ == d2.image_spec().pixels@
                    }
                    &&& r.delay_ticks == 1
                    &&& r.sounds@.len() == 0
                }
            }),
            old(self).dissolve_spec() is None ==> final(self).intro_spec() is None,
            old(self).dissolve_spec() is None ==> (old(self).intro_spec() matches Some(s) ==> {
                &&& r.surface.pixels@ == s.pixels@
                &&& r.delay_ticks == INTRO_TICKS
                &&& r.sounds@.len() == 0
                &&& final(self).dissolve_spec() is None
                &&& final(self).scene_starts() == old(self).scene_starts()
                &&& final(self).vm_spec() == old(self).vm_spec()
                &&& final(self).run_spec() == old(self).run_spec()
            }),
            ({
                let shown = if old(self).dissolve_spec() is None && final(self).dissolve_spec() is Some {
                    final(self).pending_spec()->Some_0
                } else {
                    r
                };
                old(self).dissolve_spec() is None && old(self).intro_spec() is None ==> {
                    &&& (old(self).vm_spec() matches Some(v) && yields(v, archive)) ==> final(self).dissolve_spec()
                        is None && kept_playing(*old(self), *final(self), archive, r)
                    &&& kept_playing(*old(self), *final(self), archive, shown) || moved_on(
                        *old(self),
                        *final(self),
                        archive,
                        shown,
                    )
                }
            }),
            final(self).dissolve_spec() matches Some(d) ==> r.delay_ticks == 1 && r.sounds@.len() == 0
                && r.surface.pixels@ == d.image_spec().pixels@ && final(self).pending_spec() is Some,
    {
        if self.dissolve.is_some() {
            return self.step_dissolve();
        }
        let frame = self.scene_or_intro(archive);
        if self.dissolve_on && self.run_boundary {
            match self.prev.take() {
                Some(prev) => {
                    if surface_ok(&prev) && surface_ok(&frame.surface) && prev.width == frame.surface.width
                        && prev.height == frame.surface.height && !same_pixels(&prev.pixels, &frame.surface.pixels) {
                        self.run_boundary = false;
                        let to = copy_surface(&frame.surface);
                        self.dissolve = Some(Dissolve::new(prev, to));
                        self.pending = Some(frame);
                        return self.step_dissolve();
                    }
                },
                None => {},
            }
        }
        self.run_boundary = false;
        if self.dissolve_on {
            self.prev = Some(copy_surface(&frame.surface));
        }
        frame
    }
}

} // verus!
