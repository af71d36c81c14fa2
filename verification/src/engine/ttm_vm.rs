//! A headless interpreter for a single TTM animation thread.
//!
//! A thin wrapper over [`crate::engine::ttm_exec`] that runs one TTM scene against its own
//! background and layer, for previewing a single `.TTM`. The multi-thread scene runtime is
//! the ADS scheduler.
use vstd::prelude::*;
use crate::dgds::archive::Archive;
use crate::dgds::pal::Palette;
use crate::dgds::ttm::Ttm;
use crate::engine::error::EngineError;
use crate::engine::surface::{Surface, TRANSPARENT};
use crate::engine::ttm_exec::{
    detect_transparent, run_frame, FrameOutcome, TtmSlot, TtmThread, frame_result, sheets_wf,
    archive_images_wf, offset_ok, tag_index, frame_drawn, sheets_view, missing_in, frame_end,
};

verus! {

/// The result of running [`TtmVm::step`] for one frame.
#[derive(Debug, Clone, PartialEq, Eq)]
pub enum TtmStep {
    /// An `UPDATE` produced a frame; wait `delay_ticks` and play `sounds`.
    Frame {
        /// Frame duration in engine ticks (one tick is 16 ms).
        delay_ticks: u16,
        /// Sound effect ids triggered during this frame.
        sounds: Vec<u16>,
    },
    /// The script ended; no more frames.
    Finished,
}

/// The thread with its pending jump (if any) taken.
pub open spec fn jumped(t: TtmThread) -> TtmThread {
    match t.next_goto {
        Some(g) => TtmThread { ip: g, next_goto: None, ..t },
        None => t,
    }
}

/// Whether `st` reports the frame outcome `out` of a thread now waiting `delay` ticks.
pub open spec fn step_reports(st: TtmStep, out: FrameOutcome, delay: u16) -> bool {
    match out {
        FrameOutcome::Frame { sounds } => st matches TtmStep::Frame { delay_ticks, sounds: s } && delay_ticks == delay && s@ == sounds@,
        FrameOutcome::Finished => st is Finished,
    }
}

/// A single-thread TTM interpreter.
#[derive(Debug, Clone)]
pub struct TtmVm {
    /// The loaded script and its sprite sheets.
    pub slot: TtmSlot,
    /// The interpreted thread.
    pub thread: TtmThread,
    /// The background set by `LOAD_SCREEN`.
    pub background: Surface,
    /// The layer that `COPY_ZONE_TO_BG` draws into.
    pub saved_zones: Surface,
    /// The palette index of the transparent colour key, if any.
    pub transparent_src: Option<u8>,
    /// Island X offset.
    pub dx: i32,
    /// Island Y offset.
    pub dy: i32,
}

impl TtmVm {
    /// Whether the layers all have their pixels, at one size, and the sprite sheets are
    /// complete.
    pub open spec fn wf(&self) -> bool {
        &&& self.thread.layer.wf()
        &&& self.background.wf()
        &&& self.saved_zones.wf()
        &&& self.background.width == self.thread.layer.width
        &&& self.background.height == self.thread.layer.height
        &&& self.saved_zones.width == self.thread.layer.width
        &&& self.saved_zones.height == self.thread.layer.height
        &&& sheets_wf(self.slot.sprites@)
    }

    /// The island offset.
    pub open spec fn offset(&self) -> (i32, i32) {
        (self.dx, self.dy)
    }

    /// The slot's instructions.
    pub open spec fn script(&self) -> Seq<crate::dgds::ttm::TtmInstruction> {
        self.slot.instructions@
    }

    /// The slot's tag table.
    pub open spec fn tag_table(&self) -> Map<u16, usize> {
        self.slot.tags@
    }

    /// Create a VM positioned at `start_tag` (the start if the tag is unknown).
    pub fn new(ttm: &Ttm, start_tag: u16, palette: &Palette, width: u16, height: u16) -> (r: Result<Self, EngineError>)
        ensures
            r matches Ok(vm) ==> {
                &&& vm.wf()
                &&& vm.offset() == (0i32, 0i32)
                &&& vm.thread.running == 1
                &&& vm.thread.ip == tag_index(vm.tag_table(), start_tag)
                &&& vm.thread.layer.width == width
                &&& vm.thread.layer.height == height
                &&& crate::dgds::ttm::ttm_decoded(ttm.bytecode@, Ok(vm.slot.instructions))
                &&& vm.tag_table() == crate::engine::ttm_exec::tag_map(
                    crate::engine::ttm_exec::tags_of(vm.script(), vm.script().len() as int),
                )
            },
            r matches Err(e) ==> exists|d: crate::dgds::error::DgdsError|
                e == EngineError::Dgds(d) && #[trigger] crate::dgds::ttm::ttm_decoded(ttm.bytecode@, Err(d)),
    {
        let slot = match TtmSlot::load(ttm) {
            Ok(s) => s,
            Err(e) => return Err(e),
        };
        let mut thread = TtmThread::new(width, height);
        thread.running = 1;
        thread.ip = slot.find_tag(start_tag);
        Ok(TtmVm {
            slot,
            thread,
            background: Surface::new(width, height, 0),
            saved_zones: Surface::new(width, height, TRANSPARENT),
            transparent_src: detect_transparent(palette),
            dx: 0,
            dy: 0,
        })
    }

    /// Set the island offset applied to all drawing coordinates.
    pub fn set_offset(&mut self, dx: i32, dy: i32)
        ensures
            final(self).offset() == (dx, dy),
            old(self).wf() ==> final(self).wf(),
            final(self).thread == old(self).thread,
    {
        self.dx = dx;
        self.dy = dy;
    }

    /// The TTM thread's drawing layer (with transparent holes).
    pub fn layer(&self) -> (s: &Surface)
        ensures
            s == &self.thread.layer,
    {
        &self.thread.layer
    }

    /// The current background (set by `LOAD_SCREEN`).
    pub fn background(&self) -> (s: &Surface)
        ensures
            s == &self.background,
    {
        &self.background
    }

    /// The composited current frame: the background, then the saved-zones layer, then
    /// the thread's layer on top.
    pub fn frame(&self) -> (s: Surface)
        requires
            self.wf(),
        ensures
            s.wf(),
            s.width == self.thread.layer.width,
            s.height == self.thread.layer.height,
            forall|i: int|
                0 <= i < s.pixels@.len() ==> #[trigger] s.pixels@[i] == if self.thread.layer.pixels@[i]
                    != TRANSPARENT {
                    self.thread.layer.pixels@[i]
                } else if self.saved_zones.pixels@[i] != TRANSPARENT {
                    self.saved_zones.pixels@[i]
                } else {
                    self.background.pixels@[i]
                },
    {
        let mid = self.background.compose_over(&self.saved_zones);
        mid.compose_over(&self.thread.layer)
    }

    /// Run opcodes until the next `UPDATE` (a frame) or the end of the script, after
    /// taking a pending jump.
    pub fn step(&mut self, archive: &Archive) -> (r: Result<TtmStep, EngineError>)
        requires
            old(self).wf(),
            archive_images_wf(archive),
            offset_ok(old(self).offset().0),
            offset_ok(old(self).offset().1),
        ensures
            final(self).wf(),
            final(self).offset() == old(self).offset(),
            final(self).script() == old(self).script(),
            final(self).tag_table() == old(self).tag_table(),
            final(self).transparent_src == old(self).transparent_src,
            old(self).thread.running == 2 ==> (r matches Ok(st) && st is Finished),
            old(self).thread.running == 2 ==> *final(self) == *old(self),
            old(self).thread.running != 2 ==> {
                &&& r matches Ok(st) ==> exists|out: FrameOutcome|
                    frame_result(
                        jumped(old(self).thread),
                        final(self).thread,
                        old(self).script(),
                        old(self).tag_table(),
                        old(self).offset().0,
                        old(self).offset().1,
                        out,
                    ) && step_reports(st, out, final(self).thread.delay)
                &&& r is Ok ==> frame_drawn(
                    jumped(old(self).thread),
                    final(self).thread,
                    old(self).script(),
                    old(self).tag_table(),
                    sheets_view(old(self).slot.sprites@),
                    sheets_view(final(self).slot.sprites@),
                    old(self).background,
                    final(self).background,
                    old(self).saved_zones,
                    final(self).saved_zones,
                    archive,
                    old(self).transparent_src,
                    old(self).offset().0,
                    old(self).offset().1,
                )
                &&& r is Err <==> missing_in(
                    archive,
                    old(self).script(),
                    jumped(old(self).thread).ip as int,
                    frame_end(old(self).script(), jumped(old(self).thread).ip as int),
                )
                &&& r matches Err(e) ==> e is ResourceNotFound
            },
    {
        if self.thread.running == 2 {
            return Ok(TtmStep::Finished);
        }
        match self.thread.next_goto {
            Some(target) => {
                self.thread.ip = target;
                self.thread.next_goto = None;
            },
            None => {},
        }
        let res = run_frame(
            &mut self.thread,
            &mut self.slot,
            &mut self.background,
            &mut self.saved_zones,
            self.transparent_src,
            self.dx,
            self.dy,
            archive,
        );
        match res {
            Ok(FrameOutcome::Frame { sounds }) => {
                let st = TtmStep::Frame { delay_ticks: self.thread.delay, sounds };
                proof {
                    assert(step_reports(st, FrameOutcome::Frame { sounds }, self.thread.delay));
                }
                Ok(st)
            },
            Ok(FrameOutcome::Finished) => {
                proof {
                    assert(step_reports(TtmStep::Finished, FrameOutcome::Finished, self.thread.delay));
                }
                Ok(TtmStep::Finished)
            },
            Err(e) => Err(e),
        }
    }
}

} // verus!
