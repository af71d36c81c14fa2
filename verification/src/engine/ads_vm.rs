//! The ADS scene scheduler: runs an `.ADS` script that orchestrates up to
//! [`MAX_TTM_THREADS`] concurrent TTM animations, compositing their layers each frame.
//!
//! A cooperative, variable-timestep scheduler: [`AdsVm::next_frame`] performs one
//! scheduler iteration and returns the composited frame (or `None` when the scene ends).
use std::collections::HashMap;
use vstd::prelude::*;
use crate::dgds::ads::{decode_ads, Ads, AdsInstruction, AdsRes, ads_decoded, ads_decodes_to};
use crate::dgds::archive::{Archive, first_named};
use crate::dgds::pal::Palette;
use crate::engine::error::EngineError;
use crate::engine::rng::Rng;
use crate::engine::surface::{Surface, TRANSPARENT};
use crate::engine::ttm_exec::{
    detect_transparent, run_frame, FrameOutcome, TtmSlot, TtmThread, sheets_wf, archive_images_wf,
    offset_ok, frame_result, frame_drawn, frame_end, missing_in, sheets_view,
};

verus! {

broadcast use vstd::std_specs::hash::group_hash_axioms;

/// Maximum number of concurrent TTM threads.
pub const MAX_TTM_THREADS: usize = 10;
/// Maximum number of loaded TTM slots.
pub const MAX_TTM_SLOTS: usize = 10;

/// How deeply `GOSUB_TAG` chunks may nest.
pub const MAX_CHUNK_DEPTH: u32 = 64;

/// A composited frame produced by the scheduler.
#[derive(Debug, Clone, PartialEq, Eq)]
pub struct AdsFrame {
    /// The composited indexed-color image for this frame.
    pub surface: Surface,
    /// How long to display the frame, in engine ticks (one tick is 16 ms).
    pub delay_ticks: u16,
    /// Sound effect ids triggered during this frame.
    pub sounds: Vec<u16>,
}

/// A bookmarked chunk: the code after an `IF_LASTPLAYED` test for scene `(slot, tag)`.
#[derive(Debug, Clone, Copy)]
pub struct Chunk {
    /// Slot of the scene the chunk waits for.
    pub slot: u16,
    /// Tag of the scene the chunk waits for.
    pub tag: u16,
    /// Index of the chunk's first instruction.
    pub start: usize,
}

/// One weighted choice of a `RANDOM_START` … `RANDOM_END` block.
#[derive(Debug, Clone, Copy)]
pub struct RandOp {
    /// 0 = add scene, 1 = stop scene, 2 = nothing.
    pub kind: u8,
    /// Scene slot.
    pub slot: u16,
    /// Scene tag.
    pub tag: u16,
    /// Plays (for an added scene).
    pub num_plays: u16,
    /// Relative weight of this choice.
    pub weight: u16,
}

/// The number of threads that are not free.
pub open spec fn active_count(ts: Seq<TtmThread>) -> nat
    decreases ts.len(),
{
    if ts.len() == 0 {
        0
    } else {
        active_count(ts.drop_last()) + if ts.last().running != 0 { 1nat } else { 0nat }
    }
}

/// Replacing one thread changes the count by that thread alone.
pub proof fn lemma_active_update(ts: Seq<TtmThread>, i: int, t: TtmThread)
    requires
        0 <= i < ts.len(),
    ensures
        active_count(ts.update(i, t)) + (if ts[i].running != 0 { 1int } else { 0int })
            == active_count(ts) + (if t.running != 0 { 1int } else { 0int }),
    decreases ts.len(),
{
    if i < ts.len() - 1 {
        assert(ts.update(i, t).drop_last() =~= ts.drop_last().update(i, t));
        lemma_active_update(ts.drop_last(), i, t);
    } else {
        assert(ts.update(i, t).drop_last() =~= ts.drop_last());
    }
}

/// A running thread means a positive count.
pub proof fn lemma_active_pos(ts: Seq<TtmThread>, i: int)
    requires
        0 <= i < ts.len(),
        ts[i].running != 0,
    ensures
        active_count(ts) >= 1,
    decreases ts.len(),
{
    if i < ts.len() - 1 {
        lemma_active_pos(ts.drop_last(), i);
    }
}

/// The count never exceeds the number of threads.
pub proof fn lemma_active_le(ts: Seq<TtmThread>)
    ensures
        active_count(ts) <= ts.len(),
    decreases ts.len(),
{
    if ts.len() > 0 {
        lemma_active_le(ts.drop_last());
    }
}

/// A thread table in which no thread runs.
pub proof fn lemma_active_none(ts: Seq<TtmThread>)
    requires
        forall|i: int| 0 <= i < ts.len() ==> (#[trigger] ts[i]).running == 0,
    ensures
        active_count(ts) == 0,
    decreases ts.len(),
{
    if ts.len() > 0 {
        lemma_active_none(ts.drop_last());
    }
}

/// Which scenes run is read alike from the threads and from their plain values.
pub proof fn lemma_scene_running(ts: Seq<TtmThread>, slot: u16, tag: u16)
    ensures
        scene_running(ts.map_values(|t: TtmThread| tview(t)), slot, tag) == exists|i: int|
            0 <= i < ts.len() && (#[trigger] ts[i]).running == 1 && ts[i].scene_slot == slot
                && ts[i].scene_tag == tag,
{
    let vs = ts.map_values(|t: TtmThread| tview(t));
    if scene_running(vs, slot, tag) {
        let i = choose|i: int|
            0 <= i < vs.len() && (#[trigger] vs[i]).0.running == 1 && vs[i].0.scene_slot == slot
                && vs[i].0.scene_tag == tag;
        assert(ts[i].running == 1);
    }
    if exists|i: int|
        0 <= i < ts.len() && (#[trigger] ts[i]).running == 1 && ts[i].scene_slot == slot
            && ts[i].scene_tag == tag {
        let i = choose|i: int|
            0 <= i < ts.len() && (#[trigger] ts[i]).running == 1 && ts[i].scene_slot == slot
                && ts[i].scene_tag == tag;
        assert(vs[i].0.running == 1);
    }
}

/// The first free thread is the one before which every thread runs.
pub proof fn lemma_first_free(vs: Seq<(TtmThread, (u16, u16, Seq<u8>))>, i: int)
    requires
        0 <= i <= vs.len(),
        forall|j: int| 0 <= j < i ==> (#[trigger] vs[j]).0.running != 0,
        i < vs.len() ==> vs[i].0.running == 0,
    ensures
        first_free(vs, 0) == i,
{
    lemma_first_free_from(vs, 0, i);
}

proof fn lemma_first_free_from(vs: Seq<(TtmThread, (u16, u16, Seq<u8>))>, k: int, i: int)
    requires
        0 <= k <= i <= vs.len(),
        forall|j: int| 0 <= j < i ==> (#[trigger] vs[j]).0.running != 0,
        i < vs.len() ==> vs[i].0.running == 0,
    ensures
        first_free(vs, k) == i,
    decreases i - k,
{
    if k < i {
        lemma_first_free_from(vs, k + 1, i);
    }
}

/// The ADS scene runtime.
#[derive(Debug)]
pub struct AdsVm {
    width: u16,
    height: u16,
    palette: Palette,
    transparent_src: Option<u8>,
    background: Surface,
    saved_zones: Surface,
    slots: Vec<TtmSlot>,
    threads: Vec<TtmThread>,
    ads: Vec<AdsInstruction>,
    tags: HashMap<u16, usize>,
    chunks: Vec<Chunk>,
    local_chunks: Vec<Chunk>,
    rand_ops: Vec<RandOp>,
    num_threads: usize,
    stop_requested: bool,
    rng: Rng,
    dx: i32,
    dy: i32,
}

impl AdsVm {
    /// The runtime's invariant: ten threads with layers of the screen's size over a
    /// background and saved-zones layer of that size, complete sprite sheets, and a
    /// thread count that matches the threads that are not free.
    pub closed spec fn wf(&self) -> bool {
        &&& self.threads@.len() == MAX_TTM_THREADS
        &&& self.slots@.len() == MAX_TTM_SLOTS
        &&& forall|i: int| 0 <= i < self.threads@.len() ==> {
            &&& (#[trigger] self.threads@[i]).layer.wf()
            &&& self.threads@[i].layer.width == self.width
            &&& self.threads@[i].layer.height == self.height
        }
        &&& forall|i: int| 0 <= i < self.slots@.len() ==> sheets_wf((#[trigger] self.slots@[i]).sprites@)
        &&& self.background.wf()
        &&& self.saved_zones.wf()
        &&& self.saved_zones.width == self.width
        &&& self.saved_zones.height == self.height
        &&& self.num_threads == active_count(self.threads@)
    }

    /// The number of threads that are not free.
    pub closed spec fn active(&self) -> nat {
        self.num_threads as nat
    }

    /// The island offset.
    pub closed spec fn offset(&self) -> (i32, i32) {
        (self.dx, self.dy)
    }

    /// The frame size.
    pub closed spec fn size(&self) -> (u16, u16) {
        (self.width, self.height)
    }

    /// The palette frames are rendered with.
    pub closed spec fn palette_spec(&self) -> Palette {
        self.palette
    }

    /// The instruction index recorded for an ADS tag (the last one), or 0.
    fn find_tag(&self, tag: u16) -> (i: usize)
        ensures
            i == crate::engine::ttm_exec::tag_index(self.tags@, tag),
    {
        match self.tags.get(&tag) {
            Some(i) => *i,
            None => 0,
        }
    }

    /// Whether a thread is running scene `(slot, tag)`.
    fn is_running(&self, slot: u16, tag: u16) -> (b: bool)
        ensures
            b == exists|i: int|
                0 <= i < self.threads@.len() && (#[trigger] self.threads@[i]).running == 1
                    && self.threads@[i].scene_slot == slot && self.threads@[i].scene_tag == tag,
    {
        let mut i: usize = 0;
        while i < self.threads.len()
            invariant
                i <= self.threads@.len(),
                forall|j: int|
                    0 <= j < i ==> !((#[trigger] self.threads@[j]).running == 1
                        && self.threads@[j].scene_slot == slot && self.threads@[j].scene_tag == tag),
            decreases self.threads@.len() - i,
        {
            let t = &self.threads[i];
            if t.running == 1 && t.scene_slot == slot && t.scene_tag == tag {
                return true;
            }
            i = i + 1;
        }
        false
    }

    /// Start scene `(slot_no, tag)` on a free thread, unless it already runs or no
    /// thread is free. A negative `arg3` plays it for that many ticks, a positive one
    /// that many times.
    fn add_scene(&mut self, slot_no: u16, tag: u16, arg3: u16)
        requires
            old(self).wf(),
        ensures
            final(self).wf(),
            same_program(*old(self), *final(self)),
            AdsVm::same_stage(*old(self), *final(self)),
            final(self).sched() == add_scene_s(
                old(self).sched(),
                old(self).slot_tags(),
                old(self).width,
                old(self).height,
                slot_no,
                tag,
                arg3,
            ),
    {
        let ghost s0 = self.sched();
        proof {
            lemma_scene_running(self.threads@, slot_no, tag);
        }
        if self.is_running(slot_no, tag) {
            return;
        }
        let mut i: usize = 0;
        while i < self.threads.len()
            invariant
                i <= self.threads@.len(),
                forall|j: int| 0 <= j < i ==> (#[trigger] self.threads@[j]).running != 0,
            ensures
                i < self.threads@.len() ==> self.threads@[i as int].running == 0,
                forall|j: int| 0 <= j < i ==> (#[trigger] self.threads@[j]).running != 0,
            decreases self.threads@.len() - i,
        {
            if self.threads[i].running == 0 {
                break;
            }
            i = i + 1;
        }
        proof {
            lemma_first_free(s0.0, i as int);
        }
        if i >= self.threads.len() {
            return;
        }
        let slot_idx = slot_no as usize;
        let ip = if slot_no != 0 && slot_idx < self.slots.len() {
            self.slots[slot_idx].find_tag(tag)
        } else {
            0
        };
        assert(ip == scene_ip(self.slot_tags(), slot_no, tag));
        let mut thread = TtmThread::new(self.width, self.height);
        thread.running = 1;
        thread.slot_no = slot_idx;
        thread.scene_slot = slot_no;
        thread.scene_tag = tag;
        thread.ip = ip;
        if arg3 >= 0x8000 {
            thread.scene_timer = 0x10000 - arg3 as i32;
        } else if arg3 > 0 {
            thread.scene_iterations = arg3 - 1;
        }
        proof {
            lemma_active_update(self.threads@, i as int, thread);
            lemma_active_le(self.threads@);
            assert(thread.layer.pixels@ =~= blank_layer(self.width, self.height).2);
            assert(tview(thread) == (started(slot_no, tag, ip, arg3), blank_layer(self.width, self.height)));
        }
        let ghost before = self.threads@;
        self.threads.set(i, thread);
        self.num_threads = self.num_threads + 1;
        proof {
            assert(self.threads@.map_values(|t: TtmThread| tview(t)) =~= before.map_values(|t: TtmThread| tview(t)).update(
                i as int,
                tview(thread),
            ));
        }
    }

    /// Free thread `i`.
    fn stop_scene(&mut self, i: usize)
        requires
            old(self).wf(),
            i < MAX_TTM_THREADS,
        ensures
            final(self).wf(),
            same_program(*old(self), *final(self)),
            AdsVm::same_stage(*old(self), *final(self)),
            final(self).sched() == stop_s(old(self).sched(), i as int),
    {
        let ghost before = self.threads@;
        if self.threads[i].running != 0 {
            proof {
                lemma_active_pos(self.threads@, i as int);
            }
            self.threads[i].running = 0;
            proof {
                assert(self.threads@ == before.update(i as int, self.threads@[i as int]));
                lemma_active_update(before, i as int, self.threads@[i as int]);
            }
            self.num_threads = self.num_threads - 1;
        }
        proof {
            assert(self.threads@.map_values(|t: TtmThread| tview(t)) =~= stop_s(old(self).sched(), i as int).0);
        }
    }

    /// Free every thread running scene `(slot, tag)`.
    fn stop_by_tag(&mut self, slot: u16, tag: u16)
        requires
            old(self).wf(),
        ensures
            final(self).wf(),
            same_program(*old(self), *final(self)),
            AdsVm::same_stage(*old(self), *final(self)),
            final(self).sched() == stop_by_tag_s(old(self).sched(), slot, tag),
    {
        let ghost s0 = self.sched();
        let mut i: usize = 0;
        while i < MAX_TTM_THREADS
            invariant
                self.wf(),
                same_program(*old(self), *self),
                AdsVm::same_stage(*old(self), *self),
                i <= MAX_TTM_THREADS,
                s0 == old(self).sched(),
                self.sched().1 == s0.1,
                self.sched().2 == s0.2,
                self.sched().3 == s0.3,
                self.sched().4 == s0.4,
                self.sched().0.len() == s0.0.len(),
                forall|j: int|
                    0 <= j < s0.0.len() ==> #[trigger] self.sched().0[j] == if j < i {
                        stop_by_tag_s(s0, slot, tag).0[j]
                    } else {
                        s0.0[j]
                    },
            decreases MAX_TTM_THREADS - i,
        {
            if self.threads[i].running != 0 && self.threads[i].scene_slot == slot
                && self.threads[i].scene_tag == tag {
                self.stop_scene(i);
            }
            i = i + 1;
        }
        proof {
            assert(self.sched().0 =~= stop_by_tag_s(s0, slot, tag).0);
        }
    }

    /// End a random block: pick one of its choices by weight and apply it.
    fn random_end(&mut self)
        requires
            old(self).wf(),
        ensures
            final(self).wf(),
            same_program(*old(self), *final(self)),
            AdsVm::same_stage(*old(self), *final(self)),
            final(self).sched() == random_end_s(old(self).sched(), old(self).slot_tags(), old(self).width, old(self).height),
    {
        let ghost s0 = self.sched();
        let ghost ops = self.rand_ops@;
        if self.rand_ops.len() == 0 {
            return;
        }
        let mut total: u64 = 0;
        let mut k: usize = 0;
        while k < self.rand_ops.len()
            invariant
                k <= self.rand_ops@.len(),
                ops == self.rand_ops@,
                total == weight_sum(ops, k as int),
                total <= 0xffff_ffff + 0xffff,
                self.wf(),
                *self == *old(self),
            decreases self.rand_ops@.len() - k,
        {
            if total > 0xffff_ffff {
                proof {
                    lemma_weight_mono(ops, k as int, ops.len() as int);
                }
                return;
            }
            total = total + self.rand_ops[k].weight as u64;
            k = k + 1;
        }
        if total == 0 || total > 0xffff_ffff {
            return;
        }
        let ghost r0 = self.rng.state();
        let pick = self.rng.below(total as u32);
        assert(pick == crate::engine::rng::draw(r0) as int % total as int);
        let mut acc: u64 = 0;
        let mut chosen = self.rand_ops[0];
        let mut k: usize = 0;
        while k < self.rand_ops.len()
            invariant_except_break
                acc == weight_sum(ops, k as int),
                acc <= pick,
                chosen_from(ops, pick as int, 0) == chosen_from(ops, pick as int, k as int),
            invariant
                k <= self.rand_ops@.len(),
                ops == self.rand_ops@,
                ops.len() > 0,
                pick < total,
                total == weight_sum(ops, ops.len() as int),
                total <= 0xffff_ffff,
                chosen == ops[0] || chosen == ops[chosen_from(ops, pick as int, 0)],
            ensures
                chosen == ops[chosen_from(ops, pick as int, 0)],
            decreases self.rand_ops@.len() - k,
        {
            let w = self.rand_ops[k].weight as u64;
            acc = acc + w;
            if (pick as u64) < acc {
                chosen = self.rand_ops[k];
                break;
            }
            k = k + 1;
        }
        let ghost s1 = self.sched();
        assert(s1 == (s0.0, s0.1, s0.2, s0.3, crate::engine::rng::xorshift(r0)));
        if chosen.kind == 0 {
            self.add_scene(chosen.slot, chosen.tag, chosen.num_plays);
        } else if chosen.kind == 1 {
            self.stop_by_tag(chosen.slot, chosen.tag);
        }
    }
}

/// Whether `a` and `b` run the same program at the same size: script, tags, chunks,
/// slots' scripts and size agree.
pub open spec fn same_program(a: AdsVm, b: AdsVm) -> bool {
    &&& a.ads_spec() == b.ads_spec()
    &&& a.size() == b.size()
    &&& a.offset() == b.offset()
    &&& a.palette_spec() == b.palette_spec()
}

impl AdsVm {
    /// The decoded script.
    pub closed spec fn ads_spec(&self) -> (Seq<AdsInstruction>, Map<u16, usize>, Seq<Chunk>) {
        (self.ads@, self.tags@, self.chunks@)
    }

    /// The scheduling state as plain values.
    pub closed spec fn sched(&self) -> Sched {
        (
            self.threads@.map_values(|t: TtmThread| tview(t)),
            self.local_chunks@,
            self.rand_ops@,
            self.stop_requested,
            self.rng.state(),
        )
    }

    /// The loaded slots.
    pub closed spec fn slots_spec(&self) -> Seq<TtmSlot> {
        self.slots@
    }

    /// The tag tables of the loaded slots.
    pub closed spec fn slot_tags(&self) -> Seq<Map<u16, usize>> {
        self.slots@.map_values(|sl: TtmSlot| sl.tags@)
    }

    /// Whether `a` and `b` agree on everything but the scheduling state.
    pub closed spec fn same_stage(a: AdsVm, b: AdsVm) -> bool {
        &&& a.width == b.width
        &&& a.height == b.height
        &&& a.palette == b.palette
        &&& a.transparent_src == b.transparent_src
        &&& a.background == b.background
        &&& a.saved_zones == b.saved_zones
        &&& a.slots == b.slots
        &&& a.ads@ == b.ads@
        &&& a.tags@ == b.tags@
        &&& a.chunks@ == b.chunks@
        &&& a.dx == b.dx
        &&& a.dy == b.dy
    }
}

/// Argument `k` of an ADS instruction (0 when missing).
fn arg(ins: &AdsInstruction, k: usize) -> (w: u16)
    ensures
        w == (if k < ins.args@.len() { ins.args@[k as int] } else { 0 }),
{
    if k < ins.args.len() {
        ins.args[k]
    } else {
        0
    }
}

/// The tag table of the first `n` ADS instructions: each tag id with the index after it.
pub open spec fn ads_tags_of(ins: Seq<AdsInstruction>, n: int) -> Seq<(u16, usize)>
    decreases n,
{
    if n <= 0 {
        Seq::empty()
    } else if ins[n - 1].opcode < 0x100 {
        ads_tags_of(ins, n - 1).push((ins[n - 1].opcode, n as usize))
    } else {
        ads_tags_of(ins, n - 1)
    }
}

/// Where the sequence tagged `tag` starts among the first `n` instructions: after its
/// last tag instruction, or 0.
pub open spec fn ads_start(ins: Seq<AdsInstruction>, n: int, tag: u16) -> int
    decreases n,
{
    if n <= 0 {
        0
    } else if ins[n - 1].opcode < 0x100 && ins[n - 1].opcode == tag {
        n
    } else {
        ads_start(ins, n - 1, tag)
    }
}

/// Whether `c` bookmarks the code after an `IF_LASTPLAYED`-style test of its scene.
pub open spec fn chunk_ok(ins: Seq<AdsInstruction>, c: Chunk) -> bool {
    &&& 1 <= c.start <= ins.len()
    &&& ins[c.start - 1].opcode == 0x1350 || ins[c.start - 1].opcode == 0x1360
}

/// A thread as plain values: its registers (with the layer left out) and its layer's
/// width, height and pixels.
pub open spec fn tview(t: TtmThread) -> (TtmThread, (u16, u16, Seq<u8>)) {
    (TtmThread { layer: vstd::pervasive::arbitrary(), ..t }, (t.layer.width, t.layer.height, t.layer.pixels@))
}

/// A fresh transparent layer of the given size, as plain values.
pub open spec fn blank_layer(width: u16, height: u16) -> (u16, u16, Seq<u8>) {
    (width, height, Seq::new((width * height) as nat, |k: int| TRANSPARENT))
}

/// The scheduling state of a runtime as plain values: its threads, its bookmarked local
/// chunks, its pending random choices, whether the script asked to stop, and the
/// generator state.
pub type Sched = (Seq<(TtmThread, (u16, u16, Seq<u8>))>, Seq<Chunk>, Seq<RandOp>, bool, u64);

/// Argument `k` of an ADS instruction (0 when missing).
pub open spec fn arg_of(ins: AdsInstruction, k: int) -> u16 {
    if 0 <= k < ins.args@.len() { ins.args@[k] } else { 0 }
}

/// Whether a thread of `ts` is running scene `(slot, tag)`.
pub open spec fn scene_running(ts: Seq<(TtmThread, (u16, u16, Seq<u8>))>, slot: u16, tag: u16) -> bool {
    exists|i: int|
        0 <= i < ts.len() && (#[trigger] ts[i]).0.running == 1 && ts[i].0.scene_slot == slot
            && ts[i].0.scene_tag == tag
}

/// The index of the first free thread of `ts` at or after `i` (the length when none is).
pub open spec fn first_free(ts: Seq<(TtmThread, (u16, u16, Seq<u8>))>, i: int) -> int
    decreases ts.len() - i,
{
    if i < 0 || i >= ts.len() {
        ts.len() as int
    } else if ts[i].0.running == 0 {
        i
    } else {
        first_free(ts, i + 1)
    }
}

/// Where scene `(slot_no, tag)` starts: its tag in the slot's script (the start when the
/// slot is 0, missing, or lacks the tag).
pub open spec fn scene_ip(slot_tags: Seq<Map<u16, usize>>, slot_no: u16, tag: u16) -> usize {
    if slot_no != 0 && (slot_no as int) < slot_tags.len() {
        crate::engine::ttm_exec::tag_index(slot_tags[slot_no as int], tag)
    } else {
        0
    }
}

/// The registers of a thread started on scene `(slot_no, tag)` at `ip`: a negative
/// `arg3` plays it for that many ticks, a positive one that many times.
pub open spec fn started(slot_no: u16, tag: u16, ip: usize, arg3: u16) -> TtmThread {
    TtmThread {
        layer: vstd::pervasive::arbitrary(),
        running: 1,
        slot_no: slot_no as usize,
        scene_slot: slot_no,
        scene_tag: tag,
        ip,
        next_goto: None,
        delay: 4,
        timer: 0,
        scene_timer: if arg3 >= 0x8000 { (0x10000 - arg3) as i32 } else { 0 },
        scene_iterations: if arg3 >= 0x8000 || arg3 == 0 { 0 } else { (arg3 - 1) as u16 },
        selected_bmp_slot: 0,
        fg: 0x0F,
        bg: 0x0F,
        clip: None,
    }
}

/// The index of the last of the first `n` resources bound to slot `id` (-1 if none).
pub open spec fn last_bound(res: Seq<AdsRes>, id: int, n: int) -> int
    decreases n,
{
    if n <= 0 {
        -1
    } else if res[n - 1].id as int == id {
        n - 1
    } else {
        last_bound(res, id, n - 1)
    }
}

/// Whether `sl` is the slot loaded from the archive's TTM `name`: its decoded script,
/// that script's tag table, and empty sprite sheets.
pub open spec fn slot_loaded(archive: &Archive, name: Seq<char>, sl: TtmSlot) -> bool {
    &&& match first_named(archive.ttms@, name) {
        Some(j) => crate::dgds::ttm::ttm_decoded(archive.ttms@[j].1.bytecode@, Ok(sl.instructions)),
        None => false,
    }
    &&& sl.tags@ == crate::engine::ttm_exec::tag_map(
        crate::engine::ttm_exec::tags_of(sl.instructions@, sl.instructions@.len() as int),
    )
    &&& sl.sprites@.len() == crate::engine::ttm_exec::MAX_BMP_SLOTS
    &&& forall|i: int| 0 <= i < crate::engine::ttm_exec::MAX_BMP_SLOTS ==> #[trigger] sl.sprites@[i]@.len() == 0
}

/// Whether `sl` is an unused slot: no script and empty sprite sheets.
pub open spec fn slot_unused(sl: TtmSlot) -> bool {
    &&& sl.instructions@.len() == 0
    &&& sl.tags@ == Map::<u16, usize>::empty()
    &&& sl.sprites@.len() == crate::engine::ttm_exec::MAX_BMP_SLOTS
    &&& forall|i: int| 0 <= i < crate::engine::ttm_exec::MAX_BMP_SLOTS ==> #[trigger] sl.sprites@[i]@.len() == 0
}

/// Whether `slots` holds, for each slot id, the TTM of the last resource bound to it
/// among the first `n` (an unused slot when none is).
pub open spec fn slots_loaded(archive: &Archive, res: Seq<AdsRes>, n: int, slots: Seq<TtmSlot>) -> bool {
    &&& slots.len() == MAX_TTM_SLOTS
    &&& forall|id: int|
        0 <= id < MAX_TTM_SLOTS ==> if last_bound(res, id, n) >= 0 {
            slot_loaded(archive, res[last_bound(res, id, n)].name@, #[trigger] slots[id])
        } else {
            slot_unused(slots[id])
        }
}

/// Binding resource `n` to its slot extends the loaded slots by one resource.
proof fn lemma_slots_step(archive: &Archive, res: Seq<AdsRes>, n: int, before: Seq<TtmSlot>, after: Seq<TtmSlot>)
    requires
        0 <= n < res.len(),
        slots_loaded(archive, res, n, before),
        (res[n].id as int) < MAX_TTM_SLOTS ==> after == before.update(res[n].id as int, after[res[n].id as int])
            && slot_loaded(archive, res[n].name@, after[res[n].id as int]),
        (res[n].id as int) >= MAX_TTM_SLOTS ==> after == before,
    ensures
        slots_loaded(archive, res, n + 1, after),
{
    assert forall|id: int| 0 <= id < MAX_TTM_SLOTS implies if last_bound(res, id, n + 1) >= 0 {
        slot_loaded(archive, res[last_bound(res, id, n + 1)].name@, #[trigger] after[id])
    } else {
        slot_unused(after[id])
    } by {
        if id != res[n].id as int {
            assert(last_bound(res, id, n + 1) == last_bound(res, id, n));
            assert(after[id] == before[id]);
        } else {
            assert(last_bound(res, id, n + 1) == n);
        }
    }
}

/// The registers of a free thread.
pub open spec fn idle_thread() -> TtmThread {
    TtmThread {
        layer: vstd::pervasive::arbitrary(),
        running: 0,
        slot_no: 0,
        scene_slot: 0,
        scene_tag: 0,
        ip: 0,
        next_goto: None,
        delay: 4,
        timer: 0,
        scene_timer: 0,
        scene_iterations: 0,
        selected_bmp_slot: 0,
        fg: 0x0F,
        bg: 0x0F,
        clip: None,
    }
}

/// The scheduling state of a new runtime: every thread free with a fresh layer, nothing
/// bookmarked or pending, and the generator seeded with `seed`.
pub open spec fn initial_sched(width: u16, height: u16, seed: u64) -> Sched {
    (
        Seq::new(MAX_TTM_THREADS as nat, |i: int| (idle_thread(), blank_layer(width, height))),
        Seq::empty(),
        Seq::empty(),
        false,
        crate::engine::rng::seed_state(seed),
    )
}

/// Start scene `(slot_no, tag)` on the first free thread, with a fresh layer of the
/// given size, unless it already runs or no thread is free.
pub open spec fn add_scene_s(
    s: Sched,
    slot_tags: Seq<Map<u16, usize>>,
    width: u16,
    height: u16,
    slot_no: u16,
    tag: u16,
    arg3: u16,
) -> Sched {
    let i = first_free(s.0, 0);
    if scene_running(s.0, slot_no, tag) || i >= s.0.len() {
        s
    } else {
        (
            s.0.update(i, (started(slot_no, tag, scene_ip(slot_tags, slot_no, tag), arg3), blank_layer(width, height))),
            s.1,
            s.2,
            s.3,
            s.4,
        )
    }
}

/// Free thread `i`.
pub open spec fn stop_s(s: Sched, i: int) -> Sched {
    (s.0.update(i, (TtmThread { running: 0, ..s.0[i].0 }, s.0[i].1)), s.1, s.2, s.3, s.4)
}

/// Free every thread running scene `(slot, tag)`.
pub open spec fn stop_by_tag_s(s: Sched, slot: u16, tag: u16) -> Sched {
    (
        s.0.map_values(
            |e: (TtmThread, (u16, u16, Seq<u8>))|
                if e.0.running != 0 && e.0.scene_slot == slot && e.0.scene_tag == tag {
                    (TtmThread { running: 0, ..e.0 }, e.1)
                } else {
                    e
                },
        ),
        s.1,
        s.2,
        s.3,
        s.4,
    )
}

/// The sum of the weights of the first `n` random choices.
pub open spec fn weight_sum(ops: Seq<RandOp>, n: int) -> int
    decreases n,
{
    if n <= 0 {
        0
    } else {
        weight_sum(ops, n - 1) + ops[n - 1].weight
    }
}

/// Running weight sums never fall.
pub proof fn lemma_weight_mono(ops: Seq<RandOp>, a: int, b: int)
    requires
        0 <= a <= b,
    ensures
        weight_sum(ops, a) <= weight_sum(ops, b),
    decreases b - a,
{
    if a < b {
        lemma_weight_mono(ops, a, b - 1);
    }
}

/// The choice a draw of `pick` lands on: the first whose running weight sum exceeds it.
pub open spec fn chosen_from(ops: Seq<RandOp>, pick: int, k: int) -> int
    decreases ops.len() - k,
{
    if k < 0 || k >= ops.len() {
        0
    } else if pick < weight_sum(ops, k + 1) {
        k
    } else {
        chosen_from(ops, pick, k + 1)
    }
}

/// End a random block: when the weights sum to a positive 32-bit total, draw one of the
/// choices by weight and apply it (start a scene, stop a scene, or nothing).
pub open spec fn random_end_s(s: Sched, slot_tags: Seq<Map<u16, usize>>, width: u16, height: u16) -> Sched {
    let ops = s.2;
    let total = weight_sum(ops, ops.len() as int);
    if ops.len() == 0 || total == 0 || total > 0xffff_ffff {
        s
    } else {
        let pick = crate::engine::rng::draw(s.4) as int % total;
        let s1 = (s.0, s.1, s.2, s.3, crate::engine::rng::xorshift(s.4));
        let c = ops[chosen_from(ops, pick, 0)];
        if c.kind == 0 {
            add_scene_s(s1, slot_tags, width, height, c.slot, c.tag, c.num_plays)
        } else if c.kind == 1 {
            stop_by_tag_s(s1, c.slot, c.tag)
        } else {
            s1
        }
    }
}

/// What playing the script from instruction `i` does to the scheduling state `s`, with
/// the block flags `(in_rand, in_or, in_skip, in_if_local)`: it starts and stops scenes,
/// collects random choices and bookmarks local chunks until the chunk ends (`END_IF`
/// outside an `OR`, `END` outside a skipped block, or the end of the script).
/// `GOSUB_TAG` plays the tagged chunk first, nesting at most `depth` deep.
pub open spec fn chunk_run(
    s: Sched,
    ads: Seq<AdsInstruction>,
    ads_tags: Map<u16, usize>,
    slot_tags: Seq<Map<u16, usize>>,
    width: u16,
    height: u16,
    i: int,
    flags: (bool, bool, bool, bool),
    depth: nat,
) -> Sched
    decreases depth, ads.len() - i,
{
    if i < 0 || i >= ads.len() {
        s
    } else {
        let ins = ads[i];
        let op = ins.opcode;
        let (rnd, or, skip, ifl) = flags;
        let a0 = arg_of(ins, 0);
        let a1 = arg_of(ins, 1);
        let a2 = arg_of(ins, 2);
        let a3 = arg_of(ins, 3);
        let next = i + 1;
        if op == 0x1070 {
            chunk_run(
                (s.0, s.1.push(Chunk { slot: a0, tag: a1, start: next as usize }), s.2, s.3, s.4),
                ads, ads_tags, slot_tags, width, height, next, (rnd, or, skip, true), depth,
            )
        } else if op == 0x1350 {
            if !or {
                s
            } else {
                chunk_run(s, ads, ads_tags, slot_tags, width, height, next, (rnd, false, skip, ifl), depth)
            }
        } else if op == 0x1360 {
            chunk_run(
                s, ads, ads_tags, slot_tags, width, height, next,
                (rnd, or, skip || scene_running(s.0, a0, a1), ifl), depth,
            )
        } else if op == 0x1370 {
            chunk_run(
                s, ads, ads_tags, slot_tags, width, height, next,
                (rnd, or, !scene_running(s.0, a0, a1), ifl), depth,
            )
        } else if op == 0x1430 {
            chunk_run(s, ads, ads_tags, slot_tags, width, height, next, (rnd, true, skip, ifl), depth)
        } else if op == 0x1510 {
            if skip {
                chunk_run(s, ads, ads_tags, slot_tags, width, height, next, (rnd, or, false, ifl), depth)
            } else {
                s
            }
        } else if op == 0x1520 {
            if ifl {
                chunk_run(s, ads, ads_tags, slot_tags, width, height, next, (rnd, or, skip, false), depth)
            } else {
                chunk_run(
                    add_scene_s(s, slot_tags, width, height, a1, a2, a3),
                    ads, ads_tags, slot_tags, width, height, next, flags, depth,
                )
            }
        } else if op == 0x2005 {
            let s1 = if skip {
                s
            } else if rnd {
                (s.0, s.1, s.2.push(RandOp { kind: 0, slot: a0, tag: a1, num_plays: a2, weight: a3 }), s.3, s.4)
            } else {
                add_scene_s(s, slot_tags, width, height, a0, a1, a2)
            };
            chunk_run(s1, ads, ads_tags, slot_tags, width, height, next, flags, depth)
        } else if op == 0x2010 {
            let s1 = if skip {
                s
            } else if rnd {
                (s.0, s.1, s.2.push(RandOp { kind: 1, slot: a0, tag: a1, num_plays: 0, weight: a2 }), s.3, s.4)
            } else {
                stop_by_tag_s(s, a0, a1)
            };
            chunk_run(s1, ads, ads_tags, slot_tags, width, height, next, flags, depth)
        } else if op == 0x3010 {
            chunk_run(
                (s.0, s.1, Seq::empty(), s.3, s.4),
                ads, ads_tags, slot_tags, width, height, next, (true, or, skip, ifl), depth,
            )
        } else if op == 0x3020 {
            let s1 = if rnd {
                (s.0, s.1, s.2.push(RandOp { kind: 2, slot: 0, tag: 0, num_plays: 0, weight: a0 }), s.3, s.4)
            } else {
                s
            };
            chunk_run(s1, ads, ads_tags, slot_tags, width, height, next, flags, depth)
        } else if op == 0x30FF {
            chunk_run(
                random_end_s(s, slot_tags, width, height),
                ads, ads_tags, slot_tags, width, height, next, (false, or, skip, ifl), depth,
            )
        } else if op == 0xF200 {
            let target = crate::engine::ttm_exec::tag_index(ads_tags, a0) as int;
            let s1 = if depth > 0 {
                chunk_run(
                    s, ads, ads_tags, slot_tags, width, height, target,
                    (false, false, false, false), (depth - 1) as nat,
                )
            } else {
                s
            };
            chunk_run(s1, ads, ads_tags, slot_tags, width, height, next, flags, depth)
        } else if op == 0xFFFF {
            if skip {
                chunk_run(s, ads, ads_tags, slot_tags, width, height, next, (rnd, or, false, ifl), depth)
            } else {
                chunk_run((s.0, s.1, s.2, true, s.4), ads, ads_tags, slot_tags, width, height, next, flags, depth)
            }
        } else {
            chunk_run(s, ads, ads_tags, slot_tags, width, height, next, flags, depth)
        }
    }
}

/// Whether chunk `c` waits for scene `(slot, tag)`.
pub open spec fn waits_for(c: Chunk, slot: u16, tag: u16) -> bool {
    c.slot == slot && c.tag == tag
}

/// The starts of the chunks among the first `n` of `cs` that wait for scene `(slot, tag)`.
pub open spec fn waiting_starts(cs: Seq<Chunk>, slot: u16, tag: u16, n: int) -> Seq<usize>
    decreases n,
{
    if n <= 0 {
        Seq::empty()
    } else if waits_for(cs[n - 1], slot, tag) {
        waiting_starts(cs, slot, tag, n - 1).push(cs[n - 1].start)
    } else {
        waiting_starts(cs, slot, tag, n - 1)
    }
}

/// The chunks among the first `n` of `cs` that do not wait for scene `(slot, tag)`.
pub open spec fn other_chunks(cs: Seq<Chunk>, slot: u16, tag: u16, n: int) -> Seq<Chunk>
    decreases n,
{
    if n <= 0 {
        Seq::empty()
    } else if waits_for(cs[n - 1], slot, tag) {
        other_chunks(cs, slot, tag, n - 1)
    } else {
        other_chunks(cs, slot, tag, n - 1).push(cs[n - 1])
    }
}

/// The scheduling state after playing the chunks starting at the first `n` of `starts`
/// in order, each nesting at most [`MAX_CHUNK_DEPTH`] deep.
pub open spec fn chunks_run(
    s: Sched,
    ads: Seq<AdsInstruction>,
    ads_tags: Map<u16, usize>,
    slot_tags: Seq<Map<u16, usize>>,
    width: u16,
    height: u16,
    starts: Seq<usize>,
    n: int,
) -> Sched
    decreases n,
{
    if n <= 0 {
        s
    } else {
        chunk_run(
            chunks_run(s, ads, ads_tags, slot_tags, width, height, starts, n - 1),
            ads, ads_tags, slot_tags, width, height, starts[n - 1] as int,
            (false, false, false, false), MAX_CHUNK_DEPTH as nat,
        )
    }
}

/// What the end of scene `(slot, tag)` triggers: the local chunks waiting for it, which
/// are then dropped, if any local chunks are bookmarked; otherwise the sequence's own
/// chunks waiting for it (`chunks`).
pub open spec fn triggered_s(
    s: Sched,
    chunks: Seq<Chunk>,
    ads: Seq<AdsInstruction>,
    ads_tags: Map<u16, usize>,
    slot_tags: Seq<Map<u16, usize>>,
    width: u16,
    height: u16,
    slot: u16,
    tag: u16,
) -> Sched {
    if s.1.len() > 0 {
        let starts = waiting_starts(s.1, slot, tag, s.1.len() as int);
        chunks_run(
            (s.0, other_chunks(s.1, slot, tag, s.1.len() as int), s.2, s.3, s.4),
            ads, ads_tags, slot_tags, width, height, starts, starts.len() as int,
        )
    } else {
        let starts = waiting_starts(chunks, slot, tag, chunks.len() as int);
        chunks_run(s, ads, ads_tags, slot_tags, width, height, starts, starts.len() as int)
    }
}

/// Every active thread's timer advanced by `mini` ticks (stopping at zero).
pub open spec fn timers_s(s: Sched, mini: u16) -> Sched {
    (
        s.0.map_values(
            |e: (TtmThread, (u16, u16, Seq<u8>))|
                if e.0.running != 0 {
                    (TtmThread { timer: if e.0.timer > mini { (e.0.timer - mini) as u16 } else { 0 }, ..e.0 }, e.1)
                } else {
                    e
                },
        ),
        s.1,
        s.2,
        s.3,
        s.4,
    )
}

/// Where a replayed scene restarts: its tag in the thread's slot (the start when the
/// slot is missing or lacks the tag).
pub open spec fn replay_ip(slot_tags: Seq<Map<u16, usize>>, slot_no: usize, tag: u16) -> usize {
    if (slot_no as int) < slot_tags.len() {
        crate::engine::ttm_exec::tag_index(slot_tags[slot_no as int], tag)
    } else {
        0
    }
}

/// A thread whose timer ran out, after taking its pending jump and spending its "play
/// for N ticks" budget (finishing when the budget is used up).
pub open spec fn expired(t: TtmThread) -> TtmThread {
    let t1 = match t.next_goto {
        Some(g) => TtmThread { ip: g, next_goto: None, ..t },
        None => t,
    };
    if t1.scene_timer > 0 {
        let left = t1.scene_timer - t1.delay;
        TtmThread { scene_timer: left as i32, running: if left <= 0 { 2 } else { t1.running }, ..t1 }
    } else {
        t1
    }
}

/// What the scheduler does with thread `i` once all timers have advanced: a thread whose
/// timer ran out takes its jump and spends its budget; a finished one replays its scene
/// while replays are left, and is otherwise freed, after which (unless the script asked
/// to stop) the chunks waiting for its scene are played.
pub open spec fn retire_one(
    s: Sched,
    i: int,
    chunks: Seq<Chunk>,
    ads: Seq<AdsInstruction>,
    ads_tags: Map<u16, usize>,
    slot_tags: Seq<Map<u16, usize>>,
    width: u16,
    height: u16,
) -> Sched {
    let t = s.0[i].0;
    let lay = s.0[i].1;
    if t.running == 0 || t.timer != 0 {
        s
    } else {
        let t2 = expired(t);
        if t2.running == 2 && t2.scene_iterations > 0 {
            let t3 = TtmThread {
                scene_iterations: (t2.scene_iterations - 1) as u16,
                running: 1,
                ip: replay_ip(slot_tags, t2.slot_no, t2.scene_tag),
                ..t2
            };
            (s.0.update(i, (t3, lay)), s.1, s.2, s.3, s.4)
        } else if t2.running == 2 {
            let s1 = stop_s((s.0.update(i, (t2, lay)), s.1, s.2, s.3, s.4), i);
            if s1.3 {
                s1
            } else {
                triggered_s(s1, chunks, ads, ads_tags, slot_tags, width, height, t2.scene_slot, t2.scene_tag)
            }
        } else {
            (s.0.update(i, (t2, lay)), s.1, s.2, s.3, s.4)
        }
    }
}

/// The scheduling state after [`retire_one`] has visited threads `0..n` in order.
pub open spec fn retire_s(
    s: Sched,
    n: int,
    chunks: Seq<Chunk>,
    ads: Seq<AdsInstruction>,
    ads_tags: Map<u16, usize>,
    slot_tags: Seq<Map<u16, usize>>,
    width: u16,
    height: u16,
) -> Sched
    decreases n,
{
    if n <= 0 {
        s
    } else {
        retire_one(
            retire_s(s, n - 1, chunks, ads, ads_tags, slot_tags, width, height),
            n - 1,
            chunks,
            ads,
            ads_tags,
            slot_tags,
            width,
            height,
        )
    }
}

/// Scan the script: the tag table, the chunks of the sequence `start_tag` that wait for
/// a scene to end, and where that sequence starts.
fn ads_load(instructions: &Vec<AdsInstruction>, start_tag: u16) -> (r: (HashMap<u16, usize>, Vec<Chunk>, usize))
    ensures
        r.0@ == crate::engine::ttm_exec::tag_map(ads_tags_of(instructions@, instructions@.len() as int)),
        r.2 == ads_start(instructions@, instructions@.len() as int, start_tag),
        forall|k: int| 0 <= k < r.1@.len() ==> chunk_ok(instructions@, #[trigger] r.1@[k]),
{
    let mut tags: HashMap<u16, usize> = HashMap::new();
    let mut chunks: Vec<Chunk> = Vec::new();
    let mut start: usize = 0;
    let mut bookmarking = false;
    let mut bookmarking_inr = false;
    let mut i: usize = 0;
    while i < instructions.len()
        invariant
            i <= instructions@.len(),
            tags@ == crate::engine::ttm_exec::tag_map(ads_tags_of(instructions@, i as int)),
            start == ads_start(instructions@, i as int, start_tag),
            forall|k: int| 0 <= k < chunks@.len() ==> chunk_ok(instructions@, #[trigger] chunks@[k]),
        decreases instructions@.len() - i,
    {
        let ins = &instructions[i];
        let op = ins.opcode;
        if op == 0x1350 {
            if bookmarking {
                bookmarking_inr = false;
                chunks.push(Chunk { slot: arg(ins, 0), tag: arg(ins, 1), start: i + 1 });
            }
        } else if op == 0x1360 {
            if bookmarking && bookmarking_inr {
                chunks.push(Chunk { slot: arg(ins, 0), tag: arg(ins, 1), start: i + 1 });
            }
        } else if op == 0x1370 {
            bookmarking_inr = false;
        } else if ins.is_tag() {
            tags.insert(op, i + 1);
            proof {
                assert(ads_tags_of(instructions@, i + 1).drop_last() =~= ads_tags_of(instructions@, i as int));
            }
            if op == start_tag {
                start = i + 1;
                bookmarking = true;
                bookmarking_inr = true;
            } else {
                bookmarking = false;
                bookmarking_inr = false;
            }
        }
        i = i + 1;
    }
    (tags, chunks, start)
}

impl AdsVm {
    /// Run the script from instruction `start` until the chunk ends, starting and
    /// stopping scenes, collecting random choices and bookmarking local chunks (see
    /// [`chunk_run`]). `GOSUB_TAG` chunks nest at most `depth` deep.
    fn play_chunk(&mut self, start: usize, depth: u32)
        requires
            old(self).wf(),
        ensures
            final(self).wf(),
            same_program(*old(self), *final(self)),
            AdsVm::same_stage(*old(self), *final(self)),
            final(self).sched() == chunk_run(
                old(self).sched(),
                old(self).ads@,
                old(self).tags@,
                old(self).slot_tags(),
                old(self).width,
                old(self).height,
                start as int,
                (false, false, false, false),
                depth as nat,
            ),
        decreases depth,
    {
        let ghost ads = self.ads@;
        let ghost atags = self.tags@;
        let ghost st = self.slot_tags();
        let ghost w = self.width;
        let ghost h = self.height;
        let ghost goal = chunk_run(self.sched(), ads, atags, st, w, h, start as int, (false, false, false, false), depth as nat);
        let mut i = start;
        let mut in_rand = false;
        let mut in_or = false;
        let mut in_skip = false;
        let mut in_if_local = false;
        while i < self.ads.len()
            invariant_except_break
                goal == chunk_run(self.sched(), ads, atags, st, w, h, i as int, (in_rand, in_or, in_skip, in_if_local), depth as nat),
            invariant
                self.wf(),
                same_program(*old(self), *self),
                AdsVm::same_stage(*old(self), *self),
                ads == self.ads@,
                atags == self.tags@,
                st == self.slot_tags(),
                w == self.width,
                h == self.height,
                goal == chunk_run(old(self).sched(), ads, atags, st, w, h, start as int, (false, false, false, false), depth as nat),
            ensures
                goal == self.sched(),
            decreases self.ads_spec().0.len() - i,
        {
            let ghost s = self.sched();
            let ghost ii = i as int;
            let ins = &self.ads[i];
            let op = ins.opcode;
            let a0 = arg(ins, 0);
            let a1 = arg(ins, 1);
            let a2 = arg(ins, 2);
            let a3 = arg(ins, 3);
            assert(a0 == arg_of(ads[ii], 0) && a1 == arg_of(ads[ii], 1) && a2 == arg_of(ads[ii], 2) && a3 == arg_of(ads[ii], 3));
            proof {
                lemma_scene_running(self.threads@, a0, a1);
            }
            i = i + 1;
            if op == 0x1070 {
                in_if_local = true;
                self.local_chunks.push(Chunk { slot: a0, tag: a1, start: i });
            } else if op == 0x1350 {
                if !in_or {
                    break;
                }
                in_or = false;
            } else if op == 0x1360 {
                if self.is_running(a0, a1) {
                    in_skip = true;
                }
            } else if op == 0x1370 {
                in_skip = !self.is_running(a0, a1);
            } else if op == 0x1430 {
                in_or = true;
            } else if op == 0x1510 {
                if in_skip {
                    in_skip = false;
                } else {
                    break;
                }
            } else if op == 0x1520 {
                if in_if_local {
                    in_if_local = false;
                } else {
                    self.add_scene(a1, a2, a3);
                }
            } else if op == 0x2005 {
                if !in_skip {
                    if in_rand {
                        self.rand_ops.push(RandOp { kind: 0, slot: a0, tag: a1, num_plays: a2, weight: a3 });
                    } else {
                        self.add_scene(a0, a1, a2);
                    }
                }
            } else if op == 0x2010 {
                if !in_skip {
                    if in_rand {
                        self.rand_ops.push(RandOp { kind: 1, slot: a0, tag: a1, num_plays: 0, weight: a2 });
                    } else {
                        self.stop_by_tag(a0, a1);
                    }
                }
            } else if op == 0x3010 {
                self.rand_ops.clear();
                in_rand = true;
            } else if op == 0x3020 {
                if in_rand {
                    self.rand_ops.push(RandOp { kind: 2, slot: 0, tag: 0, num_plays: 0, weight: a0 });
                }
            } else if op == 0x30FF {
                self.random_end();
                in_rand = false;
            } else if op == 0xF200 {
                let target = self.find_tag(a0);
                if depth > 0 {
                    self.play_chunk(target, depth - 1);
                }
            } else if op == 0xFFFF {
                if in_skip {
                    in_skip = false;
                } else {
                    self.stop_requested = true;
                }
            }
        }
    }

    /// Play the chunks waiting for scene `(slot, tag)` to end: the local ones (which are
    /// then dropped) if any were bookmarked, otherwise the sequence's own.
    fn play_triggered_chunks(&mut self, slot: u16, tag: u16)
        requires
            old(self).wf(),
        ensures
            final(self).wf(),
            same_program(*old(self), *final(self)),
            AdsVm::same_stage(*old(self), *final(self)),
            final(self).sched() == triggered_s(
                old(self).sched(),
                old(self).chunks@,
                old(self).ads@,
                old(self).tags@,
                old(self).slot_tags(),
                old(self).width,
                old(self).height,
                slot,
                tag,
            ),
    {
        let ghost s0 = self.sched();
        let mut starts: Vec<usize> = Vec::new();
        if self.local_chunks.len() > 0 {
            let mut kept: Vec<Chunk> = Vec::new();
            let mut k: usize = 0;
            while k < self.local_chunks.len()
                invariant
                    k <= self.local_chunks@.len(),
                    starts@ == waiting_starts(self.local_chunks@, slot, tag, k as int),
                    kept@ == other_chunks(self.local_chunks@, slot, tag, k as int),
                decreases self.local_chunks@.len() - k,
            {
                let c = self.local_chunks[k];
                if c.slot == slot && c.tag == tag {
                    starts.push(c.start);
                } else {
                    kept.push(c);
                }
                k = k + 1;
            }
            self.local_chunks = kept;
        } else {
            let mut k: usize = 0;
            while k < self.chunks.len()
                invariant
                    k <= self.chunks@.len(),
                    starts@ == waiting_starts(self.chunks@, slot, tag, k as int),
                decreases self.chunks@.len() - k,
            {
                let c = self.chunks[k];
                if c.slot == slot && c.tag == tag {
                    starts.push(c.start);
                }
                k = k + 1;
            }
        }
        let ghost s1 = self.sched();
        let mut k: usize = 0;
        while k < starts.len()
            invariant
                k <= starts@.len(),
                self.wf(),
                same_program(*old(self), *self),
                AdsVm::same_stage(*old(self), *self),
                self.sched() == chunks_run(
                    s1,
                    old(self).ads@,
                    old(self).tags@,
                    old(self).slot_tags(),
                    old(self).width,
                    old(self).height,
                    starts@,
                    k as int,
                ),
            decreases starts@.len() - k,
        {
            self.play_chunk(starts[k], MAX_CHUNK_DEPTH);
            k = k + 1;
        }
    }
}

/// `MAX_TTM_SLOTS` empty slots.
fn empty_slots() -> (v: Vec<TtmSlot>)
    ensures
        v@.len() == MAX_TTM_SLOTS,
        forall|i: int| 0 <= i < MAX_TTM_SLOTS ==> sheets_wf((#[trigger] v@[i]).sprites@),
        forall|i: int| 0 <= i < MAX_TTM_SLOTS ==> slot_unused(#[trigger] v@[i]),
{
    let mut v: Vec<TtmSlot> = Vec::new();
    let mut i: usize = 0;
    while i < MAX_TTM_SLOTS
        invariant
            i <= MAX_TTM_SLOTS,
            v@.len() == i,
            forall|j: int| 0 <= j < i ==> sheets_wf((#[trigger] v@[j]).sprites@),
            forall|j: int| 0 <= j < i ==> slot_unused(#[trigger] v@[j]),
        decreases MAX_TTM_SLOTS - i,
    {
        v.push(TtmSlot::empty());
        i = i + 1;
    }
    v
}

/// `MAX_TTM_THREADS` free threads with transparent layers of the given size.
fn free_threads(width: u16, height: u16) -> (v: Vec<TtmThread>)
    ensures
        v@.len() == MAX_TTM_THREADS,
        forall|i: int| 0 <= i < MAX_TTM_THREADS ==> {
            &&& (#[trigger] v@[i]).layer.wf()
            &&& v@[i].layer.width == width
            &&& v@[i].layer.height == height
            &&& v@[i].running == 0
            &&& tview(v@[i]) == (idle_thread(), blank_layer(width, height))
        },
{
    let mut v: Vec<TtmThread> = Vec::new();
    let mut i: usize = 0;
    while i < MAX_TTM_THREADS
        invariant
            i <= MAX_TTM_THREADS,
            v@.len() == i,
            forall|j: int| 0 <= j < i ==> {
                &&& (#[trigger] v@[j]).layer.wf()
                &&& v@[j].layer.width == width
                &&& v@[j].layer.height == height
                &&& v@[j].running == 0
                &&& tview(v@[j]) == (idle_thread(), blank_layer(width, height))
            },
        decreases MAX_TTM_THREADS - i,
    {
        let t = TtmThread::new(width, height);
        proof {
            assert(t.layer.pixels@ =~= blank_layer(width, height).2);
        }
        v.push(t);
        i = i + 1;
    }
    v
}

/// Whether thread `t` is due to run a frame: running with its timer run out.
pub open spec fn thread_due(t: TtmThread) -> bool {
    t.running == 1 && t.timer == 0
}

/// A due thread with its timer re-armed from its delay.
pub open spec fn armed(t: TtmThread) -> TtmThread {
    TtmThread { timer: t.delay, ..t }
}

impl AdsVm {
    /// Whether `a` and `b` agree on everything but the threads, the slots, the
    /// background and the saved zones.
    pub closed spec fn same_rest(a: AdsVm, b: AdsVm) -> bool {
        &&& a.width == b.width
        &&& a.height == b.height
        &&& a.palette == b.palette
        &&& a.transparent_src == b.transparent_src
        &&& a.ads@ == b.ads@
        &&& a.tags@ == b.tags@
        &&& a.chunks@ == b.chunks@
        &&& a.local_chunks@ == b.local_chunks@
        &&& a.rand_ops@ == b.rand_ops@
        &&& a.num_threads == b.num_threads
        &&& a.stop_requested == b.stop_requested
        &&& a.rng == b.rng
        &&& a.dx == b.dx
        &&& a.dy == b.dy
    }

    /// Whether running thread `i` of `a`, if due, reaches a missing resource.
    pub closed spec fn thread_fails(a: AdsVm, i: int, archive: &Archive) -> bool {
        let t = a.threads@[i];
        let sl = t.slot_no as int;
        &&& thread_due(t)
        &&& sl < a.slots@.len()
        &&& missing_in(archive, a.slots@[sl].instructions@, t.ip as int, frame_end(a.slots@[sl].instructions@, t.ip as int))
    }

    /// Whether `b` is `a` after the scheduler's first pass visits thread `i`, having
    /// collected the sounds `s`: a due thread is re-armed and runs one frame of its
    /// slot's script over the shared background and saved zones (one whose slot does
    /// not exist is finished instead); any other thread is left alone.
    pub closed spec fn thread_stepped(a: AdsVm, b: AdsVm, i: int, s: Seq<u16>, archive: &Archive) -> bool {
        let t = a.threads@[i];
        let sl = t.slot_no as int;
        if !thread_due(t) {
            b == a && s == Seq::<u16>::empty()
        } else if sl < a.slots@.len() {
            let ins = a.slots@[sl].instructions@;
            let tags = a.slots@[sl].tags@;
            &&& AdsVm::same_rest(a, b)
            &&& b.threads@ == a.threads@.update(i, b.threads@[i])
            &&& b.slots@ == a.slots@.update(sl, b.slots@[sl])
            &&& b.slots@[sl].instructions@ == ins
            &&& b.slots@[sl].tags@ == tags
            &&& !missing_in(archive, ins, t.ip as int, frame_end(ins, t.ip as int))
            &&& exists|out: FrameOutcome| #![trigger frame_result(armed(t), b.threads@[i], ins, tags, a.dx, a.dy, out)]
                {
                    &&& frame_result(armed(t), b.threads@[i], ins, tags, a.dx, a.dy, out)
                    &&& s == match out {
                        FrameOutcome::Frame { sounds } => sounds@,
                        FrameOutcome::Finished => Seq::<u16>::empty(),
                    }
                }
            &&& frame_drawn(
                armed(t),
                b.threads@[i],
                ins,
                tags,
                sheets_view(a.slots@[sl].sprites@),
                sheets_view(b.slots@[sl].sprites@),
                a.background,
                b.background,
                a.saved_zones,
                b.saved_zones,
                archive,
                a.transparent_src,
                a.dx,
                a.dy,
            )
        } else {
            &&& AdsVm::same_rest(a, b)
            &&& b.threads@ == a.threads@.update(i, TtmThread { running: 2, ..armed(t) })
            &&& b.slots@ == a.slots@
            &&& b.background == a.background
            &&& b.saved_zones == a.saved_zones
            &&& s == Seq::<u16>::empty()
        }
    }

    /// Whether `states` is the run of the scheduler's first pass from `a` over threads
    /// `0..n`: `states[k + 1]` is `states[k]` after visiting thread `k`, which collected
    /// the sounds `sounds[k]`.
    pub closed spec fn pass_chain(a: AdsVm, states: Seq<AdsVm>, sounds: Seq<Seq<u16>>, n: nat, archive: &Archive) -> bool {
        &&& states.len() == n + 1
        &&& sounds.len() == n
        &&& states[0] == a
        &&& forall|k: int|
            0 <= k < n ==> #[trigger] AdsVm::thread_stepped(states[k], states[k + 1], k, sounds[k], archive)
    }

    /// The composited pixel `k` of `a`: the topmost opaque pixel of the layers of the
    /// active threads among `0..n` (later threads on top), over the saved zones, over
    /// the background.
    pub closed spec fn stacked_px(a: AdsVm, n: nat, k: int) -> u8
        decreases n,
    {
        if n == 0 {
            if k < a.saved_zones.pixels@.len() && a.saved_zones.pixels@[k] != TRANSPARENT {
                a.saved_zones.pixels@[k]
            } else {
                a.background.pixels@[k]
            }
        } else {
            let t = a.threads@[n - 1];
            if t.running != 0 && k < t.layer.pixels@.len() && t.layer.pixels@[k] != TRANSPARENT {
                t.layer.pixels@[k]
            } else {
                AdsVm::stacked_px(a, (n - 1) as nat, k)
            }
        }
    }

    /// The shortest pending wait among the active threads `0..n` (their delays and
    /// timers), at most 300 ticks.
    pub closed spec fn shortest_wait(a: AdsVm, n: nat) -> u16
        decreases n,
    {
        if n == 0 {
            300
        } else {
            let m = AdsVm::shortest_wait(a, (n - 1) as nat);
            let t = a.threads@[n - 1];
            if t.running != 0 {
                let m1 = if t.delay < m { t.delay } else { m };
                if t.timer < m1 { t.timer } else { m1 }
            } else {
                m
            }
        }
    }

    /// The scheduling state the scheduler leaves after showing a frame of state `a`
    /// (after its first pass) that waits `mini` ticks: every active timer advanced by
    /// `mini`, then each thread retired, replayed or chained in turn.
    pub closed spec fn retired(a: AdsVm, mini: u16) -> Sched {
        retire_s(
            timers_s(a.sched(), mini),
            MAX_TTM_THREADS as int,
            a.chunks@,
            a.ads@,
            a.tags@,
            a.slot_tags(),
            a.width,
            a.height,
        )
    }

    /// Whether `f` is the frame the scheduler shows for the state `a` after its first
    /// pass, with the sounds `s`.
    pub closed spec fn shows(a: AdsVm, f: AdsFrame, s: Seq<u16>) -> bool {
        &&& f.surface.wf()
        &&& f.surface.width == a.background.width
        &&& f.surface.height == a.background.height
        &&& forall|k: int| 0 <= k < f.surface.pixels@.len() ==> #[trigger] f.surface.pixels@[k]
            == AdsVm::stacked_px(a, MAX_TTM_THREADS as nat, k)
        &&& f.delay_ticks == AdsVm::shortest_wait(a, MAX_TTM_THREADS as nat)
        &&& f.sounds@ == s
    }
}

impl AdsVm {
    /// Load an `.ADS` scene starting at `start_tag`, resolving its TTMs from `archive`,
    /// and play the sequence's first chunk.
    pub fn new(
        ads: &Ads,
        start_tag: u16,
        archive: &Archive,
        palette: &Palette,
        width: u16,
        height: u16,
        seed: u64,
    ) -> (r: Result<Self, EngineError>)
        ensures
            r matches Ok(vm) ==> {
                &&& vm.wf()
                &&& vm.size() == (width, height)
                &&& vm.backdrop().width == width
                &&& vm.backdrop().height == height
                &&& vm.offset() == (0i32, 0i32)
                &&& vm.palette_spec() == *palette
                &&& ads_decodes_to(ads.bytecode@, vm.ads_spec().0)
                &&& vm.ads_spec().1 == crate::engine::ttm_exec::tag_map(
                    ads_tags_of(vm.ads_spec().0, vm.ads_spec().0.len() as int),
                )
                &&& slots_loaded(archive, ads.resources@, ads.resources@.len() as int, vm.slots_spec())
                &&& vm.sched() == chunk_run(
                    initial_sched(width, height, seed),
                    vm.ads_spec().0,
                    vm.ads_spec().1,
                    vm.slot_tags(),
                    width,
                    height,
                    ads_start(vm.ads_spec().0, vm.ads_spec().0.len() as int, start_tag),
                    (false, false, false, false),
                    MAX_CHUNK_DEPTH as nat,
                )
            },
            r matches Err(EngineError::ResourceNotFound(n)) ==> exists|k: int|
                0 <= k < ads.resources@.len() && (#[trigger] ads.resources@[k]).name@ == n@
                    && first_named(archive.ttms@, n@) is None,
            r matches Err(EngineError::Dgds(d)) ==> ads_decoded(ads.bytecode@, Err(d)) || exists|k: int|
                0 <= k < ads.resources@.len() && (ads.resources@[k].id as int) < MAX_TTM_SLOTS && match first_named(
                    archive.ttms@,
                    (#[trigger] ads.resources@[k]).name@,
                ) {
                    Some(j) => crate::dgds::ttm::ttm_decoded(archive.ttms@[j].1.bytecode@, Err(d)),
                    None => false,
                },
    {
        let instructions = match decode_ads(ads.bytecode.as_slice()) {
            Ok(v) => v,
            Err(d) => return Err(EngineError::Dgds(d)),
        };
        let (tags, chunks, start) = ads_load(&instructions, start_tag);
        let mut slots = empty_slots();
        let mut k: usize = 0;
        while k < ads.resources.len()
            invariant
                k <= ads.resources@.len(),
                slots@.len() == MAX_TTM_SLOTS,
                forall|i: int| 0 <= i < MAX_TTM_SLOTS ==> sheets_wf((#[trigger] slots@[i]).sprites@),
                slots_loaded(archive, ads.resources@, k as int, slots@),
            decreases ads.resources@.len() - k,
        {
            let res = &ads.resources[k];
            let ttm = match archive.ttm(res.name.as_str()) {
                Some(t) => t,
                None => return Err(EngineError::ResourceNotFound(res.name.clone())),
            };
            let id = res.id as usize;
            let ghost prev = slots@;
            if id < slots.len() {
                let loaded = match TtmSlot::load(ttm) {
                    Ok(s) => s,
                    Err(e) => {
                        proof {
                            crate::dgds::archive::lemma_first_named_index(archive.ttms@, res.name@);
                        }
                        return Err(e);
                    },
                };
                let ghost before = slots@;
                slots.set(id, loaded);
                proof {
                    assert forall|j: int| 0 <= j < MAX_TTM_SLOTS implies sheets_wf((#[trigger] slots@[j]).sprites@) by {
                        if j != id {
                            assert(slots@[j] == before[j]);
                        }
                    }
                }
            }
            proof {
                lemma_slots_step(archive, ads.resources@, k as int, prev, slots@);
            }
            k = k + 1;
        }
        let threads = free_threads(width, height);
        proof {
            lemma_active_none(threads@);
        }
        let mut vm = AdsVm {
            width,
            height,
            palette: *palette,
            transparent_src: detect_transparent(palette),
            background: Surface::new(width, height, 0),
            saved_zones: Surface::new(width, height, TRANSPARENT),
            slots,
            threads,
            ads: instructions,
            tags,
            chunks,
            local_chunks: Vec::new(),
            rand_ops: Vec::new(),
            num_threads: 0,
            stop_requested: false,
            rng: Rng::new(seed),
            dx: 0,
            dy: 0,
        };
        proof {
            assert(vm.sched().0 =~= initial_sched(width, height, seed).0) by {
                assert forall|i: int| 0 <= i < MAX_TTM_THREADS implies #[trigger] vm.sched().0[i]
                    == initial_sched(width, height, seed).0[i] by {
                    assert(tview(vm.threads@[i]) == (idle_thread(), blank_layer(width, height)));
                }
            }
            assert(vm.sched().1 =~= initial_sched(width, height, seed).1);
            assert(vm.sched().2 =~= initial_sched(width, height, seed).2);
        }
        vm.play_chunk(start, MAX_CHUNK_DEPTH);
        Ok(vm)
    }

    /// The palette used to render frames.
    pub fn palette(&self) -> (p: &Palette)
        ensures
            *p == self.palette_spec(),
    {
        &self.palette
    }

    /// Number of currently active TTM threads.
    pub fn active_threads(&self) -> (n: usize)
        ensures
            n == self.active(),
            self.wf() ==> n <= MAX_TTM_THREADS,
    {
        proof {
            lemma_active_le(self.threads@);
        }
        self.num_threads
    }

    /// Set the island offset applied to all drawing coordinates.
    pub fn set_offset(&mut self, dx: i32, dy: i32)
        requires
            old(self).wf(),
        ensures
            final(self).wf(),
            final(self).offset() == (dx, dy),
            final(self).size() == old(self).size(),
            final(self).backdrop() == old(self).backdrop(),
            final(self).active() == old(self).active(),
            final(self).ads_spec() == old(self).ads_spec(),
            final(self).palette_spec() == old(self).palette_spec(),
    {
        self.dx = dx;
        self.dy = dy;
    }

    /// Replace the shared background that thread layers composite over (e.g. the
    /// island scenery).
    pub fn set_background(&mut self, background: Surface)
        requires
            old(self).wf(),
            background.wf(),
        ensures
            final(self).wf(),
            same_program(*old(self), *final(self)),
            final(self).active() == old(self).active(),
            final(self).backdrop() == background,
    {
        self.background = background;
    }

    /// The shared background.
    pub closed spec fn backdrop(&self) -> Surface {
        self.background
    }

    /// The scheduler's first pass at thread `i`: a due thread is re-armed and runs one
    /// frame; the sounds it requests are returned.
    fn step_thread(&mut self, i: usize, archive: &Archive) -> (r: Result<Vec<u16>, EngineError>)
        requires
            old(self).wf(),
            i < MAX_TTM_THREADS,
            archive_images_wf(archive),
            offset_ok(old(self).dx),
            offset_ok(old(self).dy),
        ensures
            final(self).wf(),
            same_program(*old(self), *final(self)),
            final(self).background.width == old(self).background.width,
            final(self).background.height == old(self).background.height,
            r matches Ok(s) ==> AdsVm::thread_stepped(*old(self), *final(self), i as int, s@, archive),
            r matches Err(e) ==> e is ResourceNotFound && AdsVm::thread_fails(*old(self), i as int, archive),
    {
        let ghost m = *self;
        if self.threads[i].running == 1 && self.threads[i].timer == 0 {
            let ghost before = self.threads@;
            let d = self.threads[i].delay;
            self.threads[i].timer = d;
            proof {
                lemma_active_update(before, i as int, self.threads@[i as int]);
                assert(self.threads@ == before.update(i as int, self.threads@[i as int]));
                assert(self.threads@[i as int] == armed(m.threads@[i as int]));
            }
            let slot_idx = self.threads[i].slot_no;
            if slot_idx < self.slots.len() {
                let ghost mid = self.threads@;
                let ghost slots_before = self.slots@;
                assert(self.threads@[i as int].layer.wf());
                assert(sheets_wf(self.slots@[slot_idx as int].sprites@));
                let res = run_frame(
                    &mut self.threads[i],
                    &mut self.slots[slot_idx],
                    &mut self.background,
                    &mut self.saved_zones,
                    self.transparent_src,
                    self.dx,
                    self.dy,
                    archive,
                );
                proof {
                    assert(self.threads@ == mid.update(i as int, self.threads@[i as int]));
                    assert(self.threads@ == m.threads@.update(i as int, self.threads@[i as int]));
                    lemma_active_update(mid, i as int, self.threads@[i as int]);
                    assert(self.slots@ == slots_before.update(slot_idx as int, self.slots@[slot_idx as int]));
                    assert forall|j: int| 0 <= j < self.slots@.len() implies sheets_wf((#[trigger] self.slots@[j]).sprites@) by {
                        if j != slot_idx {
                            assert(self.slots@[j] == slots_before[j]);
                        }
                    }
                    assert forall|j: int| 0 <= j < self.threads@.len() implies {
                        &&& (#[trigger] self.threads@[j]).layer.wf()
                        &&& self.threads@[j].layer.width == self.width
                        &&& self.threads@[j].layer.height == self.height
                    } by {
                        if j != i {
                            assert(self.threads@[j] == mid[j]);
                        }
                    }
                }
                match res {
                    Ok(FrameOutcome::Frame { sounds: s }) => {
                        proof {
                            let out = FrameOutcome::Frame { sounds: s };
                            assert(frame_result(
                                armed(m.threads@[i as int]),
                                self.threads@[i as int],
                                m.slots@[slot_idx as int].instructions@,
                                m.slots@[slot_idx as int].tags@,
                                m.dx,
                                m.dy,
                                out,
                            ));
                        }
                        Ok(s)
                    },
                    Ok(FrameOutcome::Finished) => {
                        proof {
                            let out = FrameOutcome::Finished;
                            assert(frame_result(
                                armed(m.threads@[i as int]),
                                self.threads@[i as int],
                                m.slots@[slot_idx as int].instructions@,
                                m.slots@[slot_idx as int].tags@,
                                m.dx,
                                m.dy,
                                out,
                            ));
                        }
                        let none: Vec<u16> = Vec::new();
                        proof {
                            assert(none@ =~= Seq::<u16>::empty());
                        }
                        Ok(none)
                    },
                    Err(e) => Err(e),
                }
            } else {
                let ghost mid = self.threads@;
                self.threads[i].running = 2;
                proof {
                    assert(self.threads@ == mid.update(i as int, self.threads@[i as int]));
                    lemma_active_update(mid, i as int, self.threads@[i as int]);
                    assert(self.threads@ == m.threads@.update(
                        i as int,
                        TtmThread { running: 2, ..armed(m.threads@[i as int]) },
                    ));
                }
                let none: Vec<u16> = Vec::new();
                proof {
                    assert(none@ =~= Seq::<u16>::empty());
                }
                Ok(none)
            }
        } else {
            let none: Vec<u16> = Vec::new();
            proof {
                assert(none@ =~= Seq::<u16>::empty());
            }
            Ok(none)
        }
    }

    /// Advance every active thread's timer by `mini` ticks (stopping at zero).
    fn advance_timers(&mut self, mini: u16)
        requires
            old(self).wf(),
        ensures
            final(self).wf(),
            same_program(*old(self), *final(self)),
            AdsVm::same_stage(*old(self), *final(self)),
            final(self).sched() == timers_s(old(self).sched(), mini),
    {
        let ghost s0 = self.sched();
        let mut i: usize = 0;
        while i < MAX_TTM_THREADS
            invariant
                self.wf(),
                same_program(*old(self), *self),
                AdsVm::same_stage(*old(self), *self),
                i <= MAX_TTM_THREADS,
                s0 == old(self).sched(),
                self.sched().1 == s0.1,
                self.sched().2 == s0.2,
                self.sched().3 == s0.3,
                self.sched().4 == s0.4,
                self.sched().0.len() == s0.0.len(),
                forall|j: int|
                    0 <= j < s0.0.len() ==> #[trigger] self.sched().0[j] == if j < i {
                        timers_s(s0, mini).0[j]
                    } else {
                        s0.0[j]
                    },
            decreases MAX_TTM_THREADS - i,
        {
            let ghost prev = self.sched();
            if self.threads[i].running != 0 {
                let ghost mid = self.threads@;
                let t = self.threads[i].timer;
                self.threads[i].timer = if t > mini { t - mini } else { 0 };
                proof {
                    assert(self.threads@ == mid.update(i as int, self.threads@[i as int]));
                    lemma_active_update(mid, i as int, self.threads@[i as int]);
                    assert(s0.0[i as int] == prev.0[i as int]);
                    assert(tview(self.threads@[i as int]) == timers_s(s0, mini).0[i as int]);
                    assert(self.sched().0 =~= prev.0.update(i as int, timers_s(s0, mini).0[i as int]));
                }
            } else {
                proof {
                    assert(s0.0[i as int] == prev.0[i as int]);
                    assert(timers_s(s0, mini).0[i as int] == s0.0[i as int]);
                }
            }
            i = i + 1;
        }
        proof {
            assert(self.sched().0 =~= timers_s(s0, mini).0);
        }
    }

    /// Retire, replay or chain thread `i` once all timers have advanced (see
    /// [`retire_one`]).
    fn retire_thread(&mut self, i: usize)
        requires
            old(self).wf(),
            i < MAX_TTM_THREADS,
        ensures
            final(self).wf(),
            same_program(*old(self), *final(self)),
            AdsVm::same_stage(*old(self), *final(self)),
            final(self).sched() == retire_one(
                old(self).sched(),
                i as int,
                old(self).chunks@,
                old(self).ads@,
                old(self).tags@,
                old(self).slot_tags(),
                old(self).width,
                old(self).height,
            ),
    {
        let ghost s0 = self.sched();
        if self.threads[i].running != 0 && self.threads[i].timer == 0 {
            let ghost mid = self.threads@;
            match self.threads[i].next_goto {
                Some(g) => {
                    self.threads[i].ip = g;
                    self.threads[i].next_goto = None;
                },
                None => {},
            }
            let st = self.threads[i].scene_timer;
            if st > 0 {
                let left = st - self.threads[i].delay as i32;
                self.threads[i].scene_timer = left;
                if left <= 0 {
                    self.threads[i].running = 2;
                }
            }
            proof {
                assert(self.threads@ == mid.update(i as int, self.threads@[i as int]));
                lemma_active_update(mid, i as int, self.threads@[i as int]);
                assert(tview(self.threads@[i as int]) == (expired(s0.0[i as int].0), s0.0[i as int].1));
                assert(self.sched().0 =~= s0.0.update(i as int, (expired(s0.0[i as int].0), s0.0[i as int].1)));
            }
            if self.threads[i].running == 2 {
                if self.threads[i].scene_iterations > 0 {
                    let ghost mid2 = self.threads@;
                    let slot_idx = self.threads[i].slot_no;
                    let tag = self.threads[i].scene_tag;
                    let ip = if slot_idx < self.slots.len() {
                        self.slots[slot_idx].find_tag(tag)
                    } else {
                        0
                    };
                    assert(ip == replay_ip(self.slot_tags(), slot_idx, tag));
                    let n = self.threads[i].scene_iterations;
                    self.threads[i].scene_iterations = n - 1;
                    self.threads[i].running = 1;
                    self.threads[i].ip = ip;
                    proof {
                        assert(self.threads@ == mid2.update(i as int, self.threads@[i as int]));
                        lemma_active_update(mid2, i as int, self.threads@[i as int]);
                        assert(self.sched().0 =~= retire_one(
                            s0,
                            i as int,
                            old(self).chunks@,
                            old(self).ads@,
                            old(self).tags@,
                            old(self).slot_tags(),
                            old(self).width,
                            old(self).height,
                        ).0);
                    }
                } else {
                    let slot = self.threads[i].scene_slot;
                    let tag = self.threads[i].scene_tag;
                    self.stop_scene(i);
                    if !self.stop_requested {
                        self.play_triggered_chunks(slot, tag);
                    }
                }
            }
        }
    }

    /// Run one scheduler iteration: step every thread whose timer ran out, composite the
    /// background, the saved-zones layer and every active thread's layer, advance all
    /// timers by the shortest pending delay, and retire, replay or chain the threads
    /// whose timer reached zero. `None` when the scene has ended (no active thread).
    ///
    /// The frame shown is that of the state after the first pass (see
    /// [`AdsVm::pass_chain`] and [`AdsVm::shows`]); the pass stops with the error of
    /// the first thread whose frame loads a missing resource.
    pub fn next_frame(&mut self, archive: &Archive) -> (r: Result<Option<AdsFrame>, EngineError>)
        requires
            old(self).wf(),
            archive_images_wf(archive),
            offset_ok(old(self).offset().0),
            offset_ok(old(self).offset().1),
        ensures
            final(self).wf(),
            same_program(*old(self), *final(self)),
            final(self).backdrop().width == old(self).backdrop().width,
            final(self).backdrop().height == old(self).backdrop().height,
            r matches Ok(Some(f)) ==> f.surface.width == old(self).backdrop().width
                && f.surface.height == old(self).backdrop().height,
            old(self).active() == 0 ==> (r matches Ok(None)),
            old(self).active() == 0 ==> *final(self) == *old(self),
            r matches Ok(Some(f)) ==> exists|states: Seq<AdsVm>, sounds: Seq<Seq<u16>>|
                #![trigger AdsVm::pass_chain(*old(self), states, sounds, MAX_TTM_THREADS as nat, archive)]
                {
                    &&& AdsVm::pass_chain(*old(self), states, sounds, MAX_TTM_THREADS as nat, archive)
                    &&& AdsVm::shows(states.last(), f, sounds.flatten())
                    &&& AdsVm::same_stage(states.last(), *final(self))
                    &&& final(self).sched() == AdsVm::retired(states.last(), f.delay_ticks)
                },
            r matches Ok(None) ==> old(self).active() == 0,
            r matches Err(e) ==> e is ResourceNotFound,
            r is Err ==> exists|states: Seq<AdsVm>, sounds: Seq<Seq<u16>>, i: nat|
                #![trigger AdsVm::pass_chain(*old(self), states, sounds, i, archive)]
                i < MAX_TTM_THREADS && AdsVm::pass_chain(*old(self), states, sounds, i, archive)
                    && AdsVm::thread_fails(states.last(), i as int, archive),
    {
        if self.num_threads == 0 {
            return Ok(None);
        }
        let ghost bw = self.background.width;
        let ghost bh = self.background.height;
        let ghost s0 = *self;
        let mut sounds: Vec<u16> = Vec::new();
        let mut i: usize = 0;
        let ghost mut states: Seq<AdsVm> = seq![*self];
        let ghost mut heard: Seq<Seq<u16>> = Seq::empty();
        proof {
            assert(sounds@ =~= heard.flatten());
        }
        while i < MAX_TTM_THREADS
            invariant
                self.wf(),
                same_program(*old(self), *self),
                self.background.width == bw,
                bw == old(self).background.width,
                bh == old(self).background.height,
                self.background.height == bh,
                old(self).active() != 0,
                archive_images_wf(archive),
                offset_ok(self.dx),
                offset_ok(self.dy),
                s0 == *old(self),
                i <= MAX_TTM_THREADS,
                AdsVm::pass_chain(s0, states, heard, i as nat, archive),
                states.last() == *self,
                sounds@ == heard.flatten(),
            decreases MAX_TTM_THREADS - i,
        {
            let ghost m = *self;
            let ghost sounds0 = sounds@;
            let s = self.step_thread(i, archive);
            match s {
                Ok(s) => {
                    let mut q: usize = 0;
                    while q < s.len()
                        invariant
                            q <= s@.len(),
                            sounds@ == sounds0 + s@.subrange(0, q as int),
                        decreases s@.len() - q,
                    {
                        sounds.push(s[q]);
                        q = q + 1;
                        proof {
                            assert(s@.subrange(0, q as int) =~= s@.subrange(0, q - 1).push(s@[q - 1]));
                        }
                    }
                    proof {
                        assert(s@.subrange(0, s@.len() as int) =~= s@);
                        heard.lemma_flatten_push(s@);
                        let states1 = states.push(*self);
                        let heard1 = heard.push(s@);
                        assert forall|k: int| 0 <= k < i + 1 implies #[trigger] AdsVm::thread_stepped(
                            states1[k],
                            states1[k + 1],
                            k,
                            heard1[k],
                            archive,
                        ) by {
                            if k < i {
                                assert(states1[k] == states[k] && states1[k + 1] == states[k + 1]);
                                assert(heard1[k] == heard[k]);
                            }
                        }
                        states = states1;
                        heard = heard1;
                    }
                },
                Err(e) => {
                    proof {
                        assert(AdsVm::pass_chain(*old(self), states, heard, i as nat, archive));
                        assert(AdsVm::thread_fails(states.last(), i as int, archive));
                        assert(self.background.width == bw && self.background.height == bh);
                    }
                    return Err(e);
                },
            }
            i = i + 1;
        }
        let ghost mid = *self;
        let mut surface = self.background.compose_over(&self.saved_zones);
        let mut i: usize = 0;
        while i < MAX_TTM_THREADS
            invariant
                self.wf(),
                *self == mid,
                i <= MAX_TTM_THREADS,
                surface.wf(),
                surface.width == bw,
                surface.height == bh,
                self.background.width == bw,
                bw == old(self).background.width,
                bh == old(self).background.height,
                self.background.height == bh,
                forall|k: int| 0 <= k < surface.pixels@.len() ==> #[trigger] surface.pixels@[k]
                    == AdsVm::stacked_px(mid, i as nat, k),
            decreases MAX_TTM_THREADS - i,
        {
            if self.threads[i].running != 0 {
                surface = surface.compose_over(&self.threads[i].layer);
            }
            i = i + 1;
        }
        let mut mini: u16 = 300;
        let mut i: usize = 0;
        while i < MAX_TTM_THREADS
            invariant
                self.wf(),
                *self == mid,
                i <= MAX_TTM_THREADS,
                mini <= 300,
                mini == AdsVm::shortest_wait(mid, i as nat),
            decreases MAX_TTM_THREADS - i,
        {
            if self.threads[i].running != 0 {
                let d = self.threads[i].delay;
                let t = self.threads[i].timer;
                if d < mini {
                    mini = d;
                }
                if t < mini {
                    mini = t;
                }
            }
            i = i + 1;
        }
        let ghost shown = sounds@;
        proof {
            let f = AdsFrame { surface, delay_ticks: mini, sounds };
            assert(AdsVm::shows(mid, f, sounds@));
        }
        self.advance_timers(mini);
        let ghost timed = self.sched();
        let mut i: usize = 0;
        while i < MAX_TTM_THREADS
            invariant
                self.wf(),
                same_program(*old(self), *self),
                AdsVm::same_stage(mid, *self),
                i <= MAX_TTM_THREADS,
                timed == timers_s(mid.sched(), mini),
                self.sched() == retire_s(
                    timed,
                    i as int,
                    mid.chunks@,
                    mid.ads@,
                    mid.tags@,
                    mid.slot_tags(),
                    mid.width,
                    mid.height,
                ),
            decreases MAX_TTM_THREADS - i,
        {
            self.retire_thread(i);
            i = i + 1;
        }
        let f = AdsFrame { surface, delay_ticks: mini, sounds };
        proof {
            assert(f.sounds@ == shown);
            assert(AdsVm::pass_chain(*old(self), states, heard, MAX_TTM_THREADS as nat, archive));
            assert(AdsVm::shows(states.last(), f, heard.flatten()));
            assert(AdsVm::same_stage(states.last(), *self));
            assert(self.sched() == AdsVm::retired(states.last(), f.delay_ticks));
        }
        Ok(Some(f))
    }
}

} // verus!
