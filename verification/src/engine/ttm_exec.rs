//! Shared TTM execution core: a loaded TTM "slot", a per-thread execution state, and
//! [`run_frame`], which advances one thread by one frame.
//!
//! Used by both the single-thread [`crate::engine::ttm_vm::TtmVm`] and the multi-thread ADS
//! scheduler. The background (`LOAD_SCREEN`) and the saved-zones layer are shared, sprite
//! sheets (`LOAD_IMAGE`) live on the running slot, and the per-thread state holds colours,
//! clip, delay and the instruction pointer.
use std::collections::HashMap;
use vstd::prelude::*;
use crate::dgds::archive::{Archive, first_named};
use crate::dgds::bmp::BmpImage;
use crate::dgds::pal::Palette;
use crate::dgds::scr::Scr;
use crate::dgds::ttm::{Ttm, TtmArgs, TtmInstruction, ttm_decoded};
use crate::dgds::error::DgdsError;
use crate::engine::error::EngineError;
use crate::engine::surface::{
    Rect, Surface, TRANSPARENT, blit_pixel, circle_pixel, clip_ok, line_drawn, line_len,
};

verus! {

broadcast use vstd::std_specs::hash::group_hash_axioms;

/// Maximum number of bitmap (sprite-sheet) slots per TTM.
pub const MAX_BMP_SLOTS: usize = 6;

/// Whether palette entry `c` is the original magenta colour key (6-bit `(42,0,42)`
/// scaled by 4).
pub open spec fn is_magenta(c: [u8; 3]) -> bool {
    c[0] == 168 && c[1] == 0 && c[2] == 168
}

/// The first magenta entry of `palette` at index `i` or later, if any.
pub open spec fn magenta_from(palette: Palette, i: int) -> Option<u8>
    decreases 256 - i,
{
    if i < 0 || i >= 256 {
        None
    } else if is_magenta(palette.colors[i]) {
        Some(i as u8)
    } else {
        magenta_from(palette, i + 1)
    }
}

/// The palette index used as the transparent colour key: the first magenta entry.
pub open spec fn colour_key(palette: Palette) -> Option<u8> {
    magenta_from(palette, 0)
}

/// Find the palette index used as the transparent colour key: the first magenta entry.
pub fn detect_transparent(palette: &Palette) -> (r: Option<u8>)
    ensures
        r == colour_key(*palette),
        r matches Some(i) ==> is_magenta(palette.colors[i as int]) && forall|j: int|
            0 <= j < i ==> !is_magenta(#[trigger] palette.colors[j]),
        r is None ==> forall|j: int| 0 <= j < 256 ==> !is_magenta(#[trigger] palette.colors[j]),
{
    let mut i: usize = 0;
    while i < 256
        invariant
            i <= 256,
            forall|j: int| 0 <= j < i ==> !is_magenta(#[trigger] palette.colors[j]),
            magenta_from(*palette, 0) == magenta_from(*palette, i as int),
        decreases 256 - i,
    {
        let c = palette.colors[i];
        if c[0] == 168 && c[1] == 0 && c[2] == 168 {
            return Some(i as u8);
        }
        i = i + 1;
    }
    None
}

/// Word `i` of an argument list (0 when missing, or for a string).
pub open spec fn word_of(args: TtmArgs, i: int) -> u16 {
    match args {
        TtmArgs::Words(v) => if 0 <= i < v@.len() { v@[i] } else { 0 },
        TtmArgs::Str(_) => 0,
    }
}

/// Word `i` read as a signed 16-bit value.
pub open spec fn signed_of(args: TtmArgs, i: int) -> i32 {
    let w = word_of(args, i);
    if w < 0x8000 { w as i32 } else { (w - 0x10000) as i32 }
}

/// The instruction index the table records for `tag`, or 0.
pub open spec fn tag_index(tags: Map<u16, usize>, tag: u16) -> usize {
    if tags.contains_key(tag) {
        tags[tag]
    } else {
        0
    }
}

/// The table that `(tag, index)` entries make when entered in order (a later entry for
/// a tag replaces an earlier one).
pub open spec fn tag_map(entries: Seq<(u16, usize)>) -> Map<u16, usize>
    decreases entries.len(),
{
    if entries.len() == 0 {
        Map::empty()
    } else {
        tag_map(entries.drop_last()).insert(entries.last().0, entries.last().1)
    }
}

/// The tag entries of the instructions before `n`, in order.
pub open spec fn tags_of(ins: Seq<TtmInstruction>, n: int) -> Seq<(u16, usize)>
    decreases n,
{
    if n <= 0 {
        Seq::empty()
    } else if ins[n - 1].marks_tag() {
        tags_of(ins, n - 1).push((word_of(ins[n - 1].args, 0), (n - 1) as usize))
    } else {
        tags_of(ins, n - 1)
    }
}

/// A loaded TTM resource: decoded instructions, a tag → index table, and the sprite
/// sheets loaded by `LOAD_IMAGE` (shared by all threads running this slot).
#[derive(Debug, Clone)]
pub struct TtmSlot {
    /// Decoded TTM instructions.
    pub instructions: Vec<TtmInstruction>,
    /// Tag id → instruction index (the last tag of an id wins).
    pub tags: HashMap<u16, usize>,
    /// Sprite sheets per bitmap slot (each a list of frames).
    pub sprites: Vec<Vec<BmpImage>>,
}

impl TtmSlot {
    /// An empty, unused slot.
    pub fn empty() -> (s: Self)
        ensures
            s.instructions@.len() == 0,
            s.tags@ == Map::<u16, usize>::empty(),
            s.sprites@.len() == MAX_BMP_SLOTS,
            forall|i: int| 0 <= i < MAX_BMP_SLOTS ==> #[trigger] s.sprites@[i]@.len() == 0,
    {
        TtmSlot { instructions: Vec::new(), tags: HashMap::new(), sprites: empty_sheets() }
    }

    /// Load and decode a TTM resource into a slot.
    pub fn load(ttm: &Ttm) -> (r: Result<Self, EngineError>)
        ensures
            r matches Ok(s) ==> {
                &&& ttm_decoded(ttm.bytecode@, Ok(s.instructions))
                &&& s.tags@ == tag_map(tags_of(s.instructions@, s.instructions@.len() as int))
                &&& s.sprites@.len() == MAX_BMP_SLOTS
                &&& forall|i: int| 0 <= i < MAX_BMP_SLOTS ==> #[trigger] s.sprites@[i]@.len() == 0
            },
            r matches Err(e) ==> exists|d: DgdsError| e == EngineError::Dgds(d) && ttm_decoded(
                ttm.bytecode@,
                Err(d),
            ),
    {
        let instructions = match ttm.instructions() {
            Ok(v) => v,
            Err(d) => return Err(EngineError::Dgds(d)),
        };
        let mut tags: HashMap<u16, usize> = HashMap::new();
        let mut idx: usize = 0;
        while idx < instructions.len()
            invariant
                idx <= instructions@.len(),
                tags@ == tag_map(tags_of(instructions@, idx as int)),
            decreases instructions@.len() - idx,
        {
            let ins = &instructions[idx];
            if ins.opcode == 0x1111 || ins.opcode == 0x1101 {
                tags.insert(word(&ins.args, 0), idx);
                proof {
                    assert(tags_of(instructions@, idx + 1).drop_last() =~= tags_of(instructions@, idx as int));
                }
            }
            idx = idx + 1;
        }
        Ok(TtmSlot { instructions, tags, sprites: empty_sheets() })
    }

    /// Instruction index for `tag` (0 if not found).
    pub fn find_tag(&self, tag: u16) -> (i: usize)
        ensures
            i == tag_index(self.tags@, tag),
    {
        match self.tags.get(&tag) {
            Some(i) => *i,
            None => 0,
        }
    }
}

/// `MAX_BMP_SLOTS` empty sprite sheets.
fn empty_sheets() -> (v: Vec<Vec<BmpImage>>)
    ensures
        v@.len() == MAX_BMP_SLOTS,
        forall|i: int| 0 <= i < MAX_BMP_SLOTS ==> #[trigger] v@[i]@.len() == 0,
{
    let mut v: Vec<Vec<BmpImage>> = Vec::new();
    let mut i: usize = 0;
    while i < MAX_BMP_SLOTS
        invariant
            i <= MAX_BMP_SLOTS,
            v@.len() == i,
            forall|j: int| 0 <= j < i ==> #[trigger] v@[j]@.len() == 0,
        decreases MAX_BMP_SLOTS - i,
    {
        v.push(Vec::new());
        i = i + 1;
    }
    v
}

/// Word `i` of an argument list (0 when missing, or for a string).
pub fn word(args: &TtmArgs, i: usize) -> (w: u16)
    ensures
        w == word_of(*args, i as int),
{
    match args {
        TtmArgs::Words(v) => if i < v.len() { v[i] } else { 0 },
        TtmArgs::Str(_) => 0,
    }
}

fn signed(args: &TtmArgs, i: usize) -> (v: i32)
    ensures
        v == signed_of(*args, i as int),
        -0x8000 <= v < 0x8000,
{
    let w = word(args, i);
    if w < 0x8000 { w as i32 } else { w as i32 - 0x10000 }
}

fn unsigned(args: &TtmArgs, i: usize) -> (v: i32)
    ensures
        v == word_of(*args, i as int) as i32,
{
    word(args, i) as i32
}

fn string(args: &TtmArgs) -> (s: &str)
    ensures
        args matches TtmArgs::Str(t) ==> s@ == t@,
        args is Words ==> s@.len() == 0,
{
    match args {
        TtmArgs::Str(s) => s.as_str(),
        TtmArgs::Words(_) => {
            proof {
                reveal_strlit("");
            }
            ""
        },
    }
}

/// Per-thread TTM execution state plus its own drawing layer.
#[derive(Debug, Clone)]
pub struct TtmThread {
    /// The thread's transparent drawing layer.
    pub layer: Surface,
    /// 0 = free, 1 = running, 2 = finished-this-pass (pending cleanup).
    pub running: u8,
    /// Index into the runtime's slot table.
    pub slot_no: usize,
    /// Scene identity (the ADS `(slot, tag)` that spawned this thread).
    pub scene_slot: u16,
    /// Scene tag.
    pub scene_tag: u16,
    /// Instruction pointer into the slot's instructions.
    pub ip: usize,
    /// Deferred jump target (applied between frames by the scheduler).
    pub next_goto: Option<usize>,
    /// Frame delay in ticks.
    pub delay: u16,
    /// Countdown to the next time this thread runs.
    pub timer: u16,
    /// Remaining "play for N ticks" budget (ADD_SCENE negative arg3).
    pub scene_timer: i32,
    /// Remaining replays (ADD_SCENE positive arg3).
    pub scene_iterations: u16,
    /// Currently selected bitmap slot for draws.
    pub selected_bmp_slot: usize,
    /// Foreground colour index.
    pub fg: u8,
    /// Background colour index.
    pub bg: u8,
    /// Active clip rectangle.
    pub clip: Option<Rect>,
}

impl TtmThread {
    /// A free thread with a transparent layer of the given size.
    pub fn new(width: u16, height: u16) -> (t: Self)
        ensures
            t.layer.wf(),
            t.layer.width == width,
            t.layer.height == height,
            forall|i: int| 0 <= i < t.layer.pixels@.len() ==> #[trigger] t.layer.pixels@[i] == TRANSPARENT,
            t.running == 0,
            t.slot_no == 0,
            t.scene_slot == 0,
            t.scene_tag == 0,
            t.ip == 0,
            t.next_goto is None,
            t.delay == 4,
            t.timer == 0,
            t.scene_timer == 0,
            t.scene_iterations == 0,
            t.selected_bmp_slot == 0,
            t.fg == 0x0F,
            t.bg == 0x0F,
            t.clip is None,
    {
        TtmThread {
            layer: Surface::new(width, height, TRANSPARENT),
            running: 0,
            slot_no: 0,
            scene_slot: 0,
            scene_tag: 0,
            ip: 0,
            next_goto: None,
            delay: 4,
            timer: 0,
            scene_timer: 0,
            scene_iterations: 0,
            selected_bmp_slot: 0,
            fg: 0x0F,
            bg: 0x0F,
            clip: None,
        }
    }
}

/// Outcome of running one frame of a TTM thread.
#[derive(Debug, Clone, PartialEq, Eq)]
pub enum FrameOutcome {
    /// An `UPDATE` (or a looping `PURGE`) yielded a frame; `sounds` were triggered.
    Frame {
        /// Sound effect ids triggered during this frame.
        sounds: Vec<u16>,
    },
    /// The thread ended (`running` is set to 2).
    Finished,
}

/// Whether `op` ends a frame: `UPDATE` or `PURGE`.
pub open spec fn ends_frame(op: u16) -> bool {
    op == 0x0FF0 || op == 0x0110
}

/// The index of the first frame-ending instruction at or after `ip` (or `ip`, when
/// `ip` is at or past the end; or the end).
pub open spec fn frame_end(ins: Seq<TtmInstruction>, ip: int) -> int
    decreases ins.len() - ip,
{
    if ip < 0 || ip >= ins.len() {
        ip
    } else if ends_frame(ins[ip].opcode) {
        ip
    } else {
        frame_end(ins, ip + 1)
    }
}

/// The frame end is never before the start.
proof fn lemma_frame_end_ge(ins: Seq<TtmInstruction>, ip: int)
    ensures
        frame_end(ins, ip) >= ip,
    decreases ins.len() - ip,
{
    if 0 <= ip < ins.len() && !ends_frame(ins[ip].opcode) {
        lemma_frame_end_ge(ins, ip + 1);
    }
}

/// The sound ids requested by the instructions in `from..to`, in order.
pub open spec fn sounds_in(ins: Seq<TtmInstruction>, from: int, to: int) -> Seq<u16>
    decreases to - from,
{
    if to <= from {
        Seq::empty()
    } else if ins[to - 1].opcode == 0xC051 {
        sounds_in(ins, from, to - 1).push(word_of(ins[to - 1].args, 0))
    } else {
        sounds_in(ins, from, to - 1)
    }
}

/// What one instruction does to a thread's registers (delay, timer, bitmap slot, jump
/// target, colours, clip); every other field is left as it is.
pub open spec fn reg_step(t: TtmThread, ins: TtmInstruction, tags: Map<u16, usize>, dx: i32, dy: i32) -> TtmThread {
    let a = ins.args;
    if ins.opcode == 0x1021 {
        let d = if word_of(a, 0) < 4 { 4 } else { word_of(a, 0) };
        TtmThread { delay: d, timer: d, ..t }
    } else if ins.opcode == 0x2022 {
        let d = ((word_of(a, 0) + word_of(a, 1)) / 2) as u16;
        TtmThread { delay: d, timer: d, ..t }
    } else if ins.opcode == 0x1051 {
        TtmThread { selected_bmp_slot: word_of(a, 0) as usize, ..t }
    } else if ins.opcode == 0x1201 {
        TtmThread { next_goto: Some(tag_index(tags, word_of(a, 0))), ..t }
    } else if ins.opcode == 0x2002 {
        TtmThread { fg: word_of(a, 0) as u8, bg: word_of(a, 1) as u8, ..t }
    } else if ins.opcode == 0x4004 {
        let x1 = signed_of(a, 0) + dx;
        let y1 = signed_of(a, 1) + dy;
        let x2 = signed_of(a, 2) + dx;
        let y2 = signed_of(a, 3) + dy;
        TtmThread {
            clip: Some(Rect { x: x1 as i32, y: y1 as i32, w: (x2 - x1) as i32, h: (y2 - y1) as i32 }),
            ..t
        }
    } else {
        t
    }
}

/// `SET_CLIP x1 y1 x2 y2` clips to the pixels `x1 <= x < x2`, `y1 <= y < y2` (moved by
/// the offset): a point passes the new clip exactly when it lies in those spans.
pub proof fn lemma_set_clip_spans(t: TtmThread, ins: TtmInstruction, tags: Map<u16, usize>, dx: i32, dy: i32, px: int, py: int)
    requires
        ins.opcode == 0x4004,
        offset_ok(dx),
        offset_ok(dy),
    ensures
        clip_ok(reg_step(t, ins, tags, dx, dy).clip, px, py) <==> (signed_of(ins.args, 0) + dx <= px
            < signed_of(ins.args, 2) + dx && signed_of(ins.args, 1) + dy <= py < signed_of(ins.args, 3) + dy),
{
}

/// What the register instructions set, and what they leave: `SET_COLORS f b` sets the
/// foreground to `f` and the background to `b` (their low bytes); `SET_DELAY d` waits
/// `d` ticks, at least 4, from now; `SET_CLIP` touches neither colours nor delay;
/// `SET_BMP s` selects sprite slot `s`; and none of them changes what the thread draws
/// on, its scene or where it is in its script.
pub proof fn lemma_register_ops(t: TtmThread, ins: TtmInstruction, tags: Map<u16, usize>, dx: i32, dy: i32)
    ensures
        ({
            let r = reg_step(t, ins, tags, dx, dy);
            let a = ins.args;
            &&& r.layer == t.layer && r.ip == t.ip && r.running == t.running && r.slot_no == t.slot_no
            &&& r.scene_slot == t.scene_slot && r.scene_tag == t.scene_tag
            &&& ins.opcode == 0x2002 ==> r.fg == (word_of(a, 0) % 256) as u8 && r.bg == (word_of(a, 1) % 256)
                as u8 && r.clip == t.clip && r.delay == t.delay
            &&& ins.opcode == 0x1021 ==> r.delay == r.timer && r.delay >= 4 && (word_of(a, 0) >= 4 ==> r.delay
                == word_of(a, 0)) && r.fg == t.fg && r.bg == t.bg && r.clip == t.clip
            &&& ins.opcode == 0x4004 ==> r.fg == t.fg && r.bg == t.bg && r.delay == t.delay && r.timer == t.timer
            &&& ins.opcode == 0x1051 ==> r.selected_bmp_slot == word_of(a, 0) && r.clip == t.clip
        }),
{
    let w0 = word_of(ins.args, 0);
    let w1 = word_of(ins.args, 1);
    assert(w0 as u8 == (w0 % 256) as u8) by (bit_vector);
    assert(w1 as u8 == (w1 % 256) as u8) by (bit_vector);
}

/// A rectangle filled after `SET_CLIP x1 y1 x2 y2` (moved by the offset) paints only
/// pixels inside both the rectangle and the clip spans `x1 <= x < x2`, `y1 <= y < y2`;
/// every pixel inside both takes the foreground colour.
pub proof fn lemma_fill_stays_in_clip(
    t: TtmThread,
    clip_ins: TtmInstruction,
    fill: TtmInstruction,
    tags: Map<u16, usize>,
    sh: SheetsView,
    dx: i32,
    dy: i32,
    under: u8,
    px: int,
    py: int,
)
    requires
        clip_ins.opcode == 0x4004,
        fill.opcode == 0xA104,
        offset_ok(dx),
        offset_ok(dy),
    ensures
        ({
            let c = clip_ins.args;
            let f = fill.args;
            let regs = reg_step(t, clip_ins, tags, dx, dy);
            let in_clip = signed_of(c, 0) + dx <= px < signed_of(c, 2) + dx && signed_of(c, 1) + dy <= py
                < signed_of(c, 3) + dy;
            let in_rect = signed_of(f, 0) + dx <= px < signed_of(f, 0) + dx + word_of(f, 2)
                && signed_of(f, 1) + dy <= py < signed_of(f, 1) + dy + word_of(f, 3);
            draw_px(fill, regs.fg, regs.bg, regs.clip, sh, dx, dy, under, px, py) == if in_clip && in_rect {
                regs.fg
            } else {
                under
            }
        }),
{
    lemma_set_clip_spans(t, clip_ins, tags, dx, dy, px, py);
}

/// The registers after running the instructions `from..to` from `t`.
pub open spec fn regs_after(
    t: TtmThread,
    ins: Seq<TtmInstruction>,
    tags: Map<u16, usize>,
    from: int,
    to: int,
    dx: i32,
    dy: i32,
) -> TtmThread
    decreases to - from,
{
    if to <= from {
        t
    } else {
        reg_step(regs_after(t, ins, tags, from, to - 1, dx, dy), ins[to - 1], tags, dx, dy)
    }
}

/// Whether `a` and `b` agree on the registers other than the jump target.
pub open spec fn same_regs(a: TtmThread, b: TtmThread) -> bool {
    &&& a.delay == b.delay
    &&& a.timer == b.timer
    &&& a.selected_bmp_slot == b.selected_bmp_slot
    &&& a.fg == b.fg
    &&& a.bg == b.bg
    &&& a.clip == b.clip
}

/// Whether `a` and `b` agree on the fields no instruction changes.
pub open spec fn same_scene(a: TtmThread, b: TtmThread) -> bool {
    &&& a.slot_no == b.slot_no
    &&& a.scene_slot == b.scene_slot
    &&& a.scene_tag == b.scene_tag
    &&& a.scene_timer == b.scene_timer
    &&& a.scene_iterations == b.scene_iterations
}

/// The index of the last tag instruction before `before`, or 0.
pub open spec fn prev_tag(ins: Seq<TtmInstruction>, before: int) -> int
    decreases before,
{
    if before <= 0 {
        0
    } else if ins[before - 1].marks_tag() {
        before - 1
    } else {
        prev_tag(ins, before - 1)
    }
}

/// What a frame run from thread `t0` yields: it runs the instructions from the
/// thread's `ip` up to the next frame end, applying their register effects and
/// collecting their sounds; `UPDATE` gives a frame, `PURGE` loops while a "play for N
/// ticks" budget is left and ends the thread otherwise, and running off the end ends it.
pub open spec fn frame_result(
    t0: TtmThread,
    t1: TtmThread,
    ins: Seq<TtmInstruction>,
    tags: Map<u16, usize>,
    dx: i32,
    dy: i32,
    out: FrameOutcome,
) -> bool {
    let ip0 = t0.ip as int;
    let e = frame_end(ins, ip0);
    let regs = regs_after(t0, ins, tags, ip0, e, dx, dy);
    let frame = out matches FrameOutcome::Frame { sounds } && sounds@ == sounds_in(ins, ip0, e);
    &&& same_regs(t1, regs)
    &&& same_scene(t1, t0)
    &&& if e < ins.len() {
        &&& t1.ip == e + 1
        &&& if ins[e].opcode == 0x0FF0 {
            frame && t1.running == t0.running && t1.next_goto == regs.next_goto
        } else if t0.scene_timer > 0 {
            frame && t1.running == t0.running && t1.next_goto == Some(prev_tag(ins, e) as usize)
        } else {
            out is Finished && t1.running == 2 && t1.next_goto == regs.next_goto
        }
    } else {
        t1.ip == e && out is Finished && t1.running == 2 && t1.next_goto == regs.next_goto
    }
}

/// The resource name carried by a `LOAD_SCREEN` / `LOAD_IMAGE` argument (empty for words).
pub open spec fn name_of(args: TtmArgs) -> Seq<char> {
    match args {
        TtmArgs::Str(s) => s@,
        TtmArgs::Words(_) => Seq::empty(),
    }
}

/// Whether `ins` loads a screen or a bitmap that the archive lacks.
pub open spec fn missing(archive: &Archive, ins: TtmInstruction) -> bool {
    ||| ins.opcode == 0xF01F && first_named(archive.screens@, name_of(ins.args)) is None
    ||| ins.opcode == 0xF02F && first_named(archive.bitmaps@, name_of(ins.args)) is None
}

/// Whether one of the instructions `from..to` loads a missing resource.
pub open spec fn missing_in(archive: &Archive, ins: Seq<TtmInstruction>, from: int, to: int) -> bool {
    exists|j: int| from <= j < to && #[trigger] missing(archive, ins[j])
}

/// A sprite sheet seen as plain values: per frame, width, height and pixels.
pub open spec fn sheet_of(images: Seq<BmpImage>) -> Seq<(u16, u16, Seq<u8>)> {
    images.map_values(|im: BmpImage| (im.width, im.height, im.pixels@))
}

/// The pixel at `(px, py)` after blitting frame `idx` of a sheet at `(x, y)` over
/// `under`, with [`TRANSPARENT`] as the colour key and no clip (unchanged when the sheet
/// has no such frame).
pub open spec fn sheet_px(sh: Seq<(u16, u16, Seq<u8>)>, idx: int, x: int, y: int, flip: bool, under: u8, px: int, py: int) -> u8 {
    if 0 <= idx < sh.len() {
        blit_pixel(under, sh[idx].0 as int, sh[idx].1 as int, sh[idx].2, x, y, Some(TRANSPARENT), flip, None, px, py)
    } else {
        under
    }
}

/// Sprite sheets seen as plain values: per sheet, per frame, width, height and pixels.
pub type SheetsView = Seq<Seq<(u16, u16, Seq<u8>)>>;

/// The plain-value view of sprite sheets.
pub open spec fn sheets_view(s: Seq<Vec<BmpImage>>) -> SheetsView {
    s.map_values(|v: Vec<BmpImage>| v@.map_values(|im: BmpImage| (im.width, im.height, im.pixels@)))
}

/// Pixels with the colour key replaced by [`TRANSPARENT`].
pub open spec fn remap_px(p: Seq<u8>, key: Option<u8>) -> Seq<u8> {
    p.map_values(|b: u8| if key == Some(b) { TRANSPARENT } else { b })
}

/// The sheet `LOAD_IMAGE` makes of the archive's bitmap `name` (colour key remapped).
pub open spec fn loaded_sheet(archive: &Archive, name: Seq<char>, key: Option<u8>) -> Seq<(u16, u16, Seq<u8>)> {
    match first_named(archive.bitmaps@, name) {
        Some(i) => archive.bitmaps@[i].1.images@.map_values(
            |im: BmpImage| (im.width, im.height, remap_px(im.pixels@, key)),
        ),
        None => Seq::empty(),
    }
}

/// What one instruction does to the sprite sheets: `LOAD_IMAGE` replaces the selected
/// sheet (when that slot exists).
pub open spec fn sheets_step(sh: SheetsView, ins: TtmInstruction, slot: usize, archive: &Archive, key: Option<u8>) -> SheetsView {
    if ins.opcode == 0xF02F && first_named(archive.bitmaps@, name_of(ins.args)) is Some && slot
        < sh.len() {
        sh.update(slot as int, loaded_sheet(archive, name_of(ins.args), key))
    } else {
        sh
    }
}

/// What one instruction draws at `(px, py)` of the thread's layer over `under`, with
/// the colours `fg`/`bg`, the clip and the sprite sheets in force.
pub open spec fn draw_px(
    ins: TtmInstruction,
    fg: u8,
    bg: u8,
    clip: Option<Rect>,
    sh: SheetsView,
    dx: i32,
    dy: i32,
    under: u8,
    px: int,
    py: int,
) -> u8 {
    let a = ins.args;
    let op = ins.opcode;
    let x = signed_of(a, 0) + dx;
    let y = signed_of(a, 1) + dy;
    let x2 = signed_of(a, 2) + dx;
    let y2 = signed_of(a, 3) + dy;
    let w = word_of(a, 2) as int;
    let h = word_of(a, 3) as int;
    if op == 0xA002 {
        if px == x && py == y { fg } else { under }
    } else if op == 0xA0A4 {
        if line_drawn(x, y, x2, y2, line_len(x, y, x2, y2), px, py) { fg } else { under }
    } else if op == 0xA104 {
        if x <= px < x + w && y <= py < y + h && clip_ok(clip, px, py) { fg } else { under }
    } else if op == 0xA404 {
        if w == h && w >= 2 && w % 2 == 0 {
            circle_pixel(w / 2 - 1, x + (w / 2 - 1), y + (w / 2 - 1), fg, bg, under, px, py)
        } else {
            under
        }
    } else if op == 0xA504 || op == 0xA524 {
        if h < sh.len() && w < sh[h].len() {
            let im = sh[h][w];
            blit_pixel(under, im.0 as int, im.1 as int, im.2, x, y, Some(TRANSPARENT), op == 0xA524, clip, px, py)
        } else {
            under
        }
    } else if op == 0xA601 {
        TRANSPARENT
    } else {
        under
    }
}

/// What one instruction leaves at `(px, py)` of the shared saved-zones layer over
/// `under`, given the thread layer's pixel there (`COPY_ZONE_TO_BG` copies the layer's
/// opaque pixels of a rectangle; `CLEAR_ZONES` clears the layer).
pub open spec fn zone_px(
    ins: TtmInstruction,
    dx: i32,
    dy: i32,
    layer_in: bool,
    layer_at: u8,
    under: u8,
    px: int,
    py: int,
) -> u8 {
    let a = ins.args;
    let x = signed_of(a, 0) + dx;
    let y = signed_of(a, 1) + dy;
    let w = word_of(a, 2) as int;
    let h = word_of(a, 3) as int;
    if ins.opcode == 0x4204 {
        if x <= px < x + w && y <= py < y + h && layer_in && layer_at != TRANSPARENT {
            layer_at
        } else {
            under
        }
    } else if ins.opcode == 0xA064 {
        TRANSPARENT
    } else {
        under
    }
}

/// What one instruction leaves at `(px, py)` of the shared background over `under`
/// (`LOAD_SCREEN` replaces it by a screen of the archive).
pub open spec fn bg_px(ins: TtmInstruction, archive: &Archive, under: u8, px: int, py: int) -> u8 {
    if ins.opcode == 0xF01F {
        match first_named(archive.screens@, name_of(ins.args)) {
            Some(i) => screen_pixel(&archive.screens@[i].1, px, py),
            None => under,
        }
    } else {
        under
    }
}

/// The sprite sheets after the instructions `from..to`, from `sh0`.
pub open spec fn sheets_run(
    t0: TtmThread,
    ins: Seq<TtmInstruction>,
    tags: Map<u16, usize>,
    from: int,
    to: int,
    dx: i32,
    dy: i32,
    archive: &Archive,
    key: Option<u8>,
    sh0: SheetsView,
) -> SheetsView
    decreases to - from,
{
    if to <= from {
        sh0
    } else {
        sheets_step(
            sheets_run(t0, ins, tags, from, to - 1, dx, dy, archive, key, sh0),
            ins[to - 1],
            regs_after(t0, ins, tags, from, to - 1, dx, dy).selected_bmp_slot,
            archive,
            key,
        )
    }
}

/// The thread layer's pixel at `(px, py)` after the instructions `from..to`.
pub open spec fn layer_run(
    t0: TtmThread,
    ins: Seq<TtmInstruction>,
    tags: Map<u16, usize>,
    from: int,
    to: int,
    dx: i32,
    dy: i32,
    archive: &Archive,
    key: Option<u8>,
    sh0: SheetsView,
    px: int,
    py: int,
) -> u8
    decreases to - from,
{
    if to <= from {
        t0.layer.at(px, py)
    } else {
        let regs = regs_after(t0, ins, tags, from, to - 1, dx, dy);
        draw_px(
            ins[to - 1],
            regs.fg,
            regs.bg,
            regs.clip,
            sheets_run(t0, ins, tags, from, to - 1, dx, dy, archive, key, sh0),
            dx,
            dy,
            layer_run(t0, ins, tags, from, to - 1, dx, dy, archive, key, sh0, px, py),
            px,
            py,
        )
    }
}

/// The saved-zones pixel at `(px, py)` after the instructions `from..to`, from `z0`.
pub open spec fn zones_run(
    t0: TtmThread,
    ins: Seq<TtmInstruction>,
    tags: Map<u16, usize>,
    from: int,
    to: int,
    dx: i32,
    dy: i32,
    archive: &Archive,
    key: Option<u8>,
    sh0: SheetsView,
    z0: Surface,
    px: int,
    py: int,
) -> u8
    decreases to - from,
{
    if to <= from {
        z0.at(px, py)
    } else {
        zone_px(
            ins[to - 1],
            dx,
            dy,
            t0.layer.inside(px, py),
            layer_run(t0, ins, tags, from, to - 1, dx, dy, archive, key, sh0, px, py),
            zones_run(t0, ins, tags, from, to - 1, dx, dy, archive, key, sh0, z0, px, py),
            px,
            py,
        )
    }
}

/// The background pixel at `(px, py)` after the instructions `from..to`, from `b0`.
pub open spec fn bg_run(ins: Seq<TtmInstruction>, from: int, to: int, archive: &Archive, b0: Surface, px: int, py: int) -> u8
    decreases to - from,
{
    if to <= from {
        b0.at(px, py)
    } else {
        bg_px(ins[to - 1], archive, bg_run(ins, from, to - 1, archive, b0, px, py), px, py)
    }
}

/// What a frame run from thread `t0` draws: the thread layer, the saved zones, the
/// background and the sprite sheets are those the instructions from `t0.ip` up to the
/// frame end leave.
pub open spec fn frame_drawn(
    t0: TtmThread,
    t1: TtmThread,
    ins: Seq<TtmInstruction>,
    tags: Map<u16, usize>,
    sh0: SheetsView,
    sh1: SheetsView,
    b0: Surface,
    b1: Surface,
    z0: Surface,
    z1: Surface,
    archive: &Archive,
    key: Option<u8>,
    dx: i32,
    dy: i32,
) -> bool {
    let from = t0.ip as int;
    let to = frame_end(ins, from);
    &&& sh1 == sheets_run(t0, ins, tags, from, to, dx, dy, archive, key, sh0)
    &&& forall|px: int, py: int|
        #![trigger t1.layer.at(px, py)]
        t0.layer.inside(px, py) ==> t1.layer.at(px, py) == layer_run(
            t0, ins, tags, from, to, dx, dy, archive, key, sh0, px, py,
        )
    &&& forall|px: int, py: int|
        #![trigger z1.at(px, py)]
        z0.inside(px, py) ==> z1.at(px, py) == zones_run(
            t0, ins, tags, from, to, dx, dy, archive, key, sh0, z0, px, py,
        )
    &&& forall|px: int, py: int|
        #![trigger b1.at(px, py)]
        b0.inside(px, py) ==> b1.at(px, py) == bg_run(ins, from, to, archive, b0, px, py)
}

/// Whether an image has all of its pixels.
pub open spec fn image_wf(im: BmpImage) -> bool {
    im.pixels@.len() >= im.width * im.height
}

/// Whether every image of every sprite sheet has all of its pixels.
pub open spec fn sheets_wf(sheets: Seq<Vec<BmpImage>>) -> bool {
    forall|i: int, j: int|
        0 <= i < sheets.len() && 0 <= j < sheets[i]@.len() ==> image_wf(#[trigger] sheets[i]@[j])
}

/// Whether every screen and bitmap image of an archive has all of its pixels.
pub open spec fn archive_images_wf(a: &Archive) -> bool {
    &&& forall|i: int| 0 <= i < a.screens@.len() ==> (#[trigger] a.screens@[i]).1.pixels@.len()
        >= a.screens@[i].1.width * a.screens@[i].1.height
    &&& forall|i: int, j: int|
        0 <= i < a.bitmaps@.len() && 0 <= j < a.bitmaps@[i].1.images@.len() ==> image_wf(
            #[trigger] a.bitmaps@[i].1.images@[j],
        )
}

/// Whether every screen and bitmap image of `a` has all of its pixels (see
/// [`archive_images_wf`]), which the players need before they draw from it.
pub fn images_complete(a: &Archive) -> (r: bool)
    ensures
        r == archive_images_wf(a),
{
    let mut i: usize = 0;
    while i < a.screens.len()
        invariant
            i <= a.screens@.len(),
            forall|k: int| 0 <= k < i ==> (#[trigger] a.screens@[k]).1.pixels@.len()
                >= a.screens@[k].1.width * a.screens@[k].1.height,
        decreases a.screens@.len() - i,
    {
        let s = &a.screens[i].1;
        let sw: u64 = s.width as u64;
        let sh: u64 = s.height as u64;
        proof {
            assert(sw * sh <= 0xffff * 0xffff) by (nonlinear_arith)
                requires
                    sw <= 0xffff,
                    sh <= 0xffff,
            ;
        }
        if (s.pixels.len() as u64) < sw * sh {
            return false;
        }
        i = i + 1;
    }
    let mut i: usize = 0;
    while i < a.bitmaps.len()
        invariant
            i <= a.bitmaps@.len(),
            forall|k: int| 0 <= k < a.screens@.len() ==> (#[trigger] a.screens@[k]).1.pixels@.len()
                >= a.screens@[k].1.width * a.screens@[k].1.height,
            forall|k: int, j: int|
                0 <= k < i && 0 <= j < a.bitmaps@[k].1.images@.len() ==> image_wf(
                    #[trigger] a.bitmaps@[k].1.images@[j],
                ),
        decreases a.bitmaps@.len() - i,
    {
        let images = &a.bitmaps[i].1.images;
        let mut j: usize = 0;
        while j < images.len()
            invariant
                i < a.bitmaps@.len(),
                images@ == a.bitmaps@[i as int].1.images@,
                j <= images@.len(),
                forall|m: int| 0 <= m < j ==> image_wf(#[trigger] images@[m]),
            decreases images@.len() - j,
        {
            let im = &images[j];
            let iw: u64 = im.width as u64;
            let ih: u64 = im.height as u64;
            proof {
                assert(iw * ih <= 0xffff * 0xffff) by (nonlinear_arith)
                    requires
                        iw <= 0xffff,
                        ih <= 0xffff,
                ;
            }
            if (im.pixels.len() as u64) < iw * ih {
                return false;
            }
            j = j + 1;
        }
        i = i + 1;
    }
    true
}

/// Whether an island offset leaves room for any 16-bit coordinate.
pub open spec fn offset_ok(d: i32) -> bool {
    -0x7fff_0000 <= d <= 0x7fff_0000
}

/// The pixel that `LOAD_SCREEN` leaves at `(x, y)`: the screen's pixel where the screen
/// covers it, black elsewhere.
pub open spec fn screen_pixel(scr: &Scr, x: int, y: int) -> u8 {
    if x < scr.width && y < scr.height {
        scr.pixels@[y * scr.width + x]
    } else {
        0
    }
}

/// Replace the background by a screen image: clear to black, then copy the screen.
pub(crate) fn draw_screen(background: &mut Surface, scr: &Scr)
    requires
        old(background).wf(),
        scr.pixels@.len() >= scr.width * scr.height,
    ensures
        final(background).wf(),
        final(background).width == old(background).width,
        final(background).height == old(background).height,
        forall|x: int, y: int|
            #![trigger final(background).at(x, y)]
            final(background).inside(x, y) ==> final(background).at(x, y) == screen_pixel(scr, x, y),
{
    background.fill(0);
    let ghost w0 = background.width;
    let ghost h0 = background.height;
    proof {
        assert forall|x: int, y: int| #![trigger background.at(x, y)] background.inside(x, y) implies background.at(x, y) == 0 by {
            crate::engine::surface::lemma_cell(background.width as int, background.height as int, x, y);
        }
    }
    let w = scr.width as usize;
    let h = scr.height as usize;
    let mut sy: usize = 0;
    while sy < h
        invariant
            background.wf(),
            background.width == w0,
            background.height == h0,
            w == scr.width,
            h == scr.height,
            sy <= h,
            scr.pixels@.len() >= scr.width * scr.height,
            forall|x: int, y: int|
                #![trigger background.at(x, y)]
                background.inside(x, y) ==> background.at(x, y) == if y < sy {
                    screen_pixel(scr, x, y)
                } else {
                    0
                },
        decreases h - sy,
    {
        let mut sx: usize = 0;
        while sx < w
            invariant
                background.wf(),
                background.width == w0,
                background.height == h0,
                w == scr.width,
                h == scr.height,
                sy < h,
                sx <= w,
                scr.pixels@.len() >= scr.width * scr.height,
                forall|x: int, y: int|
                    #![trigger background.at(x, y)]
                    background.inside(x, y) ==> background.at(x, y) == if y < sy || (y == sy && x < sx) {
                        screen_pixel(scr, x, y)
                    } else {
                        0
                    },
            decreases w - sx,
        {
            proof {
                crate::engine::surface::lemma_cell(w as int, h as int, sx as int, sy as int);
                crate::dgds::scr::lemma_u16_product(scr.width, scr.height);
                assert((sy as int) * (w as int) <= (sy as int) * (w as int) + (sx as int));
            }
            let p = scr.pixels[sy * w + sx];
            background.put_pixel(sx as i32, sy as i32, p);
            sx = sx + 1;
        }
        sy = sy + 1;
    }
}

/// `im` with every pixel equal to the colour key replaced by [`TRANSPARENT`].
pub open spec fn remapped(im: BmpImage, key: Option<u8>, out: BmpImage) -> bool {
    &&& out.width == im.width
    &&& out.height == im.height
    &&& out.pixels@.len() == im.pixels@.len()
    &&& forall|k: int|
        0 <= k < im.pixels@.len() ==> #[trigger] out.pixels@[k] == if key == Some(im.pixels@[k]) {
            TRANSPARENT
        } else {
            im.pixels@[k]
        }
}

/// The frames of a sprite sheet with the colour key replaced by [`TRANSPARENT`].
pub(crate) fn remap_images(images: &Vec<BmpImage>, key: Option<u8>) -> (out: Vec<BmpImage>)
    ensures
        out@.len() == images@.len(),
        forall|i: int| 0 <= i < images@.len() ==> remapped(images@[i], key, #[trigger] out@[i]),
{
    let mut out: Vec<BmpImage> = Vec::new();
    let mut i: usize = 0;
    while i < images.len()
        invariant
            i <= images@.len(),
            out@.len() == i,
            forall|j: int| 0 <= j < i ==> remapped(images@[j], key, #[trigger] out@[j]),
        decreases images@.len() - i,
    {
        let im = &images[i];
        let mut px: Vec<u8> = Vec::new();
        let mut k: usize = 0;
        while k < im.pixels.len()
            invariant
                k <= im.pixels@.len(),
                px@.len() == k,
                forall|q: int| 0 <= q < k ==> #[trigger] px@[q] == if key == Some(im.pixels@[q]) {
                    TRANSPARENT
                } else {
                    im.pixels@[q]
                },
            decreases im.pixels@.len() - k,
        {
            let p = im.pixels[k];
            let hit = match key {
                Some(t) => t == p,
                None => false,
            };
            px.push(if hit { TRANSPARENT } else { p });
            k = k + 1;
        }
        out.push(BmpImage { width: im.width, height: im.height, pixels: px });
        i = i + 1;
    }
    out
}

/// The index of the last tag instruction before `before` (0 if none).
fn find_previous_tag(slot: &TtmSlot, before: usize) -> (j: usize)
    requires
        before <= slot.instructions@.len(),
    ensures
        j == prev_tag(slot.instructions@, before as int),
{
    let mut j: usize = before;
    while j > 0
        invariant
            j <= before,
            before <= slot.instructions@.len(),
            prev_tag(slot.instructions@, before as int) == prev_tag(slot.instructions@, j as int),
        decreases j,
    {
        let op = slot.instructions[j - 1].opcode;
        if op == 0x1111 || op == 0x1101 {
            return j - 1;
        }
        j = j - 1;
    }
    0
}

/// Carry out a drawing instruction on the thread layer and the shared saved-zones layer.
fn draw_op(
    layer: &mut Surface,
    zones: &mut Surface,
    ins: &TtmInstruction,
    fg: u8,
    bg: u8,
    clip: Option<Rect>,
    sprites: &Vec<Vec<BmpImage>>,
    dx: i32,
    dy: i32,
)
    requires
        old(layer).wf(),
        old(zones).wf(),
        sheets_wf(sprites@),
        offset_ok(dx),
        offset_ok(dy),
    ensures
        final(layer).wf(),
        final(layer).width == old(layer).width,
        final(layer).height == old(layer).height,
        final(zones).wf(),
        final(zones).width == old(zones).width,
        final(zones).height == old(zones).height,
        forall|px: int, py: int|
            #![trigger final(layer).at(px, py)]
            old(layer).inside(px, py) ==> final(layer).at(px, py) == draw_px(
                *ins,
                fg,
                bg,
                clip,
                sheets_view(sprites@),
                dx,
                dy,
                old(layer).at(px, py),
                px,
                py,
            ),
        forall|px: int, py: int|
            #![trigger final(zones).at(px, py)]
            old(zones).inside(px, py) ==> final(zones).at(px, py) == zone_px(
                *ins,
                dx,
                dy,
                old(layer).inside(px, py),
                old(layer).at(px, py),
                old(zones).at(px, py),
                px,
                py,
            ),
{
    let op = ins.opcode;
    let a = &ins.args;
    let ghost sh = sheets_view(sprites@);
    if op == 0xA002 {
        let x = signed(a, 0) + dx;
        let y = signed(a, 1) + dy;
        layer.put_pixel(x, y, fg);
    } else if op == 0xA0A4 {
        let x1 = signed(a, 0) + dx;
        let y1 = signed(a, 1) + dy;
        let x2 = signed(a, 2) + dx;
        let y2 = signed(a, 3) + dy;
        layer.draw_line(x1, y1, x2, y2, fg);
    } else if op == 0xA104 {
        let x = signed(a, 0) + dx;
        let y = signed(a, 1) + dy;
        let w = unsigned(a, 2);
        let h = unsigned(a, 3);
        layer.fill_rect(x, y, w, h, fg, clip);
    } else if op == 0xA404 {
        let x = signed(a, 0) + dx;
        let y = signed(a, 1) + dy;
        let w = unsigned(a, 2);
        let h = unsigned(a, 3);
        layer.draw_circle(x, y, w, h, fg, bg);
    } else if op == 0xA504 || op == 0xA524 {
        let x = signed(a, 0) + dx;
        let y = signed(a, 1) + dy;
        let frame = word(a, 2) as usize;
        let sheet = word(a, 3) as usize;
        let flip = op == 0xA524;
        if sheet < sprites.len() && frame < sprites[sheet].len() {
            let img = &sprites[sheet][frame];
            assert(image_wf(sprites@[sheet as int]@[frame as int]));
            proof {
                assert(sh[sheet as int][frame as int] == (img.width, img.height, img.pixels@));
            }
            layer.blit(img.width, img.height, img.pixels.as_slice(), x, y, Some(TRANSPARENT), flip, clip);
        }
    } else if op == 0x4204 {
        let x = signed(a, 0) + dx;
        let y = signed(a, 1) + dy;
        let w = unsigned(a, 2);
        let h = unsigned(a, 3);
        zones.blit_zone(layer, x, y, w, h);
    } else if op == 0xA064 {
        zones.fill(TRANSPARENT);
        proof {
            assert forall|px: int, py: int| #![trigger zones.at(px, py)] zones.inside(px, py) implies zones.at(px, py) == TRANSPARENT by {
                crate::engine::surface::lemma_cell(zones.width as int, zones.height as int, px, py);
            }
        }
    } else if op == 0xA601 {
        layer.fill(TRANSPARENT);
        proof {
            assert forall|px: int, py: int| #![trigger layer.at(px, py)] layer.inside(px, py) implies layer.at(px, py) == TRANSPARENT by {
                crate::engine::surface::lemma_cell(layer.width as int, layer.height as int, px, py);
            }
        }
    }
}

/// Run a single thread from its current `ip` until the next `UPDATE` or its end.
///
/// `background` is the shared background (set by `LOAD_SCREEN`), `saved_zones` the
/// shared layer that `COPY_ZONE_TO_BG` draws into; `dx`/`dy` are the island offset added
/// to all coordinates. A `LOAD_SCREEN` or `LOAD_IMAGE` of a resource the archive lacks
/// stops the run with `ResourceNotFound`.
pub fn run_frame(
    thread: &mut TtmThread,
    slot: &mut TtmSlot,
    background: &mut Surface,
    saved_zones: &mut Surface,
    transparent_src: Option<u8>,
    dx: i32,
    dy: i32,
    archive: &Archive,
) -> (r: Result<FrameOutcome, EngineError>)
    requires
        old(thread).layer.wf(),
        old(background).wf(),
        old(saved_zones).wf(),
        sheets_wf(old(slot).sprites@),
        archive_images_wf(archive),
        offset_ok(dx),
        offset_ok(dy),
    ensures
        final(thread).layer.wf(),
        final(thread).layer.width == old(thread).layer.width,
        final(thread).layer.height == old(thread).layer.height,
        final(background).wf(),
        final(background).width == old(background).width,
        final(background).height == old(background).height,
        final(saved_zones).wf(),
        final(saved_zones).width == old(saved_zones).width,
        final(saved_zones).height == old(saved_zones).height,
        final(slot).instructions@ == old(slot).instructions@,
        final(slot).tags@ == old(slot).tags@,
        final(slot).sprites@.len() == old(slot).sprites@.len(),
        sheets_wf(final(slot).sprites@),
        final(thread).running == old(thread).running || final(thread).running == 2,
        r matches Ok(out) ==> frame_result(
            *old(thread),
            *final(thread),
            old(slot).instructions@,
            old(slot).tags@,
            dx,
            dy,
            out,
        ),
        r is Ok ==> frame_drawn(
            *old(thread),
            *final(thread),
            old(slot).instructions@,
            old(slot).tags@,
            sheets_view(old(slot).sprites@),
            sheets_view(final(slot).sprites@),
            *old(background),
            *final(background),
            *old(saved_zones),
            *final(saved_zones),
            archive,
            transparent_src,
            dx,
            dy,
        ),
        r is Err <==> missing_in(
            archive,
            old(slot).instructions@,
            old(thread).ip as int,
            frame_end(old(slot).instructions@, old(thread).ip as int),
        ),
        r matches Err(e) ==> exists|j: int|
            old(thread).ip <= j && !missing_in(archive, old(slot).instructions@, old(thread).ip as int, j)
                && missing(archive, old(slot).instructions@[j]) && (e matches EngineError::ResourceNotFound(
                n) && n@ == name_of(old(slot).instructions@[j].args)),
{
    let ghost t0 = *thread;
    let ghost ins = slot.instructions@;
    let ghost tags = slot.tags@;
    let ghost ip0 = thread.ip as int;
    let ghost e = frame_end(ins, ip0);
    let ghost sh0 = sheets_view(slot.sprites@);
    let ghost z0 = *saved_zones;
    let ghost b0 = *background;
    let mut sounds: Vec<u16> = Vec::new();
    loop
        invariant
            thread.layer.wf(),
            thread.layer.width == t0.layer.width,
            thread.layer.height == t0.layer.height,
            background.wf(),
            background.width == old(background).width,
            background.height == old(background).height,
            saved_zones.wf(),
            saved_zones.width == old(saved_zones).width,
            saved_zones.height == old(saved_zones).height,
            slot.instructions@ == ins,
            slot.tags@ == tags,
            slot.sprites@.len() == old(slot).sprites@.len(),
            sheets_wf(slot.sprites@),
            archive_images_wf(archive),
            offset_ok(dx),
            offset_ok(dy),
            t0 == *old(thread),
            ins == old(slot).instructions@,
            tags == old(slot).tags@,
            sh0 == sheets_view(old(slot).sprites@),
            z0 == *old(saved_zones),
            b0 == *old(background),
            ip0 == t0.ip,
            e == frame_end(ins, ip0),
            ip0 <= thread.ip,
            frame_end(ins, thread.ip as int) == e,
            thread.ip <= ins.len() || thread.ip == ip0,
            same_regs(*thread, regs_after(t0, ins, tags, ip0, thread.ip as int, dx, dy)),
            thread.next_goto == regs_after(t0, ins, tags, ip0, thread.ip as int, dx, dy).next_goto,
            same_scene(*thread, t0),
            thread.running == t0.running,
            sounds@ == sounds_in(ins, ip0, thread.ip as int),
            !missing_in(archive, ins, ip0, thread.ip as int),
            sheets_view(slot.sprites@) == sheets_run(
                t0, ins, tags, ip0, thread.ip as int, dx, dy, archive, transparent_src, sh0,
            ),
            forall|px: int, py: int|
                #![trigger thread.layer.at(px, py)]
                t0.layer.inside(px, py) ==> thread.layer.at(px, py) == layer_run(
                    t0, ins, tags, ip0, thread.ip as int, dx, dy, archive, transparent_src, sh0, px, py,
                ),
            forall|px: int, py: int|
                #![trigger saved_zones.at(px, py)]
                z0.inside(px, py) ==> saved_zones.at(px, py) == zones_run(
                    t0, ins, tags, ip0, thread.ip as int, dx, dy, archive, transparent_src, sh0, z0, px, py,
                ),
            forall|px: int, py: int|
                #![trigger background.at(px, py)]
                b0.inside(px, py) ==> background.at(px, py) == bg_run(ins, ip0, thread.ip as int, archive, b0, px, py),
        decreases ins.len() - thread.ip,
    {
        if thread.ip >= slot.instructions.len() {
            thread.running = 2;
            return Ok(FrameOutcome::Finished);
        }
        let idx = thread.ip;
        let ghost regs = regs_after(t0, ins, tags, ip0, idx as int, dx, dy);
        let ghost sh = sheets_run(t0, ins, tags, ip0, idx as int, dx, dy, archive, transparent_src, sh0);
        let ghost layer_before = thread.layer;
        let ghost zones_before = *saved_zones;
        let ghost bg_before = *background;
        thread.ip = idx + 1;
        let op = slot.instructions[idx].opcode;
        assert(regs_after(t0, ins, tags, ip0, idx + 1, dx, dy) == reg_step(regs, ins[idx as int], tags, dx, dy));
        if op == 0x0FF0 {
            return Ok(FrameOutcome::Frame { sounds });
        }
        if op == 0x0110 {
            if thread.scene_timer > 0 {
                thread.next_goto = Some(find_previous_tag(slot, idx));
                return Ok(FrameOutcome::Frame { sounds });
            }
            thread.running = 2;
            return Ok(FrameOutcome::Finished);
        }
        let a = &slot.instructions[idx].args;
        if op == 0x1021 {
            let w = word(a, 0);
            let d = if w < 4 { 4 } else { w };
            thread.delay = d;
            thread.timer = d;
        } else if op == 0x2022 {
            let d = ((word(a, 0) as u32 + word(a, 1) as u32) / 2) as u16;
            thread.delay = d;
            thread.timer = d;
        } else if op == 0x1051 {
            thread.selected_bmp_slot = word(a, 0) as usize;
        } else if op == 0x1201 {
            let tag = word(a, 0);
            thread.next_goto = Some(slot.find_tag(tag));
        } else if op == 0x2002 {
            let f = word(a, 0);
            let b = word(a, 1);
            thread.fg = #[verifier::truncate] (f as u8);
            thread.bg = #[verifier::truncate] (b as u8);
        } else if op == 0x4004 {
            let x1 = signed(a, 0) + dx;
            let y1 = signed(a, 1) + dy;
            let x2 = signed(a, 2) + dx;
            let y2 = signed(a, 3) + dy;
            thread.clip = Some(Rect { x: x1, y: y1, w: x2 - x1, h: y2 - y1 });
        } else if op == 0xA002 || op == 0xA0A4 || op == 0xA104 || op == 0xA404 || op == 0xA504
            || op == 0xA524 || op == 0x4204 || op == 0xA064 || op == 0xA601 {
            let f = thread.fg;
            let b = thread.bg;
            let clip = thread.clip;
            draw_op(&mut thread.layer, saved_zones, &slot.instructions[idx], f, b, clip, &slot.sprites, dx, dy);
        } else if op == 0xC051 {
            sounds.push(word(a, 0));
        } else if op == 0xF01F {
            let name = string(a);
            assert(name@ =~= name_of(ins[idx as int].args));
            match archive.scr(name) {
                Some(scr) => {
                    proof {
                        crate::dgds::archive::lemma_first_named_index(archive.screens@, name@);
                        let i = first_named(archive.screens@, name@)->Some_0;
                        assert(archive.screens@[i].1.pixels@.len() >= archive.screens@[i].1.width
                            * archive.screens@[i].1.height);
                    }
                    draw_screen(background, scr);
                },
                None => {
                    proof {
                        assert(missing(archive, ins[idx as int]));
                        assert(frame_end(ins, idx as int) == frame_end(ins, idx + 1));
                        lemma_frame_end_ge(ins, idx + 1);
                        assert(ip0 <= idx < e);
                        assert(missing_in(archive, ins, ip0, e));
                    }
                    return Err(EngineError::ResourceNotFound(name.to_string()));
                },
            }
        } else if op == 0xF02F {
            let name = string(a);
            assert(name@ =~= name_of(ins[idx as int].args));
            match archive.bmp(name) {
                Some(bmp) => {
                    let images = remap_images(&bmp.images, transparent_src);
                    let sel = thread.selected_bmp_slot;
                    if sel < slot.sprites.len() {
                        proof {
                            crate::dgds::archive::lemma_first_named_index(archive.bitmaps@, name@);
                            let i = first_named(archive.bitmaps@, name@)->Some_0;
                            assert forall|j: int| 0 <= j < images@.len() implies image_wf(#[trigger] images@[j]) by {
                                assert(image_wf(archive.bitmaps@[i].1.images@[j]));
                                assert(remapped(bmp.images@[j], transparent_src, images@[j]));
                            }
                            let lv = images@.map_values(|im: BmpImage| (im.width, im.height, im.pixels@));
                            assert forall|j: int| 0 <= j < images@.len() implies #[trigger] lv[j]
                                == loaded_sheet(archive, name@, transparent_src)[j] by {
                                assert(remapped(bmp.images@[j], transparent_src, images@[j]));
                                assert(images@[j].pixels@ =~= remap_px(bmp.images@[j].pixels@, transparent_src));
                            }
                            assert(lv =~= loaded_sheet(archive, name@, transparent_src));
                        }
                        let ghost before = slot.sprites@;
                        slot.sprites.set(sel, images);
                        proof {
                            assert(sheets_view(slot.sprites@) =~= sheets_view(before).update(
                                sel as int,
                                loaded_sheet(archive, name@, transparent_src),
                            ));
                        }
                    }
                },
                None => {
                    proof {
                        assert(missing(archive, ins[idx as int]));
                        assert(frame_end(ins, idx as int) == frame_end(ins, idx + 1));
                        lemma_frame_end_ge(ins, idx + 1);
                        assert(ip0 <= idx < e);
                        assert(missing_in(archive, ins, ip0, e));
                    }
                    return Err(EngineError::ResourceNotFound(name.to_string()));
                },
            }
        }
        proof {
            assert(frame_end(ins, idx as int) == frame_end(ins, idx + 1));
            assert(!missing(archive, ins[idx as int]));
            assert forall|j: int| ip0 <= j < idx + 1 implies !#[trigger] missing(archive, ins[j]) by {
                if j < idx {
                    assert(!missing_in(archive, ins, ip0, idx as int));
                }
            }
        }
    }
}

} // verus!
