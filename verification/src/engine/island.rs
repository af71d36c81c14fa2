//! The island scenery: background, raft, clouds, palm tree, shore waves and holiday
//! props.
//!
//! [`Island::build`] paints the static scene onto an opaque background [`Surface`] (the
//! screen `OCEAN`/`NIGHT`, the raft, clouds, the island and tree, and at low tide the
//! shore and rock), then primes the shore waves. [`Island::animate_waves`] steps the
//! looping wave animation. Holiday props are kept on a separate layer.
use vstd::prelude::*;
use crate::dgds::archive::{Archive, first_named};
use crate::dgds::bmp::BmpImage;
use crate::dgds::pal::Palette;
use crate::engine::error::EngineError;
use crate::engine::rng::{Rng, xorshift};
use crate::engine::story::{Holiday, IslandState};
use crate::engine::surface::{Surface, TRANSPARENT};
use crate::engine::ttm_exec::{
    detect_transparent, draw_screen, remap_images, remapped, archive_images_wf, image_wf, offset_ok,
    sheet_of, sheet_px, loaded_sheet, remap_px, colour_key, screen_pixel,
};

verus! {

/// Whether every image of a sheet has all of its pixels.
pub open spec fn sheet_wf(images: Seq<BmpImage>) -> bool {
    forall|i: int| 0 <= i < images.len() ==> image_wf(#[trigger] images[i])
}

/// The wave counters after one animation step: the frame slot cycles through the four
/// (low tide) or three (high tide) wave spots, and the frame advances when it wraps.
pub open spec fn next_waves(low_tide: bool, c1: i32, c2: i32) -> (i32, i32) {
    let m: int = if low_tide { 4 } else { 3 };
    let n2 = (c2 + 1) % m;
    let n1 = if n2 == 0 { (c1 + 1) % 3 } else { c1 as int };
    (n1 as i32, n2 as i32)
}

/// A draw of the generator from state `r`.
pub open spec fn rdraw(r: u64) -> u32 {
    crate::engine::rng::draw(r)
}

/// The wave sprite and spot drawn when the spot counter moves to `c2` with frame `c1`.
pub open spec fn wave_spot(low_tide: bool, c1: int, c2: int) -> (int, int, int) {
    if low_tide {
        if c2 == 0 {
            (39 + c1, 129, 340)
        } else if c2 == 1 {
            (30 + c1, 233, 323)
        } else if c2 == 2 {
            (33 + c1, 367, 356)
        } else {
            (36 + c1, 558, 323)
        }
    } else {
        if c2 == 0 {
            (3 + c1, 270, 306)
        } else if c2 == 1 {
            (6 + c1, 364, 319)
        } else {
            (9 + c1, 518, 303)
        }
    }
}

/// The pixel at `(px, py)` after one wave step from the counters `waves` over `under`.
pub open spec fn wave_px(
    low_tide: bool,
    waves: (i32, i32),
    offset: (i32, i32),
    sh: Seq<(u16, u16, Seq<u8>)>,
    under: u8,
    px: int,
    py: int,
) -> u8 {
    let c2 = next_waves(low_tide, waves.0, waves.1).1;
    let (idx, x, y) = wave_spot(low_tide, waves.0 as int, c2 as int);
    sheet_px(sh, idx, x + offset.0, y + offset.1, false, under, px, py)
}

/// The wave counters after `k` steps from the start.
pub open spec fn wave_counters(low_tide: bool, k: nat) -> (i32, i32)
    decreases k,
{
    if k == 0 {
        (0, 0)
    } else {
        let (c1, c2) = wave_counters(low_tide, (k - 1) as nat);
        next_waves(low_tide, c1, c2)
    }
}

/// The pixel at `(px, py)` after the first `k` wave steps over `under`.
pub open spec fn waves_px(
    sh: Seq<(u16, u16, Seq<u8>)>,
    low_tide: bool,
    offset: (i32, i32),
    k: nat,
    under: u8,
    px: int,
    py: int,
) -> u8
    decreases k,
{
    if k == 0 {
        under
    } else {
        wave_px(
            low_tide,
            wave_counters(low_tide, (k - 1) as nat),
            offset,
            sh,
            waves_px(sh, low_tide, offset, (k - 1) as nat, under, px, py),
            px,
            py,
        )
    }
}

/// The screen the island is painted on and the generator state after choosing it: the
/// night sky, or one of three oceans at random.
pub open spec fn screen_choice(night: bool, r: u64) -> (Seq<char>, u64) {
    if night {
        ("NIGHT.SCR"@, r)
    } else {
        let k = rdraw(r) % 3;
        (if k == 0 { "OCEAN00.SCR"@ } else if k == 1 { "OCEAN01.SCR"@ } else { "OCEAN02.SCR"@ }, xorshift(r))
    }
}

/// How many clouds to draw, from generator state `r`, and the state after: one half of
/// the time, none a quarter of the time, and otherwise two to five with falling odds.
pub open spec fn cloud_count(r: u64) -> (u32, u64) {
    let r1 = xorshift(r);
    let r2 = xorshift(r1);
    let r3 = xorshift(r2);
    let r4 = xorshift(r3);
    let r5 = xorshift(r4);
    if rdraw(r) % 2 == 1 {
        (1, r1)
    } else if rdraw(r1) % 2 == 1 {
        (0, r2)
    } else if rdraw(r2) % 4 != 0 {
        (2, r3)
    } else if rdraw(r3) % 4 != 0 {
        (3, r4)
    } else if rdraw(r4) % 4 != 0 {
        (4, r5)
    } else {
        (5, r5)
    }
}

/// The cloud drawn from generator state `r`: its sprite, its position, and the state
/// after.
pub open spec fn cloud_at(r: u64) -> (int, int, int, u64) {
    let no = rdraw(r) % 3;
    let r1 = xorshift(r);
    let (w, h): (int, int) = if no == 0 {
        (640 - 129, 135 - 36)
    } else if no == 1 {
        (640 - 192, 135 - 57)
    } else {
        (640 - 264, 135 - 76)
    };
    let r2 = xorshift(r1);
    (15 + no, rdraw(r1) as int % w, rdraw(r2) as int % h, xorshift(r2))
}

/// The generator state after drawing `k` clouds from `r`.
pub open spec fn cloud_rng(r: u64, k: nat) -> u64
    decreases k,
{
    if k == 0 {
        r
    } else {
        cloud_at(cloud_rng(r, (k - 1) as nat)).3
    }
}

/// The pixel at `(px, py)` after drawing `k` clouds from generator state `r` over `under`.
pub open spec fn clouds_px(sh: Seq<(u16, u16, Seq<u8>)>, r: u64, k: nat, flip: bool, under: u8, px: int, py: int) -> u8
    decreases k,
{
    if k == 0 {
        under
    } else {
        let c = cloud_at(cloud_rng(r, (k - 1) as nat));
        sheet_px(sh, c.0, c.1, c.2, flip, clouds_px(sh, r, (k - 1) as nat, flip, under, px, py), px, py)
    }
}

/// The pixel at `(px, py)` after painting the island, the palm tree, its trunk and
/// leaves, and (at low tide) the shore and rock over `under`.
pub open spec fn scenery_px(sh: Seq<(u16, u16, Seq<u8>)>, low_tide: bool, dx: int, dy: int, under: u8, px: int, py: int) -> u8 {
    let p = sheet_px(sh, 0, 288 + dx, 279 + dy, false, under, px, py);
    let p = sheet_px(sh, 13, 442 + dx, 148 + dy, false, p, px, py);
    let p = sheet_px(sh, 12, 365 + dx, 122 + dy, false, p, px, py);
    let p = sheet_px(sh, 14, 396 + dx, 279 + dy, false, p, px, py);
    if low_tide {
        let p = sheet_px(sh, 1, 249 + dx, 303 + dy, false, p, px, py);
        sheet_px(sh, 2, 150 + dx, 328 + dy, false, p, px, py)
    } else {
        p
    }
}

/// The holiday prop: its sprite and spot.
pub open spec fn holiday_prop(h: Holiday) -> (int, int, int) {
    match h {
        Holiday::Halloween => (0, 410, 298),
        Holiday::StPatrick => (1, 333, 286),
        Holiday::Christmas => (2, 404, 267),
        _ => (3, 361, 155),
    }
}

/// The pixel at `(px, py)` of the sky and sea painted for `state` from generator state
/// `r0` with colour key `key`: the screen, the raft and the clouds (mirrored unless the
/// wind blows).
pub open spec fn sky_px(archive: &Archive, state: IslandState, key: Option<u8>, r0: u64, px: int, py: int) -> u8 {
    let (scr_name, r1) = screen_choice(state.night, r0);
    let base = screen_pixel(&archive.screens@[first_named(archive.screens@, scr_name)->Some_0].1, px, py);
    let (xr, yr): (int, int) = if state.low_tide { (529, 281) } else { (512, 266) };
    let p1 = if state.raft >= 1 {
        sheet_px(
            loaded_sheet(archive, "MRAFT.BMP"@, key),
            state.raft - 1,
            xr + state.x_pos,
            yr + state.y_pos,
            false,
            base,
            px,
            py,
        )
    } else {
        base
    };
    let sh = loaded_sheet(archive, "BACKGRND.BMP"@, key);
    let wind = rdraw(r1) % 2 == 1;
    let (n, r3) = cloud_count(xorshift(r1));
    clouds_px(sh, r3, n as nat, !wind, p1, px, py)
}

/// The pixel at `(px, py)` of the island background painted for `state` from generator
/// state `r0` with colour key `key`: the sky and sea, the scenery, and the first four
/// wave steps.
pub open spec fn island_px(archive: &Archive, state: IslandState, key: Option<u8>, r0: u64, px: int, py: int) -> u8 {
    let sh = loaded_sheet(archive, "BACKGRND.BMP"@, key);
    let p = scenery_px(sh, state.low_tide, state.x_pos as int, state.y_pos as int, sky_px(archive, state, key, r0, px, py), px, py);
    waves_px(sh, state.low_tide, (state.x_pos, state.y_pos), 4, p, px, py)
}

/// The generator state after painting the island for `state` from `r0`.
pub open spec fn island_rng(state: IslandState, r0: u64) -> u64 {
    let r1 = screen_choice(state.night, r0).1;
    let (n, r3) = cloud_count(xorshift(r1));
    cloud_rng(r3, n as nat)
}

/// Whether painting the island for `state` from `r0` needs a resource the archive lacks.
pub open spec fn island_missing(archive: &Archive, state: IslandState, r0: u64) -> bool {
    ||| first_named(archive.screens@, screen_choice(state.night, r0).0) is None
    ||| first_named(archive.bitmaps@, "MRAFT.BMP"@) is None
    ||| first_named(archive.bitmaps@, "BACKGRND.BMP"@) is None
    ||| state.holiday != Holiday::NoHoliday && first_named(archive.bitmaps@, "HOLIDAY.BMP"@) is None
}

/// The rendered island scenery.
#[derive(Debug, Clone)]
pub struct Island {
    background: Surface,
    holiday: Option<Surface>,
    backgrnd: Vec<BmpImage>,
    low_tide: bool,
    dx: i32,
    dy: i32,
    wave_c1: i32,
    wave_c2: i32,
}

impl Island {
    /// The scenery's invariant: complete layers and sprites, a usable offset and wave
    /// counters in range.
    pub closed spec fn wf(&self) -> bool {
        &&& self.background.wf()
        &&& self.holiday matches Some(l) ==> l.wf() && l.width == self.background.width
            && l.height == self.background.height
        &&& sheet_wf(self.backgrnd@)
        &&& offset_ok(self.dx)
        &&& offset_ok(self.dy)
        &&& 0 <= self.wave_c1 < 3
        &&& 0 <= self.wave_c2 < 4
    }

    /// A well-formed island's background and holiday layer are complete surfaces of one
    /// size, and its drift is usable.
    pub proof fn lemma_parts(&self)
        requires
            self.wf(),
        ensures
            self.background_spec().wf(),
            self.holiday_spec() matches Some(l) ==> l.wf() && l.width == self.background_spec().width
                && l.height == self.background_spec().height,
            offset_ok(self.offset_spec().0),
            offset_ok(self.offset_spec().1),
    {
    }

    /// The painted background.
    pub closed spec fn background_spec(&self) -> Surface {
        self.background
    }

    /// The holiday layer, if any.
    pub closed spec fn holiday_spec(&self) -> Option<Surface> {
        self.holiday
    }

    /// The island offset.
    pub closed spec fn offset_spec(&self) -> (i32, i32) {
        (self.dx, self.dy)
    }

    /// Whether the scenery is at low tide.
    pub closed spec fn low_tide_spec(&self) -> bool {
        self.low_tide
    }

    /// The wave counters (frame, spot).
    pub closed spec fn waves(&self) -> (i32, i32) {
        (self.wave_c1, self.wave_c2)
    }

    /// The scenery sprite sheet (`BACKGRND.BMP`, colour key remapped).
    pub closed spec fn sprites_spec(&self) -> Seq<(u16, u16, Seq<u8>)> {
        sheet_of(self.backgrnd@)
    }
}

/// Blit frame `idx` of `images` at `(x, y)` (nothing when there is no such frame).
fn draw(target: &mut Surface, images: &Vec<BmpImage>, idx: usize, x: i32, y: i32, flip: bool)
    requires
        old(target).wf(),
        sheet_wf(images@),
    ensures
        final(target).wf(),
        final(target).width == old(target).width,
        final(target).height == old(target).height,
        idx >= images@.len() ==> *final(target) == *old(target),
        forall|px: int, py: int|
            #![trigger final(target).at(px, py)]
            old(target).inside(px, py) ==> final(target).at(px, py) == sheet_px(
                sheet_of(images@),
                idx as int,
                x as int,
                y as int,
                flip,
                old(target).at(px, py),
                px,
                py,
            ),
{
    if idx < images.len() {
        let img = &images[idx];
        assert(image_wf(images@[idx as int]));
        target.blit(img.width, img.height, img.pixels.as_slice(), x, y, Some(TRANSPARENT), flip, None);
    }
}

/// The frames of bitmap `name`, with the colour key made transparent.
fn load_remapped(archive: &Archive, name: &str, key: Option<u8>) -> (r: Result<Vec<BmpImage>, EngineError>)
    requires
        archive_images_wf(archive),
    ensures
        r matches Ok(v) ==> sheet_wf(v@) && sheet_of(v@) == loaded_sheet(archive, name@, key),
        r matches Err(e) ==> e == EngineError::ResourceNotFound(e->ResourceNotFound_0) && e->ResourceNotFound_0@
            == name@ && first_named(archive.bitmaps@, name@) is None,
        first_named(archive.bitmaps@, name@) is None ==> r is Err,
{
    match archive.bmp(name) {
        Some(bmp) => {
            let v = remap_images(&bmp.images, key);
            proof {
                crate::dgds::archive::lemma_first_named_index(archive.bitmaps@, name@);
                let i = first_named(archive.bitmaps@, name@)->Some_0;
                assert forall|j: int| 0 <= j < v@.len() implies image_wf(#[trigger] v@[j]) by {
                    assert(image_wf(archive.bitmaps@[i].1.images@[j]));
                    assert(remapped(bmp.images@[j], key, v@[j]));
                }
                assert forall|j: int| 0 <= j < v@.len() implies #[trigger] sheet_of(v@)[j]
                    == loaded_sheet(archive, name@, key)[j] by {
                    assert(remapped(bmp.images@[j], key, v@[j]));
                    assert(v@[j].pixels@ =~= remap_px(bmp.images@[j].pixels@, key));
                }
                assert(sheet_of(v@) =~= loaded_sheet(archive, name@, key));
            }
            Ok(v)
        },
        None => Err(EngineError::ResourceNotFound(name.to_string())),
    }
}

/// How many clouds to draw: one half of the time, none a quarter of the time, and
/// otherwise two to five with falling odds.
fn pick_num_clouds(rng: &mut Rng) -> (n: u32)
    ensures
        n <= 5,
        (n, final(rng).state()) == cloud_count(old(rng).state()),
{
    if rng.below(2) == 1 {
        1
    } else if rng.below(2) == 1 {
        0
    } else if rng.below(4) != 0 {
        2
    } else if rng.below(4) != 0 {
        3
    } else if rng.below(4) != 0 {
        4
    } else {
        5
    }
}

/// Paint the sky and sea for `state` (see [`sky_px`]) and load the scenery sheet.
#[verifier::rlimit(40)]
fn paint_sky(
    archive: &Archive,
    state: &IslandState,
    key: Option<u8>,
    width: u16,
    height: u16,
    rng: &mut Rng,
) -> (r: Result<(Surface, Vec<BmpImage>), EngineError>)
    requires
        archive_images_wf(archive),
        offset_ok(state.x_pos),
        offset_ok(state.y_pos),
    ensures
        r matches Ok((bg, sheet)) ==> {
            &&& bg.wf()
            &&& bg.width == width
            &&& bg.height == height
            &&& sheet_wf(sheet@)
            &&& sheet_of(sheet@) == loaded_sheet(archive, "BACKGRND.BMP"@, key)
            &&& forall|px: int, py: int|
                #![trigger bg.at(px, py)]
                bg.inside(px, py) ==> bg.at(px, py) == sky_px(archive, *state, key, old(rng).state(), px, py)
            &&& final(rng).state() == island_rng(*state, old(rng).state())
        },
        r is Err <==> {
            ||| first_named(archive.screens@, screen_choice(state.night, old(rng).state()).0) is None
            ||| first_named(archive.bitmaps@, "MRAFT.BMP"@) is None
            ||| first_named(archive.bitmaps@, "BACKGRND.BMP"@) is None
        },
        r matches Err(e) ==> e is ResourceNotFound,
{
    let ghost r0 = rng.state();
    let dx = state.x_pos;
    let dy = state.y_pos;
    let mut background = Surface::new(width, height, 0);
    let scr_name: &str = if state.night {
        "NIGHT.SCR"
    } else {
        let k = rng.below(3);
        if k == 0 {
            "OCEAN00.SCR"
        } else if k == 1 {
            "OCEAN01.SCR"
        } else {
            "OCEAN02.SCR"
        }
    };
    assert(scr_name@ == screen_choice(state.night, r0).0);
    assert(rng.state() == screen_choice(state.night, r0).1);
    match archive.scr(scr_name) {
        Some(scr) => {
            proof {
                crate::dgds::archive::lemma_first_named_index(archive.screens@, scr_name@);
                let i = first_named(archive.screens@, scr_name@)->Some_0;
                assert(archive.screens@[i].1.pixels@.len() >= archive.screens@[i].1.width
                    * archive.screens@[i].1.height);
            }
            draw_screen(&mut background, scr);
        },
        None => return Err(EngineError::ResourceNotFound(scr_name.to_string())),
    }
    let raft = match load_remapped(archive, "MRAFT.BMP", key) {
        Ok(v) => v,
        Err(e) => return Err(e),
    };
    if state.raft >= 1 {
        let (xr, yr): (i32, i32) = if state.low_tide { (529, 281) } else { (512, 266) };
        draw(&mut background, &raft, (state.raft - 1) as usize, xr + dx, yr + dy, false);
    }
    let ghost p1 = background;
    let backgrnd = match load_remapped(archive, "BACKGRND.BMP", key) {
        Ok(v) => v,
        Err(e) => return Err(e),
    };
    let ghost sh = sheet_of(backgrnd@);
    let wind = rng.below(2) == 1;
    let num_clouds = pick_num_clouds(rng);
    let ghost r3 = rng.state();
    let mut k: u32 = 0;
    while k < num_clouds
        invariant
            background.wf(),
            background.width == width,
            background.height == height,
            sheet_wf(backgrnd@),
            sh == sheet_of(backgrnd@),
            k <= num_clouds,
            rng.state() == cloud_rng(r3, k as nat),
            p1.width == width,
            p1.height == height,
            forall|px: int, py: int|
                #![trigger background.at(px, py)]
                background.inside(px, py) ==> background.at(px, py) == clouds_px(
                    sh,
                    r3,
                    k as nat,
                    !wind,
                    p1.at(px, py),
                    px,
                    py,
                ),
        decreases num_clouds - k,
    {
        let ghost rk = rng.state();
        let cloud_no = rng.below(3);
        let (cx, cy): (i32, i32) = if cloud_no == 0 {
            let a = rng.below(640 - 129) as i32;
            let b = rng.below(135 - 36) as i32;
            (a, b)
        } else if cloud_no == 1 {
            let a = rng.below(640 - 192) as i32;
            let b = rng.below(135 - 57) as i32;
            (a, b)
        } else {
            let a = rng.below(640 - 264) as i32;
            let b = rng.below(135 - 76) as i32;
            (a, b)
        };
        assert(cloud_at(rk) == (15 + cloud_no as int, cx as int, cy as int, rng.state()));
        draw(&mut background, &backgrnd, 15 + cloud_no as usize, cx, cy, !wind);
        k = k + 1;
    }
    Ok((background, backgrnd))
}

/// Paint the island, the palm tree and (at low tide) the shore and rock (see
/// [`scenery_px`]).
fn paint_scenery(background: &mut Surface, backgrnd: &Vec<BmpImage>, low_tide: bool, dx: i32, dy: i32)
    requires
        old(background).wf(),
        sheet_wf(backgrnd@),
        offset_ok(dx),
        offset_ok(dy),
    ensures
        final(background).wf(),
        final(background).width == old(background).width,
        final(background).height == old(background).height,
        forall|px: int, py: int|
            #![trigger final(background).at(px, py)]
            old(background).inside(px, py) ==> final(background).at(px, py) == scenery_px(
                sheet_of(backgrnd@),
                low_tide,
                dx as int,
                dy as int,
                old(background).at(px, py),
                px,
                py,
            ),
{
    draw(background, backgrnd, 0, 288 + dx, 279 + dy, false);
    draw(background, backgrnd, 13, 442 + dx, 148 + dy, false);
    draw(background, backgrnd, 12, 365 + dx, 122 + dy, false);
    draw(background, backgrnd, 14, 396 + dx, 279 + dy, false);
    if low_tide {
        draw(background, backgrnd, 1, 249 + dx, 303 + dy, false);
        draw(background, backgrnd, 2, 150 + dx, 328 + dy, false);
    }
}

impl Island {
    /// Build the island scenery for the given [`IslandState`]: the background painted
    /// as [`island_px`] says, the shore waves primed by four steps, and the holiday prop
    /// on a transparent layer of its own.
    #[verifier::rlimit(60)]
    pub fn build(
        archive: &Archive,
        state: &IslandState,
        palette: &Palette,
        width: u16,
        height: u16,
        rng: &mut Rng,
    ) -> (r: Result<Self, EngineError>)
        requires
            archive_images_wf(archive),
            offset_ok(state.x_pos),
            offset_ok(state.y_pos),
        ensures
            r matches Ok(isl) ==> {
                &&& isl.wf()
                &&& isl.background_spec().width == width
                &&& isl.background_spec().height == height
                &&& isl.offset_spec() == (state.x_pos, state.y_pos)
                &&& isl.low_tide_spec() == state.low_tide
                &&& isl.sprites_spec() == loaded_sheet(archive, "BACKGRND.BMP"@, colour_key(*palette))
                &&& isl.waves() == wave_counters(state.low_tide, 4)
                &&& forall|px: int, py: int|
                    #![trigger isl.background_spec().at(px, py)]
                    isl.background_spec().inside(px, py) ==> isl.background_spec().at(px, py) == island_px(
                        archive,
                        *state,
                        colour_key(*palette),
                        old(rng).state(),
                        px,
                        py,
                    )
                &&& (isl.holiday_spec() is Some <==> state.holiday != Holiday::NoHoliday)
                &&& isl.holiday_spec() matches Some(l) ==> forall|px: int, py: int|
                    #![trigger l.at(px, py)]
                    l.inside(px, py) ==> l.at(px, py) == sheet_px(
                        loaded_sheet(archive, "HOLIDAY.BMP"@, colour_key(*palette)),
                        holiday_prop(state.holiday).0,
                        holiday_prop(state.holiday).1 + state.x_pos,
                        holiday_prop(state.holiday).2 + state.y_pos,
                        false,
                        TRANSPARENT,
                        px,
                        py,
                    )
                &&& final(rng).state() == island_rng(*state, old(rng).state())
            },
            r is Err <==> island_missing(archive, *state, old(rng).state()),
            r matches Err(e) ==> e is ResourceNotFound,
    {
        let ghost r0 = rng.state();
        let transparent_src = detect_transparent(palette);
        let dx = state.x_pos;
        let dy = state.y_pos;
        let (mut background, backgrnd) = match paint_sky(archive, state, transparent_src, width, height, rng) {
            Ok(v) => v,
            Err(e) => return Err(e),
        };
        let ghost sh = sheet_of(backgrnd@);
        let ghost p2 = background;
        paint_scenery(&mut background, &backgrnd, state.low_tide, dx, dy);
        let ghost p3 = background;
        let mut island = Island {
            background,
            holiday: None,
            backgrnd,
            low_tide: state.low_tide,
            dx,
            dy,
            wave_c1: 0,
            wave_c2: 0,
        };
        let mut k: u32 = 0;
        while k < 4
            invariant
                island.wf(),
                island.background.width == width,
                island.background.height == height,
                island.holiday is None,
                island.dx == dx,
                island.dy == dy,
                island.low_tide == state.low_tide,
                island.sprites_spec() == sh,
                k <= 4,
                island.waves() == wave_counters(state.low_tide, k as nat),
                p3.width == width,
                p3.height == height,
                forall|px: int, py: int|
                    #![trigger island.background.at(px, py)]
                    island.background.inside(px, py) ==> island.background.at(px, py) == waves_px(
                        sh,
                        state.low_tide,
                        (dx, dy),
                        k as nat,
                        p3.at(px, py),
                        px,
                        py,
                    ),
            decreases 4 - k,
        {
            island.animate_waves();
            k = k + 1;
        }
        if state.holiday != Holiday::NoHoliday {
            let mut layer = Surface::new(width, height, TRANSPARENT);
            proof {
                assert forall|px: int, py: int| #![trigger layer.at(px, py)] layer.inside(px, py) implies layer.at(px, py) == TRANSPARENT by {
                    crate::engine::surface::lemma_cell(width as int, height as int, px, py);
                }
            }
            let holiday = match load_remapped(archive, "HOLIDAY.BMP", transparent_src) {
                Ok(v) => v,
                Err(e) => return Err(e),
            };
            let (sprite, x, y): (usize, i32, i32) = match state.holiday {
                Holiday::Halloween => (0, 410, 298),
                Holiday::StPatrick => (1, 333, 286),
                Holiday::Christmas => (2, 404, 267),
                _ => (3, 361, 155),
            };
            draw(&mut layer, &holiday, sprite, x + dx, y + dy, false);
            island.holiday = Some(layer);
        }
        Ok(island)
    }

    /// The painted background (opaque).
    pub fn background(&self) -> (s: &Surface)
        ensures
            *s == self.background_spec(),
    {
        &self.background
    }

    /// The holiday prop layer (transparent), if a holiday is active.
    pub fn holiday_layer(&self) -> (l: Option<&Surface>)
        ensures
            match self.holiday_spec() {
                Some(s) => l == Some(&s),
                None => l is None,
            },
    {
        match &self.holiday {
            Some(s) => Some(s),
            None => None,
        }
    }

    /// The island position offset applied to scenery (and to be applied to Johnny).
    pub fn offset(&self) -> (o: (i32, i32))
        ensures
            o == self.offset_spec(),
    {
        (self.dx, self.dy)
    }

    /// Redraw the palm trunk and leaves over `target` (used when Johnny walks behind
    /// the tree, so he is occluded by it).
    pub fn redraw_tree(&self, target: &mut Surface)
        requires
            self.wf(),
            old(target).wf(),
        ensures
            final(target).wf(),
            final(target).width == old(target).width,
            final(target).height == old(target).height,
            forall|px: int, py: int|
                #![trigger final(target).at(px, py)]
                old(target).inside(px, py) ==> final(target).at(px, py) == sheet_px(
                    self.sprites_spec(),
                    12,
                    365 + self.offset_spec().0,
                    122 + self.offset_spec().1,
                    false,
                    sheet_px(
                        self.sprites_spec(),
                        13,
                        442 + self.offset_spec().0,
                        148 + self.offset_spec().1,
                        false,
                        old(target).at(px, py),
                        px,
                        py,
                    ),
                    px,
                    py,
                ),
    {
        draw(target, &self.backgrnd, 13, 442 + self.dx, 148 + self.dy, false);
        draw(target, &self.backgrnd, 12, 365 + self.dx, 122 + self.dy, false);
    }

    /// Step the looping shore-wave animation (draws the next wave frame).
    pub fn animate_waves(&mut self)
        requires
            old(self).wf(),
        ensures
            final(self).wf(),
            final(self).waves() == next_waves(old(self).low_tide_spec(), old(self).waves().0, old(self).waves().1),
            final(self).background_spec().width == old(self).background_spec().width,
            final(self).background_spec().height == old(self).background_spec().height,
            final(self).holiday_spec() == old(self).holiday_spec(),
            final(self).offset_spec() == old(self).offset_spec(),
            final(self).low_tide_spec() == old(self).low_tide_spec(),
            final(self).sprites_spec() == old(self).sprites_spec(),
            forall|px: int, py: int|
                #![trigger final(self).background_spec().at(px, py)]
                old(self).background_spec().inside(px, py) ==> final(self).background_spec().at(px, py)
                    == wave_px(
                    old(self).low_tide_spec(),
                    old(self).waves(),
                    old(self).offset_spec(),
                    old(self).sprites_spec(),
                    old(self).background_spec().at(px, py),
                    px,
                    py,
                ),
    {
        let c1 = self.wave_c1 as usize;
        if self.low_tide {
            self.wave_c2 = (self.wave_c2 + 1) % 4;
            if self.wave_c2 == 0 {
                draw(&mut self.background, &self.backgrnd, 39 + c1, 129 + self.dx, 340 + self.dy, false);
            } else if self.wave_c2 == 1 {
                draw(&mut self.background, &self.backgrnd, 30 + c1, 233 + self.dx, 323 + self.dy, false);
            } else if self.wave_c2 == 2 {
                draw(&mut self.background, &self.backgrnd, 33 + c1, 367 + self.dx, 356 + self.dy, false);
            } else {
                draw(&mut self.background, &self.backgrnd, 36 + c1, 558 + self.dx, 323 + self.dy, false);
            }
        } else {
            self.wave_c2 = (self.wave_c2 + 1) % 3;
            if self.wave_c2 == 0 {
                draw(&mut self.background, &self.backgrnd, 3 + c1, 270 + self.dx, 306 + self.dy, false);
            } else if self.wave_c2 == 1 {
                draw(&mut self.background, &self.backgrnd, 6 + c1, 364 + self.dx, 319 + self.dy, false);
            } else {
                draw(&mut self.background, &self.backgrnd, 9 + c1, 518 + self.dx, 303 + self.dy, false);
            }
        }
        if self.wave_c2 == 0 {
            self.wave_c1 = (self.wave_c1 + 1) % 3;
        }
    }
}

/// The wave counters as one position in the combined cycle.
pub open spec fn wave_index(low_tide: bool, c1: i32, c2: i32) -> int {
    c1 * (if low_tide { 4int } else { 3int }) + c2
}

/// One step advances the combined cycle by one.
proof fn lemma_wave_step(low_tide: bool, c1: i32, c2: i32)
    requires
        0 <= c1 < 3,
        0 <= c2 < (if low_tide { 4int } else { 3int }),
    ensures
        ({
            let (a, b) = next_waves(low_tide, c1, c2);
            let m: int = if low_tide { 4 } else { 3 };
            &&& 0 <= a < 3
            &&& 0 <= b < m
            &&& wave_index(low_tide, a, b) == (wave_index(low_tide, c1, c2) + 1) % (3 * m)
        }),
{
    let m: int = if low_tide { 4 } else { 3 };
    let i0 = wave_index(low_tide, c1, c2);
    let (a, b) = next_waves(low_tide, c1, c2);
    assert(i0 == c1 * m + c2);
    if c2 + 1 < m {
        assert((c2 + 1) % m == c2 + 1);
        assert(b == c2 + 1 && a == c1);
        assert(a * m + b == i0 + 1);
        assert(c1 * m <= 2 * m) by (nonlinear_arith)
            requires
                0 <= c1 <= 2,
                m >= 3,
        ;
        assert(i0 + 1 < 3 * m);
        vstd::arithmetic::div_mod::lemma_small_mod((i0 + 1) as nat, (3 * m) as nat);
    } else {
        assert((c2 + 1) % m == 0);
        assert(b == 0);
        if c1 < 2 {
            assert(a == c1 + 1);
            assert(a * m + b == i0 + 1) by (nonlinear_arith)
                requires
                    a == c1 + 1,
                    b == 0,
                    i0 == c1 * m + c2,
                    c2 + 1 == m,
            ;
            assert(i0 + 1 < 3 * m) by (nonlinear_arith)
                requires
                    i0 == c1 * m + c2,
                    0 <= c1 < 2,
                    c2 + 1 == m,
                    m >= 3,
            ;
            vstd::arithmetic::div_mod::lemma_small_mod((i0 + 1) as nat, (3 * m) as nat);
        } else {
            assert(a == 0);
            assert(i0 + 1 == 3 * m);
            vstd::arithmetic::div_mod::lemma_mod_self_0(3 * m);
        }
    }
    assert(wave_index(low_tide, a, b) == a * m + b);
}

/// Counters in range give a position within the cycle.
proof fn lemma_index_range(low_tide: bool, c1: i32, c2: i32)
    requires
        0 <= c1 < 3,
        0 <= c2 < (if low_tide { 4int } else { 3int }),
    ensures
        0 <= wave_index(low_tide, c1, c2) < 3 * (if low_tide { 4int } else { 3int }),
{
    if low_tide {
        assert(wave_index(low_tide, c1, c2) == c1 * 4 + c2);
    } else {
        assert(wave_index(low_tide, c1, c2) == c1 * 3 + c2);
    }
}

/// `n` steps advance the combined cycle by `n`.
proof fn lemma_waves_after(low_tide: bool, c1: i32, c2: i32, n: nat)
    requires
        0 <= c1 < 3,
        0 <= c2 < (if low_tide { 4int } else { 3int }),
    ensures
        ({
            let (a, b) = waves_after(low_tide, c1, c2, n);
            let m: int = if low_tide { 4 } else { 3 };
            &&& 0 <= a < 3
            &&& 0 <= b < m
            &&& wave_index(low_tide, a, b) == (wave_index(low_tide, c1, c2) + n) % (3 * m)
        }),
    decreases n,
{
    lemma_index_range(low_tide, c1, c2);
    let mm: int = if low_tide { 4 } else { 3 };
    vstd::arithmetic::div_mod::lemma_small_mod(wave_index(low_tide, c1, c2) as nat, (3 * mm) as nat);
    if n > 0 {
        lemma_wave_step(low_tide, c1, c2);
        let (a, b) = next_waves(low_tide, c1, c2);
        lemma_waves_after(low_tide, a, b, (n - 1) as nat);
        let m: int = if low_tide { 4 } else { 3 };
        let i0 = wave_index(low_tide, c1, c2);
        assert(((i0 + 1) % (3 * m) + (n - 1)) % (3 * m) == (i0 + n) % (3 * m)) by {
            vstd::arithmetic::div_mod::lemma_add_mod_noop_right(n - 1, i0 + 1, 3 * m);
        }
    }
}

/// The wave animation is periodic: twelve steps at low tide, nine at high tide, bring
/// the counters back to where they were.
pub proof fn lemma_waves_cycle(low_tide: bool, c1: i32, c2: i32)
    requires
        0 <= c1 < 3,
        0 <= c2 < (if low_tide { 4int } else { 3int }),
    ensures
        waves_after(low_tide, c1, c2, if low_tide { 12nat } else { 9nat }) == (c1, c2),
{
    let n: nat = if low_tide { 12nat } else { 9nat };
    lemma_waves_after(low_tide, c1, c2, n);
    let (a, b) = waves_after(low_tide, c1, c2, n);
    let m: int = if low_tide { 4 } else { 3 };
    let i0 = wave_index(low_tide, c1, c2);
    lemma_index_range(low_tide, c1, c2);
    assert((i0 + n) % (3 * m) == i0) by {
        vstd::arithmetic::div_mod::lemma_mod_add_multiples_vanish(i0, 3 * m);
        vstd::arithmetic::div_mod::lemma_small_mod(i0 as nat, (3 * m) as nat);
    }
    lemma_unique_pair(low_tide, a, b, c1, c2);
}

/// Counters in range are determined by their combined position.
proof fn lemma_unique_pair(low_tide: bool, a: i32, b: i32, c1: i32, c2: i32)
    requires
        0 <= a < 3,
        0 <= c1 < 3,
        0 <= b < (if low_tide { 4int } else { 3int }),
        0 <= c2 < (if low_tide { 4int } else { 3int }),
        wave_index(low_tide, a, b) == wave_index(low_tide, c1, c2),
    ensures
        a == c1,
        b == c2,
{
    if low_tide {
        assert(wave_index(low_tide, c1, c2) == c1 * 4 + c2);
        assert(wave_index(low_tide, a, b) == a * 4 + b);
    } else {
        assert(wave_index(low_tide, c1, c2) == c1 * 3 + c2);
        assert(wave_index(low_tide, a, b) == a * 3 + b);
    }
}

/// The wave counters after `n` steps.
pub open spec fn waves_after(low_tide: bool, c1: i32, c2: i32, n: nat) -> (i32, i32)
    decreases n,
{
    if n == 0 {
        (c1, c2)
    } else {
        let (a, b) = next_waves(low_tide, c1, c2);
        waves_after(low_tide, a, b, (n - 1) as nat)
    }
}

} // verus!
