//! Nearest-neighbour, aspect-preserving scaling of an RGBA frame into a `0x00RRGGBB`
//! window buffer (with black letterbox bars), and the scaling and filtering options.
use vstd::prelude::*;
use vstd::string::StringSliceAdditionalSpecFns;
use crate::host::text::{eq_lower, lower_seq};
use crate::engine::surface::cell;

verus! {

/// How the frame is fitted into the window.
#[derive(Debug, Clone, Copy, PartialEq, Eq, Structural)]
pub enum ScaleMode {
    /// Largest aspect-preserving fit, letterboxed.
    Fit,
    /// Fill the window, ignoring the aspect ratio.
    Stretch,
    /// Largest whole-number multiple that fits.
    Integer,
    /// Fill a widescreen window by extending the scenery sideways.
    Extend,
}

/// How upscaled pixels are sampled.
#[derive(Debug, Clone, Copy, PartialEq, Eq, Structural)]
pub enum Filter {
    /// Crisp, retro pixels.
    Nearest,
    /// Smooth bilinear sampling (the default).
    Linear,
    /// Edge-directed "HD" upscaling that dissolves the dithering.
    Xbr,
    /// Edge-directed upscaling that keeps the dithering.
    Xbrz,
}

impl Default for Filter {
    fn default() -> (f: Self)
        ensures
            f == Filter::Linear,
    {
        Filter::Linear
    }
}

/// The scale mode a word names (any ASCII case).
pub open spec fn scale_word(s: Seq<u8>) -> Option<ScaleMode> {
    let l = lower_seq(s);
    if l == "fit".spec_bytes() {
        Some(ScaleMode::Fit)
    } else if l == "stretch".spec_bytes() {
        Some(ScaleMode::Stretch)
    } else if l == "integer".spec_bytes() {
        Some(ScaleMode::Integer)
    } else if l == "extend".spec_bytes() {
        Some(ScaleMode::Extend)
    } else {
        None
    }
}

/// The filter a word names (any ASCII case): `nearest` or `crisp`, `linear` or
/// `smooth`, `xbr`, `xbrz`.
pub open spec fn filter_word(s: Seq<u8>) -> Option<Filter> {
    let l = lower_seq(s);
    if l == "nearest".spec_bytes() || l == "crisp".spec_bytes() {
        Some(Filter::Nearest)
    } else if l == "linear".spec_bytes() || l == "smooth".spec_bytes() {
        Some(Filter::Linear)
    } else if l == "xbr".spec_bytes() {
        Some(Filter::Xbr)
    } else if l == "xbrz".spec_bytes() {
        Some(Filter::Xbrz)
    } else {
        None
    }
}

impl ScaleMode {
    /// Read a scale mode name.
    pub fn parse(s: &str) -> (r: Option<ScaleMode>)
        ensures
            r == scale_word(s.spec_bytes()),
    {
        Self::from_bytes(s.as_bytes())
    }

    /// Read a scale mode name given as bytes.
    pub fn from_bytes(b: &[u8]) -> (r: Option<ScaleMode>)
        ensures
            r == scale_word(b@),
    {
        if eq_lower(b, "fit".as_bytes()) {
            Some(ScaleMode::Fit)
        } else if eq_lower(b, "stretch".as_bytes()) {
            Some(ScaleMode::Stretch)
        } else if eq_lower(b, "integer".as_bytes()) {
            Some(ScaleMode::Integer)
        } else if eq_lower(b, "extend".as_bytes()) {
            Some(ScaleMode::Extend)
        } else {
            None
        }
    }

    /// The canonical name (read back by [`ScaleMode::parse`]).
    pub fn as_str(self) -> (s: &'static str)
        ensures
            self is Fit ==> s@ == "fit"@,
            self is Stretch ==> s@ == "stretch"@,
            self is Integer ==> s@ == "integer"@,
            self is Extend ==> s@ == "extend"@,
    {
        match self {
            ScaleMode::Fit => "fit",
            ScaleMode::Stretch => "stretch",
            ScaleMode::Integer => "integer",
            ScaleMode::Extend => "extend",
        }
    }
}

impl Filter {
    /// Read a filter name.
    pub fn parse(s: &str) -> (r: Option<Filter>)
        ensures
            r == filter_word(s.spec_bytes()),
    {
        Self::from_bytes(s.as_bytes())
    }

    /// Read a filter name given as bytes.
    pub fn from_bytes(b: &[u8]) -> (r: Option<Filter>)
        ensures
            r == filter_word(b@),
    {
        if eq_lower(b, "nearest".as_bytes()) || eq_lower(b, "crisp".as_bytes()) {
            Some(Filter::Nearest)
        } else if eq_lower(b, "linear".as_bytes()) || eq_lower(b, "smooth".as_bytes()) {
            Some(Filter::Linear)
        } else if eq_lower(b, "xbr".as_bytes()) {
            Some(Filter::Xbr)
        } else if eq_lower(b, "xbrz".as_bytes()) {
            Some(Filter::Xbrz)
        } else {
            None
        }
    }

    /// The canonical name (read back by [`Filter::parse`]).
    pub fn as_str(self) -> (s: &'static str)
        ensures
            self is Nearest ==> s@ == "nearest"@,
            self is Linear ==> s@ == "linear"@,
            self is Xbr ==> s@ == "xbr"@,
            self is Xbrz ==> s@ == "xbrz"@,
    {
        match self {
            Filter::Nearest => "nearest",
            Filter::Linear => "linear",
            Filter::Xbr => "xbr",
            Filter::Xbrz => "xbrz",
        }
    }
}

/// The `0x00RRGGBB` value of the RGBA pixel starting at byte `i`.
pub open spec fn argb_at(src: Seq<u8>, i: int) -> u32 {
    (src[i] * 65536 + src[i + 1] * 256 + src[i + 2]) as u32
}

/// The target rectangle `(tw, th, ox, oy)`: the largest centred rectangle of the
/// source's aspect ratio (at least one pixel each way).
pub open spec fn fit_rect(sw: int, sh: int, dw: int, dh: int) -> (int, int, int, int) {
    let (tw, th) = if dw * sh <= dh * sw {
        (dw, if dw * sh / sw >= 1 { dw * sh / sw } else { 1 })
    } else {
        (if dh * sw / sh >= 1 { dh * sw / sh } else { 1 }, dh)
    };
    (tw, th, (dw - tw) / 2, (dh - th) / 2)
}

/// The value the fit leaves at window pixel `(x, y)`: the nearest source pixel inside
/// the target rectangle, black outside it.
pub open spec fn fit_pixel(src: Seq<u8>, sw: int, sh: int, dw: int, dh: int, x: int, y: int) -> u32 {
    let (tw, th, ox, oy) = fit_rect(sw, sh, dw, dh);
    if ox <= x < ox + tw && oy <= y < oy + th {
        argb_at(src, (((y - oy) * sh / th) * sw + (x - ox) * sw / tw) * 4)
    } else {
        0
    }
}

fn argb(src: &[u8], si: usize) -> (v: u32)
    requires
        si + 2 < src@.len(),
    ensures
        v == argb_at(src@, si as int),
{
    src[si] as u32 * 65536 + src[si + 1] as u32 * 256 + src[si + 2] as u32
}

/// Scale `src` (RGBA8888, `sw`×`sh`) into `dst` (`0x00RRGGBB`, `dw`×`dh`) preserving
/// aspect ratio, centred, filling the remainder with black letterbox bars.
pub fn scale_rgba_to_argb_fit(src: &[u8], sw: usize, sh: usize, dst: &mut [u32], dw: usize, dh: usize)
    requires
        src@.len() >= 4 * sw * sh,
        old(dst)@.len() >= dw * dh,
        sw > 0 && sh > 0 && dw > 0 && dh > 0 ==> {
            let (tw, th, _ox, _oy) = fit_rect(sw as int, sh as int, dw as int, dh as int);
            &&& dw * sh <= usize::MAX
            &&& dh * sw <= usize::MAX
            &&& (th - 1) * sh <= usize::MAX
            &&& (tw - 1) * sw <= usize::MAX
        },
    ensures
        final(dst)@.len() == old(dst)@.len(),
        sw == 0 || sh == 0 || dw == 0 || dh == 0 ==> forall|i: int| 0 <= i < final(dst)@.len() ==> #[trigger] final(dst)@[i] == 0,
        sw > 0 && sh > 0 && dw > 0 && dh > 0 ==> {
            &&& forall|i: int| dw * dh <= i < final(dst)@.len() ==> #[trigger] final(dst)@[i] == 0
            &&& forall|x: int, y: int|
                #![trigger final(dst)@[cell(dw as int, x, y)]]
                0 <= x < dw && 0 <= y < dh ==> final(dst)@[cell(dw as int, x, y)] == fit_pixel(
                    src@,
                    sw as int,
                    sh as int,
                    dw as int,
                    dh as int,
                    x,
                    y,
                )
        },
{
    let n = dst.len();
    let mut i: usize = 0;
    while i < n
        invariant
            i <= n,
            n == dst@.len(),
            dst@.len() == old(dst)@.len(),
            forall|j: int| 0 <= j < i ==> #[trigger] dst@[j] == 0,
        decreases n - i,
    {
        dst[i] = 0;
        i = i + 1;
    }
    if sw == 0 || sh == 0 || dw == 0 || dh == 0 {
        return;
    }
    let dlen = dst.len();
    let (tw, th): (usize, usize) = if dw * sh <= dh * sw {
        let t = dw * sh / sw;
        (dw, if t >= 1 { t } else { 1 })
    } else {
        let t = dh * sw / sh;
        (if t >= 1 { t } else { 1 }, dh)
    };
    proof {
        if dw * sh <= dh * sw {
            assert(dw * sh / (sw as int) <= dh) by (nonlinear_arith)
                requires
                    dw * sh <= dh * sw,
                    sw > 0,
            ;
        } else {
            assert(dh * sw / (sh as int) <= dw) by (nonlinear_arith)
                requires
                    dh * sw < dw * sh,
                    sh > 0,
            ;
        }
    }
    let ox = (dw - tw) / 2;
    let oy = (dh - th) / 2;
    let slen = src.len();
    proof {
        assert forall|x: int, y: int|
            #![trigger dst@[cell(dw as int, x, y)]]
            0 <= x < dw && 0 <= y < dh implies dst@[cell(dw as int, x, y)] == 0 by {
            crate::engine::surface::lemma_cell(dw as int, dh as int, x, y);
        }
    }
    let ghost r = fit_rect(sw as int, sh as int, dw as int, dh as int);
    assert(r == (tw as int, th as int, ox as int, oy as int));
    let mut ty: usize = 0;
    while ty < th
        invariant
            1 <= tw <= dw,
            1 <= th <= dh,
            ox + tw <= dw,
            oy + th <= dh,
            r == (tw as int, th as int, ox as int, oy as int),
            r == fit_rect(sw as int, sh as int, dw as int, dh as int),
            (th - 1) * sh <= usize::MAX,
            (tw - 1) * sw <= usize::MAX,
            sw > 0 && sh > 0,
            src@.len() >= 4 * sw * sh,
            slen == src@.len(),
            dlen == dst@.len(),
            dst@.len() == old(dst)@.len(),
            dst@.len() >= dw * dh,
            ty <= th,
            forall|j: int| dw * dh <= j < dst@.len() ==> #[trigger] dst@[j] == 0,
            forall|x: int, y: int|
                #![trigger dst@[cell(dw as int, x, y)]]
                0 <= x < dw && 0 <= y < dh ==> dst@[cell(dw as int, x, y)] == if oy <= y < oy + ty {
                    fit_pixel(src@, sw as int, sh as int, dw as int, dh as int, x, y)
                } else {
                    0
                },
        decreases th - ty,
    {
        proof {
            assert(ty * sh / (th as int) < sh) by (nonlinear_arith)
                requires
                    ty < th,
                    th > 0,
                    sh > 0,
            ;
            assert((oy + ty) * dw + ox <= dh * dw) by (nonlinear_arith)
                requires
                    oy + ty < dh,
                    ox <= dw,
            ;
            assert(dh * dw == dw * dh) by (nonlinear_arith);
            assert(ty * sh <= (th - 1) * sh) by (nonlinear_arith)
                requires
                    ty <= th - 1,
                    sh >= 0,
            ;
        }
        let sy = ty * sh / th;
        let drow = (oy + ty) * dw + ox;
        proof {
            assert(sy * sw <= sh * sw) by (nonlinear_arith)
                requires
                    sy < sh,
                    sw >= 0,
            ;
            assert(sh * sw <= 4 * sw * sh) by (nonlinear_arith)
                requires
                    sh >= 0,
                    sw >= 0,
            ;
        }
        let srow = sy * sw;
        let mut tx: usize = 0;
        while tx < tw
            invariant
                1 <= tw <= dw,
                1 <= th <= dh,
                ox + tw <= dw,
                oy + th <= dh,
                r == (tw as int, th as int, ox as int, oy as int),
                r == fit_rect(sw as int, sh as int, dw as int, dh as int),
                (tw - 1) * sw <= usize::MAX,
                sw > 0 && sh > 0,
                src@.len() >= 4 * sw * sh,
                slen == src@.len(),
                dlen == dst@.len(),
                dst@.len() == old(dst)@.len(),
                dst@.len() >= dw * dh,
                ty < th,
                sy == ty * sh / (th as int),
                sy < sh,
                srow == sy * sw,
                drow == (oy + ty) * dw + ox,
                tx <= tw,
                forall|j: int| dw * dh <= j < dst@.len() ==> #[trigger] dst@[j] == 0,
                forall|x: int, y: int|
                    #![trigger dst@[cell(dw as int, x, y)]]
                    0 <= x < dw && 0 <= y < dh ==> dst@[cell(dw as int, x, y)] == if oy <= y < oy + ty
                        || (y == oy + ty && ox <= x < ox + tx) {
                        fit_pixel(src@, sw as int, sh as int, dw as int, dh as int, x, y)
                    } else {
                        0
                    },
            decreases tw - tx,
        {
            proof {
                assert(tx * sw / (tw as int) < sw) by (nonlinear_arith)
                    requires
                        tx < tw,
                        tw > 0,
                        sw > 0,
                ;
                assert(tx * sw <= (tw - 1) * sw) by (nonlinear_arith)
                    requires
                        tx <= tw - 1,
                        sw >= 0,
                ;
                assert((sy * sw + tx * sw / (tw as int)) * 4 + 2 < 4 * sw * sh) by (nonlinear_arith)
                    requires
                        sy < sh,
                        tx * sw / (tw as int) < sw,
                        tx * sw / (tw as int) >= 0,
                ;
                crate::engine::surface::lemma_cell(dw as int, dh as int, (ox + tx) as int, (oy + ty) as int);
                assert(drow + tx == cell(dw as int, (ox + tx) as int, (oy + ty) as int));
                assert(sw * sh <= 4 * sw * sh) by (nonlinear_arith)
                    requires
                        sh >= 0,
                        sw >= 0,
                ;
            }
            let si = (srow + tx * sw / tw) * 4;
            let v = argb(src, si);
            let ghost before = dst@;
            let at = drow + tx;
            assert(at == cell(dw as int, (ox + tx) as int, (oy + ty) as int));
            dst[at] = v;
            proof {
                assert forall|x: int, y: int|
                    #![trigger dst@[cell(dw as int, x, y)]]
                    0 <= x < dw && 0 <= y < dh implies dst@[cell(dw as int, x, y)] == if oy <= y < oy + ty
                        || (y == oy + ty && ox <= x < ox + tx + 1) {
                        fit_pixel(src@, sw as int, sh as int, dw as int, dh as int, x, y)
                    } else {
                        0
                    } by {
                    crate::engine::surface::lemma_cell(dw as int, dh as int, x, y);
                    if x != ox + tx || y != oy + ty {
                        assert(dst@[cell(dw as int, x, y)] == before[cell(dw as int, x, y)]);
                    }
                }
            }
            tx = tx + 1;
        }
        ty = ty + 1;
    }
}

} // verus!
