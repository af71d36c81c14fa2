//! **xBR (Hyllian, level 2)** edge-directed 2× upscaler for the indexed art once it has been
//! turned into RGBA, plus an optional dither smoother.
//!
//! [`xbr2x`] follows the xBR level-2 kernel of ffmpeg's `vf_xbr.c`: it detects edges in
//! Y'UV space, dissolves ordered dithering into solid colour and anti-aliases diagonal and
//! curved edges into smooth ramps, while flat areas and straight horizontal/vertical edges
//! stay crisp. [`dedither`] collapses dither checkerboards to their blended tone.
//!
//! The kernel is stated as spec functions over the source bytes ([`xbr_block`] gives the
//! four output texels of one source pixel), and both functions are proved to produce
//! exactly those bytes.
use vstd::prelude::*;
use crate::engine::surface::{cell, lemma_cell};

verus! {

/// An RGB colour.
#[derive(Clone, Copy, PartialEq, Eq, Structural)]
pub struct Rgb {
    pub r: u8,
    pub g: u8,
    pub b: u8,
}

/// `v` clamped into `0..n` (edge pixels are repeated past the border).
pub open spec fn clampi(v: int, n: int) -> int {
    if v < 0 {
        0
    } else if v >= n {
        n - 1
    } else {
        v
    }
}

/// Byte offset of the (clamped) source pixel `(x, y)` of a `w`×`h` RGBA image.
pub open spec fn pixel_offset(w: int, h: int, x: int, y: int) -> int {
    cell(w, clampi(x, w), clampi(y, h)) * 4
}

/// The colour of the (clamped) source pixel `(x, y)`.
pub open spec fn src_rgb(src: Seq<u8>, w: int, h: int, x: int, y: int) -> Rgb {
    let o = pixel_offset(w, h, x, y);
    Rgb { r: src[o], g: src[o + 1], b: src[o + 2] }
}

/// Integer division rounding toward zero.
pub open spec fn tdiv(n: int, d: int) -> int {
    if n >= 0 {
        n / d
    } else {
        -((-n) / d)
    }
}

/// BT.601 luma of a colour (integer).
pub open spec fn luma(c: Rgb) -> int {
    (299 * c.r + 587 * c.g + 114 * c.b) / 1000
}

/// BT.601 U (blue-difference) of a colour, offset by 128.
pub open spec fn chroma_u(c: Rgb) -> int {
    tdiv(-169 * c.r - 331 * c.g + 500 * c.b, 1000) + 128
}

/// BT.601 V (red-difference) of a colour, offset by 128.
pub open spec fn chroma_v(c: Rgb) -> int {
    tdiv(500 * c.r - 419 * c.g - 81 * c.b, 1000) + 128
}

pub open spec fn absi(v: int) -> int {
    if v < 0 {
        -v
    } else {
        v
    }
}

/// xBR's pixel difference: the sum of absolute Y'UV component differences.
#[verifier::opaque]
pub open spec fn df(a: Rgb, b: Rgb) -> int {
    absi(luma(a) - luma(b)) + absi(chroma_u(a) - chroma_u(b)) + absi(chroma_v(a) - chroma_v(b))
}

/// "Close enough to be the same colour" (threshold 155 in Y'UV units).
pub open spec fn close(a: Rgb, b: Rgb) -> bool {
    df(a, b) < 155
}

/// One channel moved from `a` toward `b` by `m/k` (rounding down).
pub open spec fn mix(a: u8, b: u8, m: int, k: int) -> u8 {
    (a + ((b - a) * m) / k) as u8
}

/// Colour `a` moved toward `b` by `m/k`.
pub open spec fn blend(a: Rgb, b: Rgb, m: int, k: int) -> Rgb {
    Rgb { r: mix(a.r, b.r, m, k), g: mix(a.g, b.g, m, k), b: mix(a.b, b.b, m, k) }
}

/// One corner of the xBR kernel (ffmpeg's `FILT2`): the four output texels `e`
/// (`[TL, TR, BL, BR]`) after rounding the corner between `pe` and its neighbours `ph`/`pf`.
/// `n1`, `n2`, `n3` are the texels this rotation may touch, `n3` the outer corner.
pub open spec fn filt2(
    e: Seq<Rgb>,
    pe: Rgb,
    pi: Rgb,
    ph: Rgb,
    pf: Rgb,
    pg: Rgb,
    pc: Rgb,
    pd: Rgb,
    pb: Rgb,
    f4: Rgb,
    i4: Rgb,
    h5: Rgb,
    i5: Rgb,
    n1: int,
    n2: int,
    n3: int,
) -> Seq<Rgb> {
    if pe == ph || pe == pf {
        e
    } else {
        let e_w = df(pe, pc) + df(pe, pg) + df(pi, h5) + df(pi, f4) + 4 * df(ph, pf);
        let i_w = df(ph, pd) + df(ph, i5) + df(pf, i4) + df(pf, pb) + 4 * df(pe, pi);
        if e_w > i_w {
            e
        } else {
            let px = if df(pe, pf) <= df(pe, ph) {
                pf
            } else {
                ph
            };
            let strong = e_w < i_w && ((!close(pf, pb) && !close(ph, pd)) || (close(pe, pi) && !close(
                pf,
                i4,
            ) && !close(ph, i5)) || close(pe, pg) || close(pe, pc));
            if !strong {
                e.update(n3, blend(e[n3], px, 1, 2))
            } else {
                let ke = df(pf, pg);
                let ki = df(ph, pc);
                let left = 2 * ke <= ki && pe != pg && pd != pg;
                let up = ke >= 2 * ki && pe != pc && pb != pc;
                if left && up {
                    let e1 = e.update(n3, blend(e[n3], px, 7, 8));
                    let e2 = e1.update(n2, blend(e1[n2], px, 1, 4));
                    e2.update(n1, e2[n2])
                } else if left {
                    let e1 = e.update(n3, blend(e[n3], px, 3, 4));
                    e1.update(n2, blend(e1[n2], px, 1, 4))
                } else if up {
                    let e1 = e.update(n3, blend(e[n3], px, 3, 4));
                    e1.update(n1, blend(e1[n1], px, 1, 4))
                } else {
                    e.update(n3, blend(e[n3], px, 1, 2))
                }
            }
        }
    }
}

/// The four output texels `[TL, TR, BL, BR]` of source pixel `(x, y)`: the centre colour,
/// with each of the four corners rounded by [`filt2`] over the rotated 5×5 neighbourhood.
#[verifier::opaque]
pub open spec fn xbr_block(src: Seq<u8>, w: int, h: int, x: int, y: int) -> Seq<Rgb> {
    let pe = src_rgb(src, w, h, x, y);
    let pb = src_rgb(src, w, h, x, y - 1);
    let pd = src_rgb(src, w, h, x - 1, y);
    let pf = src_rgb(src, w, h, x + 1, y);
    let ph = src_rgb(src, w, h, x, y + 1);
    let pa = src_rgb(src, w, h, x - 1, y - 1);
    let pc = src_rgb(src, w, h, x + 1, y - 1);
    let pg = src_rgb(src, w, h, x - 1, y + 1);
    let pi = src_rgb(src, w, h, x + 1, y + 1);
    let a0 = src_rgb(src, w, h, x - 2, y - 1);
    let a1 = src_rgb(src, w, h, x - 1, y - 2);
    let b1 = src_rgb(src, w, h, x, y - 2);
    let c1 = src_rgb(src, w, h, x + 1, y - 2);
    let c4 = src_rgb(src, w, h, x + 2, y - 1);
    let d0 = src_rgb(src, w, h, x - 2, y);
    let f4 = src_rgb(src, w, h, x + 2, y);
    let g0 = src_rgb(src, w, h, x - 2, y + 1);
    let g5 = src_rgb(src, w, h, x - 1, y + 2);
    let h5 = src_rgb(src, w, h, x, y + 2);
    let i4 = src_rgb(src, w, h, x + 2, y + 1);
    let i5 = src_rgb(src, w, h, x + 1, y + 2);
    let e0 = seq![pe, pe, pe, pe];
    let e1 = filt2(e0, pe, pi, ph, pf, pg, pc, pd, pb, f4, i4, h5, i5, 1, 2, 3);
    let e2 = filt2(e1, pe, pc, pf, pb, pi, pa, ph, pd, b1, c1, f4, c4, 0, 3, 1);
    let e3 = filt2(e2, pe, pa, pb, pd, pc, pg, pf, ph, d0, a0, b1, a1, 2, 1, 0);
    filt2(e3, pe, pg, pd, ph, pa, pi, pb, pf, h5, g5, d0, g0, 3, 0, 2)
}

/// Byte `ch` of output texel `(ox, oy)` when the 2×2 texels of its source pixel are `t`
/// (`[TL, TR, BL, BR]`): a colour channel of the texel, or 255 for alpha.
pub open spec fn texel_byte(t: Seq<Rgb>, ox: int, oy: int, ch: int) -> u8 {
    if ch == 3 {
        255
    } else {
        let c = t[(oy % 2) * 2 + ox % 2];
        if ch == 0 {
            c.r
        } else if ch == 1 {
            c.g
        } else {
            c.b
        }
    }
}

/// Byte `ch` of output texel `(ox, oy)` of the 2× image.
pub open spec fn xbr_byte(src: Seq<u8>, w: int, h: int, ox: int, oy: int, ch: int) -> u8 {
    texel_byte(xbr_block(src, w, h, ox / 2, oy / 2), ox, oy, ch)
}

/// A source pixel carried with its precomputed Y'UV.
#[derive(Clone, Copy)]
struct Px {
    c: Rgb,
    y: i32,
    u: i32,
    v: i32,
}

impl Px {
    spec fn wf(self) -> bool {
        &&& self.y == luma(self.c)
        &&& self.u == chroma_u(self.c)
        &&& self.v == chroma_v(self.c)
    }
}

/// The four output texels of one source pixel.
#[derive(Clone, Copy)]
struct Quad {
    tl: Rgb,
    tr: Rgb,
    bl: Rgb,
    br: Rgb,
}

impl Quad {
    spec fn texels(self) -> Seq<Rgb> {
        seq![self.tl, self.tr, self.bl, self.br]
    }

    fn get(&self, i: usize) -> (c: Rgb)
        requires
            i < 4,
        ensures
            c == self.texels()[i as int],
    {
        if i == 0 {
            self.tl
        } else if i == 1 {
            self.tr
        } else if i == 2 {
            self.bl
        } else {
            self.br
        }
    }

    fn with(self, i: usize, c: Rgb) -> (q: Quad)
        requires
            i < 4,
        ensures
            q.texels() == self.texels().update(i as int, c),
    {
        let mut q = self;
        if i == 0 {
            q.tl = c;
        } else if i == 1 {
            q.tr = c;
        } else if i == 2 {
            q.bl = c;
        } else {
            q.br = c;
        }
        proof {
            assert(q.texels() =~= self.texels().update(i as int, c));
        }
        q
    }
}

fn trunc_div_1000(n: i32) -> (q: i32)
    requires
        -200_000 <= n <= 200_000,
    ensures
        q == tdiv(n as int, 1000),
{
    if n >= 0 {
        n / 1000
    } else {
        -((-n) / 1000)
    }
}

fn to_px(c: Rgb) -> (p: Px)
    ensures
        p.c == c,
        p.wf(),
{
    let r = c.r as i32;
    let g = c.g as i32;
    let b = c.b as i32;
    let y = (299 * r + 587 * g + 114 * b) / 1000;
    let u = trunc_div_1000(-169 * r - 331 * g + 500 * b) + 128;
    let v = trunc_div_1000(500 * r - 419 * g - 81 * b) + 128;
    Px { c, y, u, v }
}

proof fn lemma_yuv_range(c: Rgb)
    ensures
        0 <= luma(c) <= 255,
        0 <= chroma_u(c) <= 256,
        0 <= chroma_v(c) <= 256,
{
}

fn abs_i32(v: i32) -> (a: i32)
    requires
        v > i32::MIN,
    ensures
        a == absi(v as int),
{
    if v < 0 {
        -v
    } else {
        v
    }
}

fn px_df(a: Px, b: Px) -> (d: i32)
    requires
        a.wf(),
        b.wf(),
    ensures
        d == df(a.c, b.c),
        0 <= d <= 800,
{
    proof {
        lemma_yuv_range(a.c);
        lemma_yuv_range(b.c);
        reveal(df);
    }
    abs_i32(a.y - b.y) + abs_i32(a.u - b.u) + abs_i32(a.v - b.v)
}

fn px_close(a: Px, b: Px) -> (r: bool)
    requires
        a.wf(),
        b.wf(),
    ensures
        r == close(a.c, b.c),
{
    px_df(a, b) < 155
}

/// `floor(d / k)` for the blend divisors, by shifting `d` to a non-negative value.
fn floor_div(d: i32, k: i32) -> (q: i32)
    requires
        -2048 <= d <= 2048,
        k == 2 || k == 4 || k == 8,
    ensures
        q == (d as int) / (k as int),
{
    (d + 2048) / k - 2048 / k
}

fn mix_ch(a: u8, b: u8, m: i32, k: i32) -> (c: u8)
    requires
        (m == 1 && k == 2) || (m == 1 && k == 4) || (m == 3 && k == 4) || (m == 7 && k == 8),
    ensures
        c == mix(a, b, m as int, k as int),
{
    let d = (b as i32 - a as i32) * m;
    let q = floor_div(d, k);
    (a as i32 + q) as u8
}

fn blend_rgb(a: Rgb, b: Rgb, m: i32, k: i32) -> (c: Rgb)
    requires
        (m == 1 && k == 2) || (m == 1 && k == 4) || (m == 3 && k == 4) || (m == 7 && k == 8),
    ensures
        c == blend(a, b, m as int, k as int),
{
    Rgb { r: mix_ch(a.r, b.r, m, k), g: mix_ch(a.g, b.g, m, k), b: mix_ch(a.b, b.b, m, k) }
}

/// One corner of the kernel; see [`filt2`].
fn filt2_quad(
    e: Quad,
    pe: Px,
    pi: Px,
    ph: Px,
    pf: Px,
    pg: Px,
    pc: Px,
    pd: Px,
    pb: Px,
    f4: Px,
    i4: Px,
    h5: Px,
    i5: Px,
    n1: usize,
    n2: usize,
    n3: usize,
) -> (r: Quad)
    requires
        pe.wf(),
        pi.wf(),
        ph.wf(),
        pf.wf(),
        pg.wf(),
        pc.wf(),
        pd.wf(),
        pb.wf(),
        f4.wf(),
        i4.wf(),
        h5.wf(),
        i5.wf(),
        n1 < 4,
        n2 < 4,
        n3 < 4,
    ensures
        r.texels() == filt2(
            e.texels(),
            pe.c,
            pi.c,
            ph.c,
            pf.c,
            pg.c,
            pc.c,
            pd.c,
            pb.c,
            f4.c,
            i4.c,
            h5.c,
            i5.c,
            n1 as int,
            n2 as int,
            n3 as int,
        ),
{
    proof {
        reveal(filt2);
    }
    if pe.c == ph.c || pe.c == pf.c {
        return e;
    }
    let e_w = px_df(pe, pc) + px_df(pe, pg) + px_df(pi, h5) + px_df(pi, f4) + 4 * px_df(ph, pf);
    let i_w = px_df(ph, pd) + px_df(ph, i5) + px_df(pf, i4) + px_df(pf, pb) + 4 * px_df(pe, pi);
    if e_w > i_w {
        return e;
    }
    let px = if px_df(pe, pf) <= px_df(pe, ph) {
        pf.c
    } else {
        ph.c
    };
    let strong = e_w < i_w && ((!px_close(pf, pb) && !px_close(ph, pd)) || (px_close(pe, pi)
        && !px_close(pf, i4) && !px_close(ph, i5)) || px_close(pe, pg) || px_close(pe, pc));
    if !strong {
        return e.with(n3, blend_rgb(e.get(n3), px, 1, 2));
    }
    let ke = px_df(pf, pg);
    let ki = px_df(ph, pc);
    let left = 2 * ke <= ki && pe.c != pg.c && pd.c != pg.c;
    let up = ke >= 2 * ki && pe.c != pc.c && pb.c != pc.c;
    if left && up {
        let e2 = e.with(n3, blend_rgb(e.get(n3), px, 7, 8));
        let e3 = e2.with(n2, blend_rgb(e2.get(n2), px, 1, 4));
        e3.with(n1, e3.get(n2))
    } else if left {
        let e2 = e.with(n3, blend_rgb(e.get(n3), px, 3, 4));
        e2.with(n2, blend_rgb(e2.get(n2), px, 1, 4))
    } else if up {
        let e2 = e.with(n3, blend_rgb(e.get(n3), px, 3, 4));
        e2.with(n1, blend_rgb(e2.get(n1), px, 1, 4))
    } else {
        e.with(n3, blend_rgb(e.get(n3), px, 1, 2))
    }
}

/// `v - 2` clamped into `0..n`.
fn clamp_shifted(v: usize, n: usize) -> (r: usize)
    requires
        n >= 1,
    ensures
        r == clampi(v - 2, n as int),
        r < n,
{
    if v < 2 {
        0
    } else if v - 2 >= n {
        n - 1
    } else {
        v - 2
    }
}

/// The colour of the `i`-th RGBA pixel of `src`.
pub open spec fn rgb_at(src: Seq<u8>, i: int) -> Rgb {
    Rgb { r: src[4 * i], g: src[4 * i + 1], b: src[4 * i + 2] }
}

/// Whether `pxs` holds, for each pixel of the `w`×`h` RGBA image `src`, its colour and Y'UV.
spec fn pixels_of(pxs: Seq<Px>, src: Seq<u8>, w: int, h: int) -> bool {
    &&& pxs.len() == w * h
    &&& forall|i: int|
        0 <= i < w * h ==> (#[trigger] pxs[i]).wf() && pxs[i].c == rgb_at(src, i)
}

/// The source pixel at `(xs - 2, ys - 2)`, clamped to the image.
fn fetch(src: &[u8], pxs: &Vec<Px>, w: usize, h: usize, xs: usize, ys: usize) -> (p: Px)
    requires
        w >= 1,
        h >= 1,
        src@.len() >= 4 * w * h,
        4 * w * h <= usize::MAX,
        pixels_of(pxs@, src@, w as int, h as int),
    ensures
        p.wf(),
        p.c == src_rgb(src@, w as int, h as int, xs - 2, ys - 2),
{
    let xc = clamp_shifted(xs, w);
    let yc = clamp_shifted(ys, h);
    proof {
        lemma_cell(w as int, h as int, xc as int, yc as int);
        assert(w * h <= 4 * w * h) by (nonlinear_arith);
        assert(yc * w <= yc * w + xc);
    }
    let i = yc * w + xc;
    pxs[i]
}

/// Write texel `(ox, oy)` of a `dw`×`dh` RGBA buffer as the opaque colour `c`.
fn put_texel(out: &mut Vec<u8>, dw: usize, dh: usize, ox: usize, oy: usize, c: Rgb)
    requires
        ox < dw,
        oy < dh,
        old(out)@.len() == dw * dh * 4,
        dw * dh * 4 <= usize::MAX,
    ensures
        final(out)@.len() == old(out)@.len(),
        final(out)@[cell(dw as int, ox as int, oy as int) * 4] == c.r,
        final(out)@[cell(dw as int, ox as int, oy as int) * 4 + 1] == c.g,
        final(out)@[cell(dw as int, ox as int, oy as int) * 4 + 2] == c.b,
        final(out)@[cell(dw as int, ox as int, oy as int) * 4 + 3] == 255,
        forall|i: int|
            0 <= i < old(out)@.len() && (i < cell(dw as int, ox as int, oy as int) * 4 || i >= cell(
                dw as int,
                ox as int,
                oy as int,
            ) * 4 + 4) ==> #[trigger] final(out)@[i] == old(out)@[i],
{
    proof {
        lemma_cell(dw as int, dh as int, ox as int, oy as int);
        assert(oy * dw <= oy * dw + ox);
    }
    let o = (oy * dw + ox) * 4;
    out[o] = c.r;
    out[o + 1] = c.g;
    out[o + 2] = c.b;
    out[o + 3] = 255;
}

/// Write the four texels `q` of source pixel `(x, y)` into the `2w`×`2h` output.
fn put_block(out: &mut Vec<u8>, w: usize, h: usize, x: usize, y: usize, q: Quad)
    requires
        x < w,
        y < h,
        old(out)@.len() == (2 * w) * (2 * h) * 4,
        (2 * w) * (2 * h) * 4 <= usize::MAX,
    ensures
        final(out)@.len() == old(out)@.len(),
        forall|ox: int, oy: int, ch: int|
            0 <= ox < 2 * w && 0 <= oy < 2 * h && 0 <= ch < 4 ==> #[trigger] final(out)@[cell(
                2 * w as int,
                ox,
                oy,
            ) * 4 + ch] == if ox / 2 == x && oy / 2 == y {
                texel_byte(q.texels(), ox, oy, ch)
            } else {
                old(out)@[cell(2 * w as int, ox, oy) * 4 + ch]
            },
{
    let ghost orig = out@;
    proof {
        assert(2 * w <= (2 * w) * (2 * h) * 4) by (nonlinear_arith)
            requires
                h >= 1,
        ;
        assert(2 * h <= (2 * w) * (2 * h) * 4) by (nonlinear_arith)
            requires
                w >= 1,
        ;
    }
    let dw = 2 * w;
    let dh = 2 * h;
    put_texel(out, dw, dh, 2 * x, 2 * y, q.tl);
    put_texel(out, dw, dh, 2 * x + 1, 2 * y, q.tr);
    put_texel(out, dw, dh, 2 * x, 2 * y + 1, q.bl);
    put_texel(out, dw, dh, 2 * x + 1, 2 * y + 1, q.br);
    proof {
        let dwi = dw as int;
        let dhi = dh as int;
        let x0 = 2 * x as int;
        let y0 = 2 * y as int;
        lemma_cell(dwi, dhi, x0, y0);
        lemma_cell(dwi, dhi, x0 + 1, y0);
        lemma_cell(dwi, dhi, x0, y0 + 1);
        lemma_cell(dwi, dhi, x0 + 1, y0 + 1);
        assert forall|ox: int, oy: int, ch: int|
            0 <= ox < 2 * w && 0 <= oy < 2 * h && 0 <= ch < 4 implies #[trigger] out@[cell(
                2 * w as int,
                ox,
                oy,
            ) * 4 + ch] == if ox / 2 == x && oy / 2 == y {
                texel_byte(q.texels(), ox, oy, ch)
            } else {
                orig[cell(2 * w as int, ox, oy) * 4 + ch]
            } by {
            lemma_cell(dwi, dhi, ox, oy);
            if ox / 2 == x && oy / 2 == y {
                assert(ox == x0 || ox == x0 + 1);
                assert(oy == y0 || oy == y0 + 1);
            } else {
                assert(ox != x0 || oy != y0);
                assert(ox != x0 + 1 || oy != y0);
                assert(ox != x0 || oy != y0 + 1);
                assert(ox != x0 + 1 || oy != y0 + 1);
            }
        }
    }
}

/// The four output texels of source pixel `(x, y)`.
fn block_at(src: &[u8], pxs: &Vec<Px>, w: usize, h: usize, x: usize, y: usize) -> (q: Quad)
    requires
        x < w,
        y < h,
        w + 4 <= usize::MAX,
        h + 4 <= usize::MAX,
        src@.len() >= 4 * w * h,
        4 * w * h <= usize::MAX,
        pixels_of(pxs@, src@, w as int, h as int),
    ensures
        q.texels() == xbr_block(src@, w as int, h as int, x as int, y as int),
{
    let xs = x + 2;
    let ys = y + 2;
    let pe = fetch(src, pxs, w, h, xs, ys);
    let pb = fetch(src, pxs, w, h, xs, ys - 1);
    let pd = fetch(src, pxs, w, h, xs - 1, ys);
    let pf = fetch(src, pxs, w, h, xs + 1, ys);
    let ph = fetch(src, pxs, w, h, xs, ys + 1);
    let pa = fetch(src, pxs, w, h, xs - 1, ys - 1);
    let pc = fetch(src, pxs, w, h, xs + 1, ys - 1);
    let pg = fetch(src, pxs, w, h, xs - 1, ys + 1);
    let pi = fetch(src, pxs, w, h, xs + 1, ys + 1);
    let a0 = fetch(src, pxs, w, h, xs - 2, ys - 1);
    let a1 = fetch(src, pxs, w, h, xs - 1, ys - 2);
    let b1 = fetch(src, pxs, w, h, xs, ys - 2);
    let c1 = fetch(src, pxs, w, h, xs + 1, ys - 2);
    let c4 = fetch(src, pxs, w, h, xs + 2, ys - 1);
    let d0 = fetch(src, pxs, w, h, xs - 2, ys);
    let f4 = fetch(src, pxs, w, h, xs + 2, ys);
    let g0 = fetch(src, pxs, w, h, xs - 2, ys + 1);
    let g5 = fetch(src, pxs, w, h, xs - 1, ys + 2);
    let h5 = fetch(src, pxs, w, h, xs, ys + 2);
    let i4 = fetch(src, pxs, w, h, xs + 2, ys + 1);
    let i5 = fetch(src, pxs, w, h, xs + 1, ys + 2);
    let e0 = Quad { tl: pe.c, tr: pe.c, bl: pe.c, br: pe.c };
    let e1 = filt2_quad(e0, pe, pi, ph, pf, pg, pc, pd, pb, f4, i4, h5, i5, 1, 2, 3);
    let e2 = filt2_quad(e1, pe, pc, pf, pb, pi, pa, ph, pd, b1, c1, f4, c4, 0, 3, 1);
    let e3 = filt2_quad(e2, pe, pa, pb, pd, pc, pg, pf, ph, d0, a0, b1, a1, 2, 1, 0);
    let e4 = filt2_quad(e3, pe, pg, pd, ph, pa, pi, pb, pf, h5, g5, d0, g0, 3, 0, 2);
    proof {
        reveal(xbr_block);
    }
    e4
}

/// Upscale an RGBA image by 2× with xBR (level 2). Returns the `2w`×`2h` RGBA buffer, every
/// texel fully opaque; `src` holds at least `w*h*4` bytes.
pub fn xbr2x(src: &[u8], w: usize, h: usize) -> (out: Vec<u8>)
    requires
        src@.len() >= 4 * w * h,
        16 * w * h <= usize::MAX,
    ensures
        out@.len() == 16 * w * h,
        forall|ox: int, oy: int, ch: int|
            0 <= ox < 2 * w && 0 <= oy < 2 * h && 0 <= ch < 4 ==> #[trigger] out@[cell(
                2 * w as int,
                ox,
                oy,
            ) * 4 + ch] == xbr_byte(src@, w as int, h as int, ox, oy, ch),
        forall|ox: int, oy: int|
            0 <= ox < 2 * w && 0 <= oy < 2 * h ==> #[trigger] out@[cell(2 * w as int, ox, oy) * 4 + 3]
                == 255,
        (forall|x: int, y: int|
            0 <= x < w && 0 <= y < h ==> #[trigger] rgb_at(src@, cell(w as int, x, y)) == rgb_at(
                src@,
                cell(w as int, x, 0),
            )) ==> forall|ox: int, oy: int|
            0 <= ox < 2 * w && 0 <= oy < 2 * h ==> #[trigger] rgb_at(out@, cell(2 * w as int, ox, oy))
                == rgb_at(src@, cell(w as int, ox / 2, 0)),
{
    if w == 0 || h == 0 {
        proof {
            assert(16 * w * h == 0) by (nonlinear_arith)
                requires
                    w == 0 || h == 0,
            ;
        }
        return Vec::new();
    }
    proof {
        assert((2 * w) * (2 * h) * 4 == 16 * w * h) by (nonlinear_arith);
        assert(w * h <= 16 * w * h) by (nonlinear_arith);
        assert(4 * w * h <= 16 * w * h) by (nonlinear_arith);
        assert(4 * (w * h) == 4 * w * h) by (nonlinear_arith);
        assert(w + 4 <= 16 * w * h) by (nonlinear_arith)
            requires
                h >= 1,
                w >= 1,
        ;
        assert(h + 4 <= 16 * w * h) by (nonlinear_arith)
            requires
                h >= 1,
                w >= 1,
        ;
        assert(2 * w + 2 * h <= 16 * w * h) by (nonlinear_arith)
            requires
                h >= 1,
                w >= 1,
        ;
    }
    let dw = 2 * w;
    let dh = 2 * h;
    let total = dw * dh * 4;
    let mut out: Vec<u8> = vec![0u8; total];
    let n = w * h;
    let mut pxs: Vec<Px> = Vec::new();
    let mut i: usize = 0;
    while i < n
        invariant
            n == w * h,
            4 * n <= src@.len(),
            4 * n <= usize::MAX,
            i <= n,
            pxs@.len() == i,
            forall|j: int|
                0 <= j < i ==> (#[trigger] pxs@[j]).wf() && pxs@[j].c == rgb_at(src@, j),
        decreases n - i,
    {
        let o = 4 * i;
        let p = to_px(Rgb { r: src[o], g: src[o + 1], b: src[o + 2] });
        pxs.push(p);
        i = i + 1;
    }
    let mut y: usize = 0;
    while y < h
        invariant
            w >= 1,
            h >= 1,
            y <= h,
            w + 4 <= usize::MAX,
            h + 4 <= usize::MAX,
            src@.len() >= 4 * w * h,
            4 * w * h <= usize::MAX,
            (2 * w) * (2 * h) * 4 <= usize::MAX,
            pixels_of(pxs@, src@, w as int, h as int),
            out@.len() == (2 * w) * (2 * h) * 4,
            forall|ox: int, oy: int, ch: int|
                0 <= ox < 2 * w && 0 <= oy < 2 * h && 0 <= ch < 4 && oy / 2 < y ==> #[trigger] out@[cell(
                    2 * w as int,
                    ox,
                    oy,
                ) * 4 + ch] == xbr_byte(src@, w as int, h as int, ox, oy, ch),
        decreases h - y,
    {
        let mut x: usize = 0;
        while x < w
            invariant
                w >= 1,
                h >= 1,
                y < h,
                x <= w,
                w + 4 <= usize::MAX,
                h + 4 <= usize::MAX,
                src@.len() >= 4 * w * h,
                4 * w * h <= usize::MAX,
                (2 * w) * (2 * h) * 4 <= usize::MAX,
                pixels_of(pxs@, src@, w as int, h as int),
                out@.len() == (2 * w) * (2 * h) * 4,
                forall|ox: int, oy: int, ch: int|
                    0 <= ox < 2 * w && 0 <= oy < 2 * h && 0 <= ch < 4 && (oy / 2 < y || (oy / 2 == y
                        && ox / 2 < x)) ==> #[trigger] out@[cell(2 * w as int, ox, oy) * 4 + ch]
                        == xbr_byte(src@, w as int, h as int, ox, oy, ch),
            decreases w - x,
        {
            let e4 = block_at(src, &pxs, w, h, x, y);
            let ghost before = out@;
            put_block(&mut out, w, h, x, y, e4);
            proof {
                assert forall|ox: int, oy: int, ch: int|
                    0 <= ox < 2 * w && 0 <= oy < 2 * h && 0 <= ch < 4 && (oy / 2 < y || (oy / 2 == y
                        && ox / 2 < x + 1)) implies #[trigger] out@[cell(2 * w as int, ox, oy) * 4 + ch]
                        == xbr_byte(src@, w as int, h as int, ox, oy, ch) by {
                    if ox / 2 == x && oy / 2 == y {
                    } else {
                        assert(out@[cell(2 * w as int, ox, oy) * 4 + ch] == before[cell(2 * w as int, ox, oy) * 4 + ch]);
                    }
                }
            }
            x = x + 1;
        }
        y = y + 1;
    }
    proof {
        assert((2 * w) * (2 * h) * 4 == 16 * w * h) by (nonlinear_arith);
        if forall|x: int, y: int|
            0 <= x < w && 0 <= y < h ==> #[trigger] rgb_at(src@, cell(w as int, x, y)) == rgb_at(
                src@,
                cell(w as int, x, 0),
            ) {
            assert forall|ox: int, oy: int|
                0 <= ox < 2 * w && 0 <= oy < 2 * h implies #[trigger] rgb_at(out@, cell(2 * w as int, ox, oy))
                    == rgb_at(src@, cell(w as int, ox / 2, 0)) by {
                lemma_xbr_column_image(src@, w as int, h as int, ox, oy);
                let c = cell(2 * w as int, ox, oy);
                assert(out@[c * 4 + 0] == xbr_byte(src@, w as int, h as int, ox, oy, 0));
                assert(out@[c * 4 + 1] == xbr_byte(src@, w as int, h as int, ox, oy, 1));
                assert(out@[c * 4 + 2] == xbr_byte(src@, w as int, h as int, ox, oy, 2));
                assert(4 * c == c * 4 + 0);
            }
        }
    }
    out
}

/// A pixel whose four corners each have an orthogonal neighbour of exactly its colour
/// (`PH` or `PF`, `PF` or `PB`, `PB` or `PD`, `PD` or `PH`) keeps that colour in all four
/// output texels: xBR only rounds corners, so flat areas and straight horizontal or
/// vertical edges stay hard.
pub proof fn lemma_xbr_keeps_uncornered_pixels(src: Seq<u8>, w: int, h: int, x: int, y: int)
    requires
        ({
            let pe = src_rgb(src, w, h, x, y);
            let pb = src_rgb(src, w, h, x, y - 1);
            let pd = src_rgb(src, w, h, x - 1, y);
            let pf = src_rgb(src, w, h, x + 1, y);
            let ph = src_rgb(src, w, h, x, y + 1);
            &&& pe == ph || pe == pf
            &&& pe == pf || pe == pb
            &&& pe == pb || pe == pd
            &&& pe == pd || pe == ph
        }),
    ensures
        xbr_block(src, w, h, x, y) == seq![
            src_rgb(src, w, h, x, y),
            src_rgb(src, w, h, x, y),
            src_rgb(src, w, h, x, y),
            src_rgb(src, w, h, x, y),
        ],
{
    reveal(xbr_block);
}

/// A flat image (every pixel the same colour `c`) is upscaled to the same flat colour.
pub proof fn lemma_xbr_flat_image(src: Seq<u8>, w: int, h: int, c: Rgb, ox: int, oy: int)
    requires
        w >= 1,
        h >= 1,
        src.len() >= 4 * w * h,
        forall|x: int, y: int| 0 <= x < w && 0 <= y < h ==> #[trigger] rgb_at(src, cell(w, x, y)) == c,
        0 <= ox < 2 * w,
        0 <= oy < 2 * h,
    ensures
        xbr_byte(src, w, h, ox, oy, 0) == c.r,
        xbr_byte(src, w, h, ox, oy, 1) == c.g,
        xbr_byte(src, w, h, ox, oy, 2) == c.b,
{
    let x = ox / 2;
    let y = oy / 2;
    assert forall|dx: int, dy: int| #[trigger] src_rgb(src, w, h, dx, dy) == c by {
        let cx = clampi(dx, w);
        let cy = clampi(dy, h);
        assert(rgb_at(src, cell(w, cx, cy)) == c);
        assert(cell(w, cx, cy) * 4 == 4 * cell(w, cx, cy));
    }
    assert(src_rgb(src, w, h, x, y) == c);
    assert(src_rgb(src, w, h, x, y + 1) == c);
    assert(src_rgb(src, w, h, x + 1, y) == c);
    assert(src_rgb(src, w, h, x, y - 1) == c);
    assert(src_rgb(src, w, h, x - 1, y) == c);
    lemma_xbr_keeps_uncornered_pixels(src, w, h, x, y);
}

/// An image whose every column is one colour (such as a straight vertical edge) is
/// upscaled without blending: each output texel has its source pixel's colour.
pub proof fn lemma_xbr_column_image(src: Seq<u8>, w: int, h: int, ox: int, oy: int)
    requires
        w >= 1,
        h >= 1,
        src.len() >= 4 * w * h,
        forall|x: int, y: int|
            0 <= x < w && 0 <= y < h ==> #[trigger] rgb_at(src, cell(w, x, y)) == rgb_at(src, cell(w, x, 0)),
        0 <= ox < 2 * w,
        0 <= oy < 2 * h,
    ensures
        xbr_byte(src, w, h, ox, oy, 0) == rgb_at(src, cell(w, ox / 2, 0)).r,
        xbr_byte(src, w, h, ox, oy, 1) == rgb_at(src, cell(w, ox / 2, 0)).g,
        xbr_byte(src, w, h, ox, oy, 2) == rgb_at(src, cell(w, ox / 2, 0)).b,
{
    let x = ox / 2;
    let y = oy / 2;
    assert forall|dx: int, dy: int|
        #[trigger] src_rgb(src, w, h, dx, dy) == rgb_at(src, cell(w, clampi(dx, w), 0)) by {
        let cx = clampi(dx, w);
        let cy = clampi(dy, h);
        assert(rgb_at(src, cell(w, cx, cy)) == rgb_at(src, cell(w, cx, 0)));
        assert(cell(w, cx, cy) * 4 == 4 * cell(w, cx, cy));
    }
    assert(src_rgb(src, w, h, x, y) == src_rgb(src, w, h, x, y + 1));
    assert(src_rgb(src, w, h, x, y) == src_rgb(src, w, h, x, y - 1));
    lemma_xbr_keeps_uncornered_pixels(src, w, h, x, y);
}

/// An image split into two colours `a` (left half) and `b` (right half) keeps a hard
/// edge: every output texel is exactly `a` or `b`, and opaque; no blended colour appears.
pub proof fn lemma_xbr_two_colour_edge(src: Seq<u8>, w: int, h: int, a: Rgb, b: Rgb, ox: int, oy: int)
    requires
        w >= 1,
        h >= 1,
        src.len() >= 4 * w * h,
        forall|x: int, y: int|
            0 <= x < w && 0 <= y < h ==> #[trigger] rgb_at(src, cell(w, x, y)) == if x < w / 2 {
                a
            } else {
                b
            },
        0 <= ox < 2 * w,
        0 <= oy < 2 * h,
    ensures
        ({
            let t = Rgb {
                r: xbr_byte(src, w, h, ox, oy, 0),
                g: xbr_byte(src, w, h, ox, oy, 1),
                b: xbr_byte(src, w, h, ox, oy, 2),
            };
            t == a || t == b
        }),
        xbr_byte(src, w, h, ox, oy, 3) == 255,
{
    assert forall|x: int, y: int|
        0 <= x < w && 0 <= y < h implies #[trigger] rgb_at(src, cell(w, x, y)) == rgb_at(src, cell(w, x, 0)) by {
        assert(rgb_at(src, cell(w, x, 0)) == if x < w / 2 { a } else { b });
    }
    lemma_xbr_column_image(src, w, h, ox, oy);
    assert(rgb_at(src, cell(w, ox / 2, 0)) == if ox / 2 < w / 2 { a } else { b });
}

/// Two pixels count as "the same colour" for [`dedither`] within this squared distance.
pub const TONE_TOLERANCE: i32 = 12_000;

/// Squared, luma-weighted RGB distance between the pixels at byte offsets `i` and `j`.
pub open spec fn tone_dist(src: Seq<u8>, i: int, j: int) -> int {
    let dr = src[i] - src[j];
    let dg = src[i + 1] - src[j + 1];
    let db = src[i + 2] - src[j + 2];
    2 * (dr * dr) + 4 * (dg * dg) + 3 * (db * db)
}

pub open spec fn same_tone(src: Seq<u8>, i: int, j: int) -> bool {
    tone_dist(src, i, j) <= TONE_TOLERANCE
}

/// Whether pixel `(x, y)` sits in a dither checkerboard: its four diagonal neighbours match
/// it, and its four orthogonal neighbours are one uniform, different colour.
pub open spec fn is_dither_cell(src: Seq<u8>, w: int, h: int, x: int, y: int) -> bool {
    let c = pixel_offset(w, h, x, y);
    let up = pixel_offset(w, h, x, y - 1);
    let dn = pixel_offset(w, h, x, y + 1);
    let lf = pixel_offset(w, h, x - 1, y);
    let rt = pixel_offset(w, h, x + 1, y);
    let ul = pixel_offset(w, h, x - 1, y - 1);
    let ur = pixel_offset(w, h, x + 1, y - 1);
    let dl = pixel_offset(w, h, x - 1, y + 1);
    let dr = pixel_offset(w, h, x + 1, y + 1);
    &&& same_tone(src, c, ul) && same_tone(src, c, ur) && same_tone(src, c, dl) && same_tone(src, c, dr)
    &&& same_tone(src, up, dn) && same_tone(src, up, lf) && same_tone(src, up, rt)
    &&& !same_tone(src, c, up)
}

/// Byte `ch` of pixel `(x, y)` after de-dithering: a checkerboard pixel's colour becomes
/// the average of its own and its upper neighbour's; everything else is kept.
pub open spec fn dedithered(src: Seq<u8>, w: int, h: int, x: int, y: int, ch: int) -> u8 {
    let c = pixel_offset(w, h, x, y);
    if ch < 3 && is_dither_cell(src, w, h, x, y) {
        ((src[c + ch] + src[pixel_offset(w, h, x, y - 1) + ch]) / 2) as u8
    } else {
        src[c + ch]
    }
}

/// Byte offset of pixel `(xs - 2, ys - 2)`, clamped to the image.
fn offset_of(w: usize, h: usize, xs: usize, ys: usize) -> (o: usize)
    requires
        w >= 1,
        h >= 1,
        4 * w * h <= usize::MAX,
    ensures
        o == pixel_offset(w as int, h as int, xs - 2, ys - 2),
        o + 4 <= 4 * w * h,
{
    let xc = clamp_shifted(xs, w);
    let yc = clamp_shifted(ys, h);
    proof {
        lemma_cell(w as int, h as int, xc as int, yc as int);
        assert(4 * (w * h) == 4 * w * h) by (nonlinear_arith);
        assert(yc * w <= yc * w + xc);
    }
    (yc * w + xc) * 4
}

fn tone_dist_at(src: &[u8], i: usize, j: usize) -> (d: i32)
    requires
        i + 3 <= src@.len(),
        j + 3 <= src@.len(),
    ensures
        d == tone_dist(src@, i as int, j as int),
{
    let dr = src[i] as i32 - src[j] as i32;
    let dg = src[i + 1] as i32 - src[j + 1] as i32;
    let db = src[i + 2] as i32 - src[j + 2] as i32;
    proof {
        assert(0 <= dr * dr <= 65025) by (nonlinear_arith)
            requires
                -255 <= dr <= 255,
        ;
        assert(0 <= dg * dg <= 65025) by (nonlinear_arith)
            requires
                -255 <= dg <= 255,
        ;
        assert(0 <= db * db <= 65025) by (nonlinear_arith)
            requires
                -255 <= db <= 255,
        ;
    }
    2 * (dr * dr) + 4 * (dg * dg) + 3 * (db * db)
}

fn same_tone_at(src: &[u8], i: usize, j: usize) -> (r: bool)
    requires
        i + 3 <= src@.len(),
        j + 3 <= src@.len(),
    ensures
        r == same_tone(src@, i as int, j as int),
{
    tone_dist_at(src, i, j) <= TONE_TOLERANCE
}

/// Whether pixel `(x, y)` is part of a dither checkerboard; see [`is_dither_cell`].
fn dither_cell_at(src: &[u8], w: usize, h: usize, x: usize, y: usize) -> (r: bool)
    requires
        x < w,
        y < h,
        4 * w * h <= usize::MAX,
        src@.len() >= 4 * w * h,
        w + 3 <= usize::MAX,
        h + 3 <= usize::MAX,
    ensures
        r == is_dither_cell(src@, w as int, h as int, x as int, y as int),
{
    let xs = x + 2;
    let ys = y + 2;
    let c = offset_of(w, h, xs, ys);
    let up = offset_of(w, h, xs, ys - 1);
    let dn = offset_of(w, h, xs, ys + 1);
    let lf = offset_of(w, h, xs - 1, ys);
    let rt = offset_of(w, h, xs + 1, ys);
    let ul = offset_of(w, h, xs - 1, ys - 1);
    let ur = offset_of(w, h, xs + 1, ys - 1);
    let dl = offset_of(w, h, xs - 1, ys + 1);
    let dr = offset_of(w, h, xs + 1, ys + 1);
    let diagonals_match = same_tone_at(src, c, ul) && same_tone_at(src, c, ur) && same_tone_at(src, c, dl)
        && same_tone_at(src, c, dr);
    let orthogonals_uniform = same_tone_at(src, up, dn) && same_tone_at(src, up, lf) && same_tone_at(
        src,
        up,
        rt,
    );
    diagonals_match && orthogonals_uniform && !same_tone_at(src, c, up)
}

/// "De-dither": collapse ordered-dither checkerboards to their intended blended tone,
/// leaving everything else untouched. Returns a new buffer of `src`'s length; the first
/// `w*h*4` bytes are the `w`×`h` RGBA image.
///
/// A pixel is part of a checkerboard when its four diagonal neighbours match it and its
/// four orthogonal neighbours are a single, different colour; it is then replaced by the
/// average of the two shades, so dither melts into a smooth tone while sprites and
/// outlines stay crisp.
pub fn dedither(src: &[u8], w: usize, h: usize) -> (out: Vec<u8>)
    requires
        src@.len() >= 4 * w * h,
    ensures
        out@.len() == src@.len(),
        forall|i: int| 4 * w * h <= i < src@.len() ==> #[trigger] out@[i] == src@[i],
        forall|x: int, y: int, ch: int|
            0 <= x < w && 0 <= y < h && 0 <= ch < 4 ==> #[trigger] out@[cell(w as int, x, y) * 4 + ch]
                == dedithered(src@, w as int, h as int, x, y, ch),
{
    let mut out = vstd::slice::slice_to_vec(src);
    if w == 0 || h == 0 {
        return out;
    }
    let len = src.len();
    proof {
        assert(4 * w * h <= usize::MAX);
        assert(w + 3 <= 4 * w * h) by (nonlinear_arith)
            requires
                w >= 1,
                h >= 1,
        ;
        assert(h + 3 <= 4 * w * h) by (nonlinear_arith)
            requires
                w >= 1,
                h >= 1,
        ;
    }
    let mut y: usize = 0;
    while y < h
        invariant
            w >= 1,
            h >= 1,
            y <= h,
            4 * w * h <= usize::MAX,
            src@.len() >= 4 * w * h,
            w + 3 <= usize::MAX,
            h + 3 <= usize::MAX,
            out@.len() == src@.len(),
            forall|i: int| 4 * w * h <= i < src@.len() ==> #[trigger] out@[i] == src@[i],
            forall|px: int, py: int, ch: int|
                0 <= px < w && 0 <= py < h && 0 <= ch < 4 ==> #[trigger] out@[cell(w as int, px, py) * 4
                    + ch] == if py < y {
                    dedithered(src@, w as int, h as int, px, py, ch)
                } else {
                    src@[cell(w as int, px, py) * 4 + ch]
                },
        decreases h - y,
    {
        let mut x: usize = 0;
        while x < w
            invariant
                w >= 1,
                h >= 1,
                y < h,
                x <= w,
                4 * w * h <= usize::MAX,
                src@.len() >= 4 * w * h,
                w + 3 <= usize::MAX,
                h + 3 <= usize::MAX,
                out@.len() == src@.len(),
                forall|i: int| 4 * w * h <= i < src@.len() ==> #[trigger] out@[i] == src@[i],
                forall|px: int, py: int, ch: int|
                    0 <= px < w && 0 <= py < h && 0 <= ch < 4 ==> #[trigger] out@[cell(w as int, px, py)
                        * 4 + ch] == if py < y || (py == y && px < x) {
                        dedithered(src@, w as int, h as int, px, py, ch)
                    } else {
                        src@[cell(w as int, px, py) * 4 + ch]
                    },
            decreases w - x,
        {
            let ghost before = out@;
            let c = offset_of(w, h, x + 2, y + 2);
            proof {
                lemma_cell(w as int, h as int, x as int, y as int);
                assert(c == cell(w as int, x as int, y as int) * 4);
            }
            if dither_cell_at(src, w, h, x, y) {
                let up = offset_of(w, h, x + 2, y + 1);
                out[c] = ((src[c] as u16 + src[up] as u16) / 2) as u8;
                out[c + 1] = ((src[c + 1] as u16 + src[up + 1] as u16) / 2) as u8;
                out[c + 2] = ((src[c + 2] as u16 + src[up + 2] as u16) / 2) as u8;
            }
            assert(forall|k: int|
                0 <= k < out@.len() && k != c && k != c + 1 && k != c + 2 ==> #[trigger] out@[k]
                    == before[k]);
            proof {
                assert forall|px: int, py: int, ch: int|
                    0 <= px < w && 0 <= py < h && 0 <= ch < 4 implies #[trigger] out@[cell(w as int, px, py)
                        * 4 + ch] == if py < y || (py == y && px < x + 1) {
                        dedithered(src@, w as int, h as int, px, py, ch)
                    } else {
                        src@[cell(w as int, px, py) * 4 + ch]
                    } by {
                    lemma_cell(w as int, h as int, px, py);
                    if px == x && py == y {
                    } else {
                        assert(cell(w as int, px, py) != cell(w as int, x as int, y as int));
                        let k = cell(w as int, px, py) * 4 + ch;
                        assert(4 * (w * h) == 4 * w * h) by (nonlinear_arith);
                        assert(0 <= k < out@.len());
                        assert(k != c && k != c + 1 && k != c + 2);
                        assert(out@[cell(w as int, px, py) * 4 + ch] == before[cell(w as int, px, py) * 4 + ch]);
                    }
                }
            }
            x = x + 1;
        }
        y = y + 1;
    }
    out
}

/// De-dithering leaves a flat image (every pixel the same colour) untouched.
pub proof fn lemma_dedither_flat_image(src: Seq<u8>, w: int, h: int, c: Rgb, x: int, y: int, ch: int)
    requires
        w >= 1,
        h >= 1,
        src.len() >= 4 * w * h,
        forall|px: int, py: int| 0 <= px < w && 0 <= py < h ==> #[trigger] rgb_at(src, cell(w, px, py)) == c,
        0 <= x < w,
        0 <= y < h,
        0 <= ch < 4,
    ensures
        dedithered(src, w, h, x, y, ch) == src[cell(w, x, y) * 4 + ch],
{
    let cc = pixel_offset(w, h, x, y);
    let up = pixel_offset(w, h, x, y - 1);
    let uy = clampi(y - 1, h);
    assert(rgb_at(src, cell(w, x, y)) == c);
    assert(rgb_at(src, cell(w, x, uy)) == c);
    assert(cell(w, x, y) * 4 == 4 * cell(w, x, y));
    assert(cell(w, x, uy) * 4 == 4 * cell(w, x, uy));
    assert(tone_dist(src, cc, up) == 0);
}

} // verus!
