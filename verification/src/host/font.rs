//! A tiny built-in 5×7 bitmap font for the on-screen diagnostics overlay.
//!
//! Each glyph is seven rows of five bits (bit 4 = leftmost column). Only the characters
//! the overlay needs are defined (upper-case letters, digits and a few symbols); anything
//! else renders blank. Text is drawn straight into the window's `0x00RRGGBB` buffer.
use vstd::prelude::*;
use crate::engine::surface::cell;

verus! {

/// The rows of the 5×7 glyph of byte `c` (bit 4 is the leftmost column); all zero for a
/// byte the font does not define.
pub open spec fn glyph_rows(c: u8) -> Seq<u8> {
    match c {
        32u8 => seq![0, 0, 0, 0, 0, 0, 0],
        48u8 => seq![0b01110, 0b10001, 0b10011, 0b10101, 0b11001, 0b10001, 0b01110],
        49u8 => seq![0b00100, 0b01100, 0b00100, 0b00100, 0b00100, 0b00100, 0b01110],
        50u8 => seq![0b01110, 0b10001, 0b00001, 0b00010, 0b00100, 0b01000, 0b11111],
        51u8 => seq![0b11111, 0b00010, 0b00100, 0b00010, 0b00001, 0b10001, 0b01110],
        52u8 => seq![0b00010, 0b00110, 0b01010, 0b10010, 0b11111, 0b00010, 0b00010],
        53u8 => seq![0b11111, 0b10000, 0b11110, 0b00001, 0b00001, 0b10001, 0b01110],
        54u8 => seq![0b00110, 0b01000, 0b10000, 0b11110, 0b10001, 0b10001, 0b01110],
        55u8 => seq![0b11111, 0b00001, 0b00010, 0b00100, 0b01000, 0b01000, 0b01000],
        56u8 => seq![0b01110, 0b10001, 0b10001, 0b01110, 0b10001, 0b10001, 0b01110],
        57u8 => seq![0b01110, 0b10001, 0b10001, 0b01111, 0b00001, 0b00010, 0b01100],
        65u8 => seq![0b01110, 0b10001, 0b10001, 0b11111, 0b10001, 0b10001, 0b10001],
        66u8 => seq![0b11110, 0b10001, 0b10001, 0b11110, 0b10001, 0b10001, 0b11110],
        67u8 => seq![0b01110, 0b10001, 0b10000, 0b10000, 0b10000, 0b10001, 0b01110],
        68u8 => seq![0b11110, 0b10001, 0b10001, 0b10001, 0b10001, 0b10001, 0b11110],
        69u8 => seq![0b11111, 0b10000, 0b10000, 0b11110, 0b10000, 0b10000, 0b11111],
        70u8 => seq![0b11111, 0b10000, 0b10000, 0b11110, 0b10000, 0b10000, 0b10000],
        71u8 => seq![0b01110, 0b10001, 0b10000, 0b10111, 0b10001, 0b10001, 0b01111],
        72u8 => seq![0b10001, 0b10001, 0b10001, 0b11111, 0b10001, 0b10001, 0b10001],
        73u8 => seq![0b01110, 0b00100, 0b00100, 0b00100, 0b00100, 0b00100, 0b01110],
        74u8 => seq![0b00111, 0b00010, 0b00010, 0b00010, 0b00010, 0b10010, 0b01100],
        75u8 => seq![0b10001, 0b10010, 0b10100, 0b11000, 0b10100, 0b10010, 0b10001],
        76u8 => seq![0b10000, 0b10000, 0b10000, 0b10000, 0b10000, 0b10000, 0b11111],
        77u8 => seq![0b10001, 0b11011, 0b10101, 0b10101, 0b10001, 0b10001, 0b10001],
        78u8 => seq![0b10001, 0b11001, 0b10101, 0b10011, 0b10001, 0b10001, 0b10001],
        79u8 => seq![0b01110, 0b10001, 0b10001, 0b10001, 0b10001, 0b10001, 0b01110],
        80u8 => seq![0b11110, 0b10001, 0b10001, 0b11110, 0b10000, 0b10000, 0b10000],
        81u8 => seq![0b01110, 0b10001, 0b10001, 0b10001, 0b10101, 0b10010, 0b01101],
        82u8 => seq![0b11110, 0b10001, 0b10001, 0b11110, 0b10100, 0b10010, 0b10001],
        83u8 => seq![0b01111, 0b10000, 0b10000, 0b01110, 0b00001, 0b00001, 0b11110],
        84u8 => seq![0b11111, 0b00100, 0b00100, 0b00100, 0b00100, 0b00100, 0b00100],
        85u8 => seq![0b10001, 0b10001, 0b10001, 0b10001, 0b10001, 0b10001, 0b01110],
        86u8 => seq![0b10001, 0b10001, 0b10001, 0b10001, 0b10001, 0b01010, 0b00100],
        87u8 => seq![0b10001, 0b10001, 0b10001, 0b10101, 0b10101, 0b11011, 0b10001],
        88u8 => seq![0b10001, 0b10001, 0b01010, 0b00100, 0b01010, 0b10001, 0b10001],
        89u8 => seq![0b10001, 0b10001, 0b01010, 0b00100, 0b00100, 0b00100, 0b00100],
        90u8 => seq![0b11111, 0b00001, 0b00010, 0b00100, 0b01000, 0b10000, 0b11111],
        46u8 => seq![0, 0, 0, 0, 0, 0b00110, 0b00110],
        44u8 => seq![0, 0, 0, 0, 0b00110, 0b00100, 0b01000],
        58u8 => seq![0, 0b00110, 0b00110, 0, 0b00110, 0b00110, 0],
        47u8 => seq![0b00001, 0b00001, 0b00010, 0b00100, 0b01000, 0b10000, 0b10000],
        45u8 => seq![0, 0, 0, 0b11111, 0, 0, 0],
        43u8 => seq![0, 0b00100, 0b00100, 0b11111, 0b00100, 0b00100, 0],
        35u8 => seq![0b01010, 0b01010, 0b11111, 0b01010, 0b11111, 0b01010, 0b01010],
        40u8 => seq![0b00010, 0b00100, 0b01000, 0b01000, 0b01000, 0b00100, 0b00010],
        41u8 => seq![0b01000, 0b00100, 0b00010, 0b00010, 0b00010, 0b00100, 0b01000],
        37u8 => seq![0b11001, 0b11010, 0b00010, 0b00100, 0b01000, 0b01011, 0b10011],
        _ => seq![0, 0, 0, 0, 0, 0, 0],
    }
}

/// The 5×7 glyph of an (upper-case) ASCII byte; blank for any other byte.
fn glyph(c: u8) -> (g: [u8; 7])
    ensures
        g@ == glyph_rows(c),
{
    match c {
        32u8 => [0, 0, 0, 0, 0, 0, 0],
        48u8 => [0b01110, 0b10001, 0b10011, 0b10101, 0b11001, 0b10001, 0b01110],
        49u8 => [0b00100, 0b01100, 0b00100, 0b00100, 0b00100, 0b00100, 0b01110],
        50u8 => [0b01110, 0b10001, 0b00001, 0b00010, 0b00100, 0b01000, 0b11111],
        51u8 => [0b11111, 0b00010, 0b00100, 0b00010, 0b00001, 0b10001, 0b01110],
        52u8 => [0b00010, 0b00110, 0b01010, 0b10010, 0b11111, 0b00010, 0b00010],
        53u8 => [0b11111, 0b10000, 0b11110, 0b00001, 0b00001, 0b10001, 0b01110],
        54u8 => [0b00110, 0b01000, 0b10000, 0b11110, 0b10001, 0b10001, 0b01110],
        55u8 => [0b11111, 0b00001, 0b00010, 0b00100, 0b01000, 0b01000, 0b01000],
        56u8 => [0b01110, 0b10001, 0b10001, 0b01110, 0b10001, 0b10001, 0b01110],
        57u8 => [0b01110, 0b10001, 0b10001, 0b01111, 0b00001, 0b00010, 0b01100],
        65u8 => [0b01110, 0b10001, 0b10001, 0b11111, 0b10001, 0b10001, 0b10001],
        66u8 => [0b11110, 0b10001, 0b10001, 0b11110, 0b10001, 0b10001, 0b11110],
        67u8 => [0b01110, 0b10001, 0b10000, 0b10000, 0b10000, 0b10001, 0b01110],
        68u8 => [0b11110, 0b10001, 0b10001, 0b10001, 0b10001, 0b10001, 0b11110],
        69u8 => [0b11111, 0b10000, 0b10000, 0b11110, 0b10000, 0b10000, 0b11111],
        70u8 => [0b11111, 0b10000, 0b10000, 0b11110, 0b10000, 0b10000, 0b10000],
        71u8 => [0b01110, 0b10001, 0b10000, 0b10111, 0b10001, 0b10001, 0b01111],
        72u8 => [0b10001, 0b10001, 0b10001, 0b11111, 0b10001, 0b10001, 0b10001],
        73u8 => [0b01110, 0b00100, 0b00100, 0b00100, 0b00100, 0b00100, 0b01110],
        74u8 => [0b00111, 0b00010, 0b00010, 0b00010, 0b00010, 0b10010, 0b01100],
        75u8 => [0b10001, 0b10010, 0b10100, 0b11000, 0b10100, 0b10010, 0b10001],
        76u8 => [0b10000, 0b10000, 0b10000, 0b10000, 0b10000, 0b10000, 0b11111],
        77u8 => [0b10001, 0b11011, 0b10101, 0b10101, 0b10001, 0b10001, 0b10001],
        78u8 => [0b10001, 0b11001, 0b10101, 0b10011, 0b10001, 0b10001, 0b10001],
        79u8 => [0b01110, 0b10001, 0b10001, 0b10001, 0b10001, 0b10001, 0b01110],
        80u8 => [0b11110, 0b10001, 0b10001, 0b11110, 0b10000, 0b10000, 0b10000],
        81u8 => [0b01110, 0b10001, 0b10001, 0b10001, 0b10101, 0b10010, 0b01101],
        82u8 => [0b11110, 0b10001, 0b10001, 0b11110, 0b10100, 0b10010, 0b10001],
        83u8 => [0b01111, 0b10000, 0b10000, 0b01110, 0b00001, 0b00001, 0b11110],
        84u8 => [0b11111, 0b00100, 0b00100, 0b00100, 0b00100, 0b00100, 0b00100],
        85u8 => [0b10001, 0b10001, 0b10001, 0b10001, 0b10001, 0b10001, 0b01110],
        86u8 => [0b10001, 0b10001, 0b10001, 0b10001, 0b10001, 0b01010, 0b00100],
        87u8 => [0b10001, 0b10001, 0b10001, 0b10101, 0b10101, 0b11011, 0b10001],
        88u8 => [0b10001, 0b10001, 0b01010, 0b00100, 0b01010, 0b10001, 0b10001],
        89u8 => [0b10001, 0b10001, 0b01010, 0b00100, 0b00100, 0b00100, 0b00100],
        90u8 => [0b11111, 0b00001, 0b00010, 0b00100, 0b01000, 0b10000, 0b11111],
        46u8 => [0, 0, 0, 0, 0, 0b00110, 0b00110],
        44u8 => [0, 0, 0, 0, 0b00110, 0b00100, 0b01000],
        58u8 => [0, 0b00110, 0b00110, 0, 0b00110, 0b00110, 0],
        47u8 => [0b00001, 0b00001, 0b00010, 0b00100, 0b01000, 0b10000, 0b10000],
        45u8 => [0, 0, 0, 0b11111, 0, 0, 0],
        43u8 => [0, 0b00100, 0b00100, 0b11111, 0b00100, 0b00100, 0],
        35u8 => [0b01010, 0b01010, 0b11111, 0b01010, 0b11111, 0b01010, 0b01010],
        40u8 => [0b00010, 0b00100, 0b01000, 0b01000, 0b01000, 0b00100, 0b00010],
        41u8 => [0b01000, 0b00100, 0b00010, 0b00010, 0b00010, 0b00100, 0b01000],
        37u8 => [0b11001, 0b11010, 0b00010, 0b00100, 0b01000, 0b01011, 0b10011],
        _ => [0, 0, 0, 0, 0, 0, 0],
    }
}

/// Pixel width of `text` rendered at `scale` (each glyph is 5 wide plus 1 spacing column).
pub fn text_width(text: &str, scale: usize) -> (w: usize)
    requires
        text@.len() * 6 * scale <= usize::MAX,
    ensures
        w == text@.len() * 6 * scale,
{
    let mut w: usize = 0;
    for ch in it: text.chars()
        invariant
            w == it.index() * 6 * scale,
            it.seq() == text@,
            text@.len() * 6 * scale <= usize::MAX,
    {
        proof {
            let k = it.index();
            assert((k + 1) * 6 * scale <= text@.len() * 6 * scale) by (nonlinear_arith)
                requires
                    k + 1 <= text@.len(),
            ;
            assert((k + 1) * 6 * scale == k * 6 * scale + 6 * scale) by (nonlinear_arith);
        }
        w = w + 6 * scale;
    }
    w
}

/// Height of a line of text at `scale`.
pub fn line_height(scale: usize) -> (h: usize)
    requires
        7 * scale <= usize::MAX,
    ensures
        h == 7 * scale,
{
    7 * scale
}

/// Fill a rectangle of the `dw`×`dh` `0x00RRGGBB` buffer with `color` (clipped).
pub fn fill_rect(buf: &mut [u32], dw: usize, dh: usize, x: usize, y: usize, w: usize, h: usize, color: u32)
    requires
        old(buf)@.len() >= dw * dh,
        x + w <= usize::MAX,
        y + h <= usize::MAX,
    ensures
        final(buf)@.len() == old(buf)@.len(),
        forall|i: int| dw * dh <= i < old(buf)@.len() ==> #[trigger] final(buf)@[i] == old(buf)@[i],
        forall|px: int, py: int|
            #![trigger final(buf)@[cell(dw as int, px, py)]]
            0 <= px < dw && 0 <= py < dh ==> final(buf)@[cell(dw as int, px, py)] == if x <= px < x + w
                && y <= py < y + h {
                color
            } else {
                old(buf)@[cell(dw as int, px, py)]
            },
{
    let y_end = if y + h < dh { y + h } else { dh };
    let x_end = if x + w < dw { x + w } else { dw };
    let ghost orig = buf@;
    let blen = buf.len();
    let mut py = y;
    while py < y_end
        invariant
            blen == buf@.len(),
            py <= y_end || py == y,
            buf@.len() == orig.len(),
            orig.len() >= dw * dh,
            y_end <= dh,
            x_end <= dw,
            y_end == (if y + h < dh { y + h } else { dh as int }),
            x_end == (if x + w < dw { x + w } else { dw as int }),
            y <= py,
            forall|i: int| dw * dh <= i < orig.len() ==> #[trigger] buf@[i] == orig[i],
            forall|px: int, qy: int|
                #![trigger buf@[cell(dw as int, px, qy)]]
                0 <= px < dw && 0 <= qy < dh ==> buf@[cell(dw as int, px, qy)] == if x <= px < x_end && y
                    <= qy < py {
                    color
                } else {
                    orig[cell(dw as int, px, qy)]
                },
        decreases y_end - py,
    {
        let mut px = x;
        while px < x_end
            invariant
                blen == buf@.len(),
                buf@.len() == orig.len(),
                orig.len() >= dw * dh,
                y_end <= dh,
                x_end <= dw,
                y <= py < y_end,
                x <= px,
                forall|i: int| dw * dh <= i < orig.len() ==> #[trigger] buf@[i] == orig[i],
                forall|qx: int, qy: int|
                    #![trigger buf@[cell(dw as int, qx, qy)]]
                    0 <= qx < dw && 0 <= qy < dh ==> buf@[cell(dw as int, qx, qy)] == if x <= qx < x_end
                        && (y <= qy < py || (qy == py && qx < px)) {
                        color
                    } else {
                        orig[cell(dw as int, qx, qy)]
                    },
            decreases x_end - px,
        {
            proof {
                crate::engine::surface::lemma_cell(dw as int, dh as int, px as int, py as int);
            }
            let ghost before = buf@;
            assert(py * dw + px == cell(dw as int, px as int, py as int));
            let at = py * dw + px;
            buf[at] = color;
            proof {
                assert forall|qx: int, qy: int|
                    #![trigger buf@[cell(dw as int, qx, qy)]]
                    0 <= qx < dw && 0 <= qy < dh implies buf@[cell(dw as int, qx, qy)] == if x <= qx < x_end
                        && (y <= qy < py || (qy == py && qx < px + 1)) {
                        color
                    } else {
                        orig[cell(dw as int, qx, qy)]
                    } by {
                    crate::engine::surface::lemma_cell(dw as int, dh as int, qx, qy);
                    if qx != px || qy != py {
                        assert(buf@[cell(dw as int, qx, qy)] == before[cell(dw as int, qx, qy)]);
                    }
                }
            }
            px = px + 1;
        }
        py = py + 1;
    }
    proof {
        assert forall|px: int, qy: int|
            #![trigger buf@[cell(dw as int, px, qy)]]
            0 <= px < dw && 0 <= qy < dh implies buf@[cell(dw as int, px, qy)] == if x <= px < x + w
                && y <= qy < y + h {
                color
            } else {
                orig[cell(dw as int, px, qy)]
            } by {
            crate::engine::surface::lemma_cell(dw as int, dh as int, px, qy);
        }
    }
}

/// ASCII upper-casing of a byte; other bytes are unchanged.
pub open spec fn upper(b: u8) -> u8 {
    if 97 <= b <= 122 {
        (b - 32) as u8
    } else {
        b
    }
}

fn to_upper(b: u8) -> (u: u8)
    ensures
        u == upper(b),
{
    if 97 <= b && b <= 122 {
        b - 32
    } else {
        b
    }
}

/// The font byte a character is drawn with: its low byte, upper-cased.
pub open spec fn font_byte(c: char) -> u8 {
    upper((c as u32) as u8)
}

/// Whether text drawn at `(x, y)` and `scale` sets the pixel `(px, py)`: the pixel lies in
/// the cell of a character whose glyph has its bit set at that row and column.
pub open spec fn inked(text: Seq<char>, x: int, y: int, scale: int, px: int, py: int) -> bool {
    &&& scale > 0
    &&& x <= px
    &&& y <= py
    &&& {
        let k = (px - x) / (6 * scale);
        let col = ((px - x) % (6 * scale)) / scale;
        let row = (py - y) / scale;
        &&& k < text.len()
        &&& col < 5
        &&& row < 7
        &&& glyph_rows(font_byte(text[k]))[row] & (1u8 << ((4 - col) as u8)) != 0
    }
}

proof fn lemma_past_box(a: int, d: int, n: int)
    requires
        d > 0,
        n >= 0,
        a >= n * d,
    ensures
        a / d >= n,
{
    assert(a / d >= n) by (nonlinear_arith)
        requires
            d > 0,
            n >= 0,
            a >= n * d,
    ;
}

/// Draw `text` into the `dw`×`dh` `0x00RRGGBB` buffer at `(x, y)`, `scale`× size, in
/// `color`. Characters are upper-cased; unknown ones render blank. Off-edge pixels are
/// clipped.
pub fn draw_text(
    buf: &mut [u32],
    dw: usize,
    dh: usize,
    x: usize,
    y: usize,
    text: &str,
    scale: usize,
    color: u32,
)
    requires
        old(buf)@.len() >= dw * dh,
        x + text@.len() * 6 * scale <= usize::MAX,
        y + 7 * scale <= usize::MAX,
    ensures
        final(buf)@.len() == old(buf)@.len(),
        forall|i: int| dw * dh <= i < old(buf)@.len() ==> #[trigger] final(buf)@[i] == old(buf)@[i],
        forall|px: int, py: int|
            #![trigger final(buf)@[cell(dw as int, px, py)]]
            0 <= px < dw && 0 <= py < dh ==> final(buf)@[cell(dw as int, px, py)] == if inked(
                text@,
                x as int,
                y as int,
                scale as int,
                px,
                py,
            ) {
                color
            } else {
                old(buf)@[cell(dw as int, px, py)]
            },
{
    let ghost orig = buf@;
    let mut bytes: Vec<u8> = Vec::new();
    for ch in it: text.chars()
        invariant
            it.seq() == text@,
            bytes@.len() == it.index(),
            forall|k: int| 0 <= k < it.index() ==> #[trigger] bytes@[k] == font_byte(text@[k]),
    {
        let low = (ch as u32) as u8;
        bytes.push(to_upper(low));
    }
    let n = bytes.len();
    if scale == 0 || n == 0 {
        proof {
            assert forall|px: int, py: int|
                0 <= px < dw && 0 <= py < dh implies !inked(text@, x as int, y as int, scale as int, px, py) by {
                if scale > 0 && x <= px && y <= py {
                    assert(text@.len() == 0);
                }
            }
        }
        return;
    }
    proof {
        assert(6 * scale <= n * 6 * scale) by (nonlinear_arith)
            requires
                n >= 1,
        ;
        assert(n * 6 * scale == n * (6 * scale)) by (nonlinear_arith);
    }
    let cw = 6 * scale;
    let box_w = n * cw;
    let x_end = if x + box_w < dw { x + box_w } else { dw };
    let y_end = if y + 7 * scale < dh { y + 7 * scale } else { dh };
    let blen = buf.len();
    let mut py = y;
    while py < y_end
        invariant
            blen == buf@.len(),
            buf@.len() == orig.len(),
            orig.len() >= dw * dh,
            n == text@.len(),
            n >= 1,
            scale > 0,
            cw == 6 * scale,
            bytes@.len() == n,
            forall|k: int| 0 <= k < n ==> #[trigger] bytes@[k] == font_byte(text@[k]),
            y_end <= dh,
            x_end <= dw,
            y_end == (if y + 7 * scale < dh { y + 7 * scale } else { dh as int }),
            x_end == (if x + n * cw < dw { x + n * cw } else { dw as int }),
            y <= py,
            py <= y_end || py == y,
            forall|i: int| dw * dh <= i < orig.len() ==> #[trigger] buf@[i] == orig[i],
            forall|qx: int, qy: int|
                #![trigger buf@[cell(dw as int, qx, qy)]]
                0 <= qx < dw && 0 <= qy < dh ==> buf@[cell(dw as int, qx, qy)] == if qy < py && inked(
                    text@,
                    x as int,
                    y as int,
                    scale as int,
                    qx,
                    qy,
                ) {
                    color
                } else {
                    orig[cell(dw as int, qx, qy)]
                },
        decreases y_end - py,
    {
        let row = (py - y) / scale;
        let mut px = x;
        while px < x_end
            invariant
                blen == buf@.len(),
                buf@.len() == orig.len(),
                orig.len() >= dw * dh,
                n == text@.len(),
                n >= 1,
                scale > 0,
                cw == 6 * scale,
                bytes@.len() == n,
                forall|k: int| 0 <= k < n ==> #[trigger] bytes@[k] == font_byte(text@[k]),
                y_end <= dh,
                x_end <= dw,
                x_end == (if x + n * cw < dw { x + n * cw } else { dw as int }),
                y <= py < y_end,
                row == (py - y) / (scale as int),
                x <= px,
                forall|i: int| dw * dh <= i < orig.len() ==> #[trigger] buf@[i] == orig[i],
                forall|qx: int, qy: int|
                    #![trigger buf@[cell(dw as int, qx, qy)]]
                    0 <= qx < dw && 0 <= qy < dh ==> buf@[cell(dw as int, qx, qy)] == if (qy < py || (qy
                        == py && qx < px)) && inked(text@, x as int, y as int, scale as int, qx, qy) {
                        color
                    } else {
                        orig[cell(dw as int, qx, qy)]
                    },
            decreases x_end - px,
        {
            let off = px - x;
            let k = off / cw;
            let col = (off % cw) / scale;
            let ink = k < n && col < 5 && row < 7 && glyph(bytes[k])[row] & (1u8 << ((4 - col) as u8)) != 0;
            proof {
                crate::engine::surface::lemma_cell(dw as int, dh as int, px as int, py as int);
                if k < n && col < 5 && row < 7 {
                    assert(bytes@[k as int] == font_byte(text@[k as int]));
                }
                assert(ink == inked(text@, x as int, y as int, scale as int, px as int, py as int));
            }
            if ink {
                let ghost before = buf@;
                let at = py * dw + px;
                buf[at] = color;
                proof {
                    assert forall|qx: int, qy: int|
                        #![trigger buf@[cell(dw as int, qx, qy)]]
                        0 <= qx < dw && 0 <= qy < dh && (qx != px || qy != py) implies buf@[cell(dw as int, qx, qy)]
                            == before[cell(dw as int, qx, qy)] by {
                        crate::engine::surface::lemma_cell(dw as int, dh as int, qx, qy);
                    }
                }
            }
            px = px + 1;
        }
        proof {
            assert forall|qx: int|
                x_end <= qx < dw implies !inked(text@, x as int, y as int, scale as int, qx, py as int) by {
                lemma_past_box(qx - x, 6 * scale, n as int);
            }
        }
        py = py + 1;
    }
    proof {
        assert forall|qx: int, qy: int|
            0 <= qx < dw && y_end <= qy < dh implies !inked(text@, x as int, y as int, scale as int, qx, qy) by {
            lemma_past_box(qy - y, scale as int, 7);
        }
        assert forall|qx: int, qy: int|
            0 <= qx < dw && 0 <= qy < dh && qy < y implies !inked(text@, x as int, y as int, scale as int, qx, qy) by {
        }
    }
}

/// Text made only of characters the font has no glyph for draws nothing.
pub proof fn lemma_unknown_text_is_blank(text: Seq<char>, x: int, y: int, scale: int, px: int, py: int)
    requires
        forall|k: int| 0 <= k < text.len() ==> #[trigger] glyph_rows(font_byte(text[k])) == seq![0u8, 0, 0, 0, 0, 0, 0],
    ensures
        !inked(text, x, y, scale, px, py),
{
    if inked(text, x, y, scale, px, py) {
        let k = (px - x) / (6 * scale);
        let row = (py - y) / scale;
        let col = ((px - x) % (6 * scale)) / scale;
        assert(glyph_rows(font_byte(text[k])) == seq![0u8, 0, 0, 0, 0, 0, 0]);
        assert(glyph_rows(font_byte(text[k]))[row] == 0);
        assert((0u8 & (1u8 << ((4 - col) as u8))) == 0) by (bit_vector);
    }
}

} // verus!
