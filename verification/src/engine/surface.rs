//! An indexed-color drawing surface and 2D primitives.
//!
//! The primitives operate on palette indices instead of RGB so they can be tested without
//! a real renderer. [`TRANSPARENT`] marks holes in sprite layers; it is the sentinel skipped
//! when blitting and when composing layers.
use vstd::prelude::*;
use crate::dgds::pal::Palette;

verus! {

/// Sentinel palette value meaning "transparent" in a layer.
pub const TRANSPARENT: u8 = 0xFF;

/// The row-major index of `(x, y)` in a grid `w` wide.
pub open spec fn cell(w: int, x: int, y: int) -> int {
    y * w + x
}

/// Row-major indices of in-bounds cells are in range and distinct.
pub proof fn lemma_cell(w: int, h: int, x: int, y: int)
    requires
        0 <= x < w,
        0 <= y < h,
    ensures
        0 <= cell(w, x, y) < w * h,
        forall|x2: int, y2: int|
            0 <= x2 < w && 0 <= y2 < h && (x2 != x || y2 != y) ==> #[trigger] cell(w, x2, y2)
                != cell(w, x, y),
{
    assert(0 <= y * w + x < w * h) by (nonlinear_arith)
        requires
            0 <= x < w,
            0 <= y < h,
    ;
    assert forall|x2: int, y2: int|
        0 <= x2 < w && 0 <= y2 < h && (x2 != x || y2 != y) implies #[trigger] cell(w, x2, y2) != cell(
        w,
        x,
        y,
    ) by {
        if y2 == y {
            assert(x2 != x);
        } else if y2 < y {
            assert(y2 * w + x2 < y * w + x) by (nonlinear_arith)
                requires
                    y2 < y,
                    0 <= x2 < w,
                    0 <= x < w,
            ;
        } else {
            assert(y * w + x < y2 * w + x2) by (nonlinear_arith)
                requires
                    y < y2,
                    0 <= x2 < w,
                    0 <= x < w,
            ;
        }
    }
}

/// The absolute value of `v`.
pub open spec fn iabs(v: int) -> int {
    if v < 0 { -v } else { v }
}

/// The Bresenham run along the major axis (`major` steps long, `minor` across): after
/// `k` steps, how many minor-axis steps were taken and the error accumulator.
pub open spec fn line_run(major: int, minor: int, k: nat) -> (int, int)
    decreases k,
{
    if k == 0 {
        (0, (major + 1) / 2)
    } else {
        let (m, c) = line_run(major, minor, (k - 1) as nat);
        if c + minor > major {
            (m + 1, c + minor - major)
        } else {
            (m, c + minor)
        }
    }
}

/// The number of points `draw_line` plots: the longer of the two axis extents.
pub open spec fn line_len(x1: int, y1: int, x2: int, y2: int) -> int {
    let dx = iabs(x2 - x1);
    let dy = iabs(y2 - y1);
    if dy < dx { dx } else { dy }
}

/// Point `k` of the line from `(x1, y1)` towards `(x2, y2)`: `k` steps along the
/// longer axis, and as many across as the error accumulator has carried.
pub open spec fn line_point(x1: int, y1: int, x2: int, y2: int, k: int) -> (int, int) {
    let dx = iabs(x2 - x1);
    let dy = iabs(y2 - y1);
    if dy < dx {
        (toward(x1, x2 > x1, k), toward(y1, y2 > y1, line_run(dx, dy, k as nat).0))
    } else {
        (toward(x1, x2 > x1, line_run(dy, dx, k as nat).0), toward(y1, y2 > y1, k))
    }
}

/// `a` moved `n` steps up (or down).
pub open spec fn toward(a: int, up: bool, n: int) -> int {
    if up { a + n } else { a - n }
}

/// Whether `(px, py)` is one of the first `n` points of the line.
pub open spec fn line_drawn(x1: int, y1: int, x2: int, y2: int, n: int, px: int, py: int) -> bool {
    exists|k: int| 0 <= k < n && #[trigger] line_point(x1, y1, x2, y2, k) == (px, py)
}

/// The accumulator stays within the run, and each step crosses at most once.
proof fn lemma_line_run_bound(major: int, minor: int, k: nat)
    requires
        0 <= minor <= major,
        major >= 1,
    ensures
        0 <= line_run(major, minor, k).0 <= k,
        minor < major ==> 1 <= line_run(major, minor, k).1 <= major,
        0 <= line_run(major, minor, k).1 <= major,
    decreases k,
{
    if k > 0 {
        lemma_line_run_bound(major, minor, (k - 1) as nat);
    }
}

/// One more point drawn adds exactly that point.
proof fn lemma_line_drawn_step(x1: int, y1: int, x2: int, y2: int, n: int)
    requires
        n >= 0,
    ensures
        forall|px: int, py: int|
            #![trigger line_drawn(x1, y1, x2, y2, n + 1, px, py)]
            line_drawn(x1, y1, x2, y2, n + 1, px, py) == (line_drawn(x1, y1, x2, y2, n, px, py)
                || line_point(x1, y1, x2, y2, n) == (px, py)),
{
    assert forall|px: int, py: int|
        #![trigger line_drawn(x1, y1, x2, y2, n + 1, px, py)]
        line_drawn(x1, y1, x2, y2, n + 1, px, py) == (line_drawn(x1, y1, x2, y2, n, px, py)
            || line_point(x1, y1, x2, y2, n) == (px, py)) by {
        if line_drawn(x1, y1, x2, y2, n + 1, px, py) {
            let k = choose|k: int| 0 <= k < n + 1 && #[trigger] line_point(x1, y1, x2, y2, k) == (px, py);
            if k < n {
                assert(line_drawn(x1, y1, x2, y2, n, px, py));
            }
        }
        if line_drawn(x1, y1, x2, y2, n, px, py) {
            let k = choose|k: int| 0 <= k < n && #[trigger] line_point(x1, y1, x2, y2, k) == (px, py);
            assert(0 <= k < n + 1);
        }
        if line_point(x1, y1, x2, y2, n) == (px, py) {
            assert(0 <= n < n + 1);
        }
    }
}

/// One midpoint-circle step of `(x, y, d)`.
pub open spec fn circle_step(s: (int, int, int)) -> (int, int, int) {
    let (x, y, d) = s;
    if d < 0 {
        (x + 1, y, d + 2 * x + 3)
    } else {
        (x + 1, y - 1, d + 2 * (x - y) + 5)
    }
}

/// The midpoint-circle state `(x, y, d)` after `k` steps for radius `r`.
pub open spec fn circle_state(r: int, k: nat) -> (int, int, int)
    decreases k,
{
    if k == 0 {
        (0, r, 1 - r)
    } else {
        circle_step(circle_state(r, (k - 1) as nat))
    }
}

/// Whether step `k` is reached: every earlier step had `y - x > 1`.
pub open spec fn circle_live(r: int, k: nat) -> bool
    decreases k,
{
    if k == 0 {
        true
    } else {
        circle_live(r, (k - 1) as nat) && circle_state(r, (k - 1) as nat).1 - circle_state(
            r,
            (k - 1) as nat,
        ).0 > 1
    }
}

/// Whether `(px, py)` lies on one of the four fill spans of a step state.
pub open spec fn in_fill_spans(s: (int, int, int), xc: int, yc: int, px: int, py: int) -> bool {
    let (x, y, _d) = s;
    ||| xc - x <= px <= xc + x + 1 && (py == yc + y + 1 || py == yc - y)
    ||| xc - y <= px <= xc + y + 1 && (py == yc + x + 1 || py == yc - x)
}

/// Whether `(px, py)` is one of the eight outline points of a step state.
pub open spec fn on_outline(s: (int, int, int), xc: int, yc: int, px: int, py: int) -> bool {
    let (x, y, _d) = s;
    ||| (px == xc - x || px == xc + x + 1) && (py == yc + y + 1 || py == yc - y)
    ||| (px == xc - y || px == xc + y + 1) && (py == yc + x + 1 || py == yc - x)
}

/// Whether a fill span of one of the first `n` steps covers `(px, py)`.
pub open spec fn circle_fill_before(r: int, xc: int, yc: int, n: nat, px: int, py: int) -> bool {
    exists|k: nat| k < n && #[trigger] in_fill_spans(circle_state(r, k), xc, yc, px, py)
}

/// Whether an outline point of one of the first `n` steps is `(px, py)`.
pub open spec fn circle_outline_before(r: int, xc: int, yc: int, n: nat, px: int, py: int) -> bool {
    exists|k: nat| k < n && #[trigger] on_outline(circle_state(r, k), xc, yc, px, py)
}

/// Whether the fill of the circle of radius `r` centred on `(xc, yc)` covers `(px, py)`.
pub open spec fn circle_fill(r: int, xc: int, yc: int, px: int, py: int) -> bool {
    exists|k: nat| circle_live(r, k) && #[trigger] in_fill_spans(circle_state(r, k), xc, yc, px, py)
}

/// Whether `(px, py)` is an outline point of the circle of radius `r` centred on `(xc, yc)`.
pub open spec fn circle_outline(r: int, xc: int, yc: int, px: int, py: int) -> bool {
    exists|k: nat| circle_live(r, k) && #[trigger] on_outline(circle_state(r, k), xc, yc, px, py)
}

/// What `draw_circle` leaves at `(px, py)` over the pixel `under`: the outline colour
/// on the outline (when it differs from the fill), the fill colour in the fill, and
/// the old pixel elsewhere.
pub open spec fn circle_pixel(r: int, xc: int, yc: int, fg: u8, bg: u8, under: u8, px: int, py: int) -> u8 {
    if fg != bg && circle_outline(r, xc, yc, px, py) {
        fg
    } else if circle_fill(r, xc, yc, px, py) {
        bg
    } else {
        under
    }
}

/// A reached step of a circle of radius `r >= 0` has `0 <= x <= y <= r`.
proof fn lemma_circle_state_bounds(r: int, k: nat)
    requires
        r >= 0,
        circle_live(r, k),
    ensures
        0 <= circle_state(r, k).0 <= circle_state(r, k).1 <= r,
    decreases k,
{
    if k > 0 {
        lemma_circle_state_bounds(r, (k - 1) as nat);
    }
}

/// A circle drawn into the `width`-pixel square at `(x1, y1)` changes no pixel outside
/// that square, and every pixel it changes takes the outline or the fill colour.
pub proof fn lemma_circle_in_box(
    x1: int,
    y1: int,
    width: int,
    fg: u8,
    bg: u8,
    under: u8,
    px: int,
    py: int,
)
    requires
        width >= 2,
        width % 2 == 0,
    ensures
        ({
            let r = width / 2 - 1;
            let v = circle_pixel(r, x1 + r, y1 + r, fg, bg, under, px, py);
            v != under ==> {
                &&& x1 <= px < x1 + width
                &&& y1 <= py < y1 + width
                &&& v == fg || v == bg
            }
        }),
{
    let r = width / 2 - 1;
    let xc = x1 + r;
    let yc = y1 + r;
    if fg != bg && circle_outline(r, xc, yc, px, py) {
        let k = choose|k: nat| circle_live(r, k) && #[trigger] on_outline(circle_state(r, k), xc, yc, px, py);
        lemma_circle_state_bounds(r, k);
    } else if circle_fill(r, xc, yc, px, py) {
        let k = choose|k: nat| circle_live(r, k) && #[trigger] in_fill_spans(circle_state(r, k), xc, yc, px, py);
        lemma_circle_state_bounds(r, k);
    }
}

/// Reaching a step means reaching every earlier one.
proof fn lemma_circle_live_mono(r: int, i: nat, j: nat)
    requires
        i <= j,
        circle_live(r, j),
    ensures
        circle_live(r, i),
    decreases j,
{
    if i < j {
        lemma_circle_live_mono(r, i, (j - 1) as nat);
    }
}

/// One more step's spans add exactly those spans.
proof fn lemma_circle_fill_step(r: int, xc: int, yc: int, n: nat)
    ensures
        forall|px: int, py: int|
            #![trigger circle_fill_before(r, xc, yc, n + 1, px, py)]
            circle_fill_before(r, xc, yc, n + 1, px, py) == (circle_fill_before(r, xc, yc, n, px, py)
                || in_fill_spans(circle_state(r, n), xc, yc, px, py)),
{
    assert forall|px: int, py: int|
        #![trigger circle_fill_before(r, xc, yc, n + 1, px, py)]
        circle_fill_before(r, xc, yc, n + 1, px, py) == (circle_fill_before(r, xc, yc, n, px, py)
            || in_fill_spans(circle_state(r, n), xc, yc, px, py)) by {
        if circle_fill_before(r, xc, yc, n + 1, px, py) {
            let k = choose|k: nat| k < n + 1 && #[trigger] in_fill_spans(circle_state(r, k), xc, yc, px, py);
            if k < n {
                assert(circle_fill_before(r, xc, yc, n, px, py));
            }
        }
        if circle_fill_before(r, xc, yc, n, px, py) {
            let k = choose|k: nat| k < n && #[trigger] in_fill_spans(circle_state(r, k), xc, yc, px, py);
            assert(k < n + 1);
        }
        if in_fill_spans(circle_state(r, n), xc, yc, px, py) {
            assert(n < n + 1);
        }
    }
}

/// One more step's outline points add exactly those points.
proof fn lemma_circle_outline_step(r: int, xc: int, yc: int, n: nat)
    ensures
        forall|px: int, py: int|
            #![trigger circle_outline_before(r, xc, yc, n + 1, px, py)]
            circle_outline_before(r, xc, yc, n + 1, px, py) == (circle_outline_before(r, xc, yc, n, px, py)
                || on_outline(circle_state(r, n), xc, yc, px, py)),
{
    assert forall|px: int, py: int|
        #![trigger circle_outline_before(r, xc, yc, n + 1, px, py)]
        circle_outline_before(r, xc, yc, n + 1, px, py) == (circle_outline_before(r, xc, yc, n, px, py)
            || on_outline(circle_state(r, n), xc, yc, px, py)) by {
        if circle_outline_before(r, xc, yc, n + 1, px, py) {
            let k = choose|k: nat| k < n + 1 && #[trigger] on_outline(circle_state(r, k), xc, yc, px, py);
            if k < n {
                assert(circle_outline_before(r, xc, yc, n, px, py));
            }
        }
        if circle_outline_before(r, xc, yc, n, px, py) {
            let k = choose|k: nat| k < n && #[trigger] on_outline(circle_state(r, k), xc, yc, px, py);
            assert(k < n + 1);
        }
        if on_outline(circle_state(r, n), xc, yc, px, py) {
            assert(n < n + 1);
        }
    }
}

/// When step `n` is the last one reached, the spans of steps `0..=n` are the fill.
proof fn lemma_circle_fill_all(r: int, xc: int, yc: int, n: nat)
    requires
        circle_live(r, n),
        circle_state(r, n).1 - circle_state(r, n).0 <= 1,
    ensures
        forall|px: int, py: int|
            #![trigger circle_fill(r, xc, yc, px, py)]
            circle_fill(r, xc, yc, px, py) == circle_fill_before(r, xc, yc, n + 1, px, py),
{
    assert forall|px: int, py: int|
        #![trigger circle_fill(r, xc, yc, px, py)]
        circle_fill(r, xc, yc, px, py) == circle_fill_before(r, xc, yc, n + 1, px, py) by {
        if circle_fill(r, xc, yc, px, py) {
            let k = choose|k: nat| circle_live(r, k) && #[trigger] in_fill_spans(circle_state(r, k), xc, yc, px, py);
            if k > n {
                lemma_circle_live_mono(r, n + 1, k);
                assert(false);
            }
            assert(k < n + 1);
        }
        if circle_fill_before(r, xc, yc, n + 1, px, py) {
            let k = choose|k: nat| k < n + 1 && #[trigger] in_fill_spans(circle_state(r, k), xc, yc, px, py);
            lemma_circle_live_mono(r, k, n);
        }
    }
}

/// When step `n` is the last one reached, the points of steps `0..=n` are the outline.
proof fn lemma_circle_outline_all(r: int, xc: int, yc: int, n: nat)
    requires
        circle_live(r, n),
        circle_state(r, n).1 - circle_state(r, n).0 <= 1,
    ensures
        forall|px: int, py: int|
            #![trigger circle_outline(r, xc, yc, px, py)]
            circle_outline(r, xc, yc, px, py) == circle_outline_before(r, xc, yc, n + 1, px, py),
{
    assert forall|px: int, py: int|
        #![trigger circle_outline(r, xc, yc, px, py)]
        circle_outline(r, xc, yc, px, py) == circle_outline_before(r, xc, yc, n + 1, px, py) by {
        if circle_outline(r, xc, yc, px, py) {
            let k = choose|k: nat| circle_live(r, k) && #[trigger] on_outline(circle_state(r, k), xc, yc, px, py);
            if k > n {
                lemma_circle_live_mono(r, n + 1, k);
                assert(false);
            }
            assert(k < n + 1);
        }
        if circle_outline_before(r, xc, yc, n + 1, px, py) {
            let k = choose|k: nat| k < n + 1 && #[trigger] on_outline(circle_state(r, k), xc, yc, px, py);
            lemma_circle_live_mono(r, k, n);
        }
    }
}

/// An axis-aligned clip rectangle in surface coordinates.
#[derive(Debug, Clone, Copy, PartialEq, Eq)]
pub struct Rect {
    /// Left edge.
    pub x: i32,
    /// Top edge.
    pub y: i32,
    /// Width.
    pub w: i32,
    /// Height.
    pub h: i32,
}

impl Rect {
    /// Whether `(x, y)` lies inside the rectangle (as a mathematical statement).
    pub open spec fn holds(&self, x: int, y: int) -> bool {
        x >= self.x && y >= self.y && x < self.x + self.w && y < self.y + self.h
    }

    /// Whether `(x, y)` lies inside the rectangle.
    pub fn contains(&self, x: i32, y: i32) -> (b: bool)
        ensures
            b == self.holds(x as int, y as int),
    {
        x as i64 >= self.x as i64 && y as i64 >= self.y as i64 && (x as i64) < self.x as i64
            + self.w as i64 && (y as i64) < self.y as i64 + self.h as i64
    }
}

/// Whether `(x, y)` passes an optional clip rectangle.
pub open spec fn clip_ok(clip: Option<Rect>, x: int, y: int) -> bool {
    match clip {
        Some(c) => c.holds(x, y),
        None => true,
    }
}

/// An indexed-color framebuffer.
#[derive(Debug, Clone, PartialEq, Eq)]
pub struct Surface {
    /// Width in pixels.
    pub width: u16,
    /// Height in pixels.
    pub height: u16,
    /// One palette index per pixel (row-major). May contain [`TRANSPARENT`].
    pub pixels: Vec<u8>,
}

impl Surface {
    /// Whether the pixel buffer has exactly `width * height` entries.
    pub open spec fn wf(&self) -> bool {
        self.pixels@.len() == self.width * self.height
    }

    /// Whether `(x, y)` is on the surface.
    pub open spec fn inside(&self, x: int, y: int) -> bool {
        0 <= x < self.width && 0 <= y < self.height
    }

    /// The pixel at `(x, y)`.
    pub open spec fn at(&self, x: int, y: int) -> u8 {
        self.pixels@[cell(self.width as int, x, y)]
    }

    /// Whether `s` has the same size as `self`.
    pub open spec fn same_shape(&self, s: &Surface) -> bool {
        s.width == self.width && s.height == self.height && s.wf()
    }

    /// Create a `width`×`height` surface filled with `fill`.
    pub fn new(width: u16, height: u16, fill: u8) -> (s: Self)
        ensures
            s.wf(),
            s.width == width,
            s.height == height,
            forall|i: int| 0 <= i < s.pixels@.len() ==> #[trigger] s.pixels@[i] == fill,
    {
        proof { crate::dgds::scr::lemma_u16_product(width, height); }
        let n = width as usize * height as usize;
        let mut pixels: Vec<u8> = Vec::new();
        let mut i: usize = 0;
        while i < n
            invariant
                i <= n,
                pixels@.len() == i,
                forall|k: int| 0 <= k < i ==> #[trigger] pixels@[k] == fill,
            decreases n - i,
        {
            pixels.push(fill);
            i = i + 1;
        }
        Surface { width, height, pixels }
    }

    fn index(&self, x: i32, y: i32) -> (r: Option<usize>)
        requires
            self.wf(),
        ensures
            self.inside(x as int, y as int) ==> r is Some && r->Some_0 as int == cell(self.width as int, x as int, y as int),
            !self.inside(x as int, y as int) ==> r is None,
            r is Some ==> r->Some_0 < self.pixels@.len(),
    {
        if x >= 0 && y >= 0 && x < self.width as i32 && y < self.height as i32 {
            proof {
                lemma_cell(self.width as int, self.height as int, x as int, y as int);
                crate::dgds::scr::lemma_u16_product(self.width, self.height);
                assert((y as int) * (self.width as int) <= cell(self.width as int, x as int, y as int));
            }
            let i = y as usize * self.width as usize + x as usize;
            assert(i as int == cell(self.width as int, x as int, y as int));
            Some(i)
        } else {
            None
        }
    }

    /// Get the pixel at `(x, y)`, or `None` if out of bounds.
    pub fn get(&self, x: i32, y: i32) -> (r: Option<u8>)
        requires
            self.wf(),
        ensures
            self.inside(x as int, y as int) ==> r == Some(self.at(x as int, y as int)),
            !self.inside(x as int, y as int) ==> r is None,
    {
        match self.index(x, y) {
            Some(i) => {
                assert(i as int == cell(self.width as int, x as int, y as int));
                Some(self.pixels[i])
            },
            None => None,
        }
    }

    /// Fill the whole surface with `color`.
    pub fn fill(&mut self, color: u8)
        ensures
            final(self).width == old(self).width,
            final(self).height == old(self).height,
            final(self).pixels@.len() == old(self).pixels@.len(),
            forall|i: int| 0 <= i < final(self).pixels@.len() ==> #[trigger] final(self).pixels@[i] == color,
    {
        let mut i: usize = 0;
        while i < self.pixels.len()
            invariant
                i <= self.pixels@.len(),
                self.width == old(self).width,
                self.height == old(self).height,
                self.pixels@.len() == old(self).pixels@.len(),
                forall|k: int| 0 <= k < i ==> #[trigger] self.pixels@[k] == color,
            decreases self.pixels@.len() - i,
        {
            self.pixels.set(i, color);
            i = i + 1;
        }
    }

    /// Write a single pixel (bounds-checked to the surface).
    pub fn put_pixel(&mut self, x: i32, y: i32, color: u8)
        requires
            old(self).wf(),
        ensures
            final(self).wf(),
            final(self).width == old(self).width,
            final(self).height == old(self).height,
            forall|px: int, py: int|
                #![trigger final(self).at(px, py)]
                old(self).inside(px, py) ==> final(self).at(px, py) == if px == x && py == y {
                    color
                } else {
                    old(self).at(px, py)
                },
    {
        match self.index(x, y) {
            Some(i) => {
                assert(i as int == cell(self.width as int, x as int, y as int));
                assert(old(self).inside(x as int, y as int));
                self.pixels.set(i, color);
                proof {
                    assert forall|px: int, py: int|
                        #![trigger self.at(px, py)]
                        old(self).inside(px, py) implies self.at(px, py) == if px == x && py == y {
                            color
                        } else {
                            old(self).at(px, py)
                        } by {
                        lemma_cell(self.width as int, self.height as int, x as int, y as int);
                        lemma_cell(self.width as int, self.height as int, px, py);
                    }
                }
            },
            None => {},
        }
    }

    /// Writes a pixel given wide coordinates (ignored when off the surface).
    fn put_wide(&mut self, x: i64, y: i64, color: u8)
        requires
            old(self).wf(),
        ensures
            final(self).wf(),
            final(self).width == old(self).width,
            final(self).height == old(self).height,
            forall|px: int, py: int|
                #![trigger final(self).at(px, py)]
                old(self).inside(px, py) ==> final(self).at(px, py) == if px == x && py == y {
                    color
                } else {
                    old(self).at(px, py)
                },
    {
        if 0 <= x && x < self.width as i64 && 0 <= y && y < self.height as i64 {
            self.put_pixel(x as i32, y as i32, color);
        }
    }

    /// Fill a rectangle with `color`, respecting an optional clip rectangle.
    pub fn fill_rect(&mut self, x: i32, y: i32, w: i32, h: i32, color: u8, clip: Option<Rect>)
        requires
            old(self).wf(),
        ensures
            final(self).wf(),
            final(self).width == old(self).width,
            final(self).height == old(self).height,
            forall|px: int, py: int|
                #![trigger final(self).at(px, py)]
                old(self).inside(px, py) ==> final(self).at(px, py) == if x <= px < x + w && y <= py
                    < y + h && clip_ok(clip, px, py) {
                    color
                } else {
                    old(self).at(px, py)
                },
    {
        let x_end = x as i64 + w as i64;
        let y_end = y as i64 + h as i64;
        let mut yy: i64 = y as i64;
        while yy < y_end
            invariant
                self.wf(),
                self.width == old(self).width,
                self.height == old(self).height,
                x_end == x + w,
                y_end == y + h,
                yy == y || (y < yy <= y_end),
                forall|px: int, py: int|
                    #![trigger self.at(px, py)]
                    old(self).inside(px, py) ==> self.at(px, py) == if x <= px < x + w && y <= py < yy
                        && clip_ok(clip, px, py) {
                        color
                    } else {
                        old(self).at(px, py)
                    },
            decreases y_end - yy,
        {
            let mut xx: i64 = x as i64;
            while xx < x_end
                invariant
                    self.wf(),
                    self.width == old(self).width,
                    self.height == old(self).height,
                    x_end == x + w,
                    y <= yy < y_end,
                    xx == x || (x < xx <= x_end),
                    forall|px: int, py: int|
                        #![trigger self.at(px, py)]
                        old(self).inside(px, py) ==> self.at(px, py) == if x <= px < x + w && (y <= py < yy
                            || (py == yy && px < xx)) && clip_ok(clip, px, py) {
                            color
                        } else {
                            old(self).at(px, py)
                        },
                decreases x_end - xx,
            {
                let ok = match clip {
                    Some(c) => c.x as i64 <= xx && c.y as i64 <= yy && xx < c.x as i64 + c.w as i64
                        && yy < c.y as i64 + c.h as i64,
                    None => true,
                };
                if ok {
                    self.put_wide(xx, yy, color);
                }
                xx = xx + 1;
            }
            yy = yy + 1;
        }
    }

    fn draw_h_line(&mut self, x1: i64, x2: i64, y: i64, color: u8)
        requires
            old(self).wf(),
            x2 < i64::MAX,
        ensures
            final(self).wf(),
            final(self).width == old(self).width,
            final(self).height == old(self).height,
            forall|px: int, py: int|
                #![trigger final(self).at(px, py)]
                old(self).inside(px, py) ==> final(self).at(px, py) == if x1 <= px <= x2 && py == y {
                    color
                } else {
                    old(self).at(px, py)
                },
    {
        let mut x = x1;
        while x <= x2
            invariant
                self.wf(),
                self.width == old(self).width,
                self.height == old(self).height,
                x2 < i64::MAX,
                x1 <= x,
                x <= x2 + 1 || x2 < x1,
                forall|px: int, py: int|
                    #![trigger self.at(px, py)]
                    old(self).inside(px, py) ==> self.at(px, py) == if x1 <= px < x && px <= x2 && py == y {
                        color
                    } else {
                        old(self).at(px, py)
                    },
            decreases x2 + 1 - x,
        {
            self.put_wide(x, y, color);
            x = x + 1;
        }
    }

    /// Draw a line using the Bresenham variant of the 1992 engine: it draws the
    /// `line_len` points `line_point(.., 0)`, `line_point(.., 1)`, … (the start
    /// inclusive, the end exclusive).
    pub fn draw_line(&mut self, x1: i32, y1: i32, x2: i32, y2: i32, color: u8)
        requires
            old(self).wf(),
        ensures
            final(self).wf(),
            final(self).width == old(self).width,
            final(self).height == old(self).height,
            forall|px: int, py: int|
                #![trigger final(self).at(px, py)]
                old(self).inside(px, py) ==> final(self).at(px, py) == if line_drawn(
                    x1 as int,
                    y1 as int,
                    x2 as int,
                    y2 as int,
                    line_len(x1 as int, y1 as int, x2 as int, y2 as int),
                    px,
                    py,
                ) {
                    color
                } else {
                    old(self).at(px, py)
                },
    {
        let ghost (gx1, gy1, gx2, gy2) = (x1 as int, y1 as int, x2 as int, y2 as int);
        let ddx = x2 as i64 - x1 as i64;
        let ddy = y2 as i64 - y1 as i64;
        let dx = if ddx < 0 { -ddx } else { ddx };
        let dy = if ddy < 0 { -ddy } else { ddy };
        let xinc: i64 = if x2 > x1 { 1 } else { -1 };
        let yinc: i64 = if y2 > y1 { 1 } else { -1 };
        let mut x: i64 = x1 as i64;
        let mut y: i64 = y1 as i64;
        proof {
            assert(dx == iabs(gx2 - gx1));
            assert(dy == iabs(gy2 - gy1));
        }
        if dy < dx {
            let mut cumul = (dx + 1) / 2;
            let mut k: i64 = 0;
            while k < dx
                invariant
                    self.wf(),
                    self.width == old(self).width,
                    self.height == old(self).height,
                    0 <= k <= dx,
                    0 <= dy < dx <= 0x1_0000_0000,
                    dx == iabs(gx2 - gx1),
                    dy == iabs(gy2 - gy1),
                    gx1 == x1,
                    gy1 == y1,
                    gx2 == x2,
                    gy2 == y2,
                    xinc == (if x2 > x1 { 1int } else { -1int }),
                    yinc == (if y2 > y1 { 1int } else { -1int }),
                    cumul == line_run(dx as int, dy as int, k as nat).1,
                    1 <= cumul <= dx,
                    (x as int, y as int) == line_point(gx1, gy1, gx2, gy2, k as int),
                    x1 as int - k <= x <= x1 as int + k,
                    y1 as int - k <= y <= y1 as int + k,
                    forall|px: int, py: int|
                        #![trigger self.at(px, py)]
                        old(self).inside(px, py) ==> self.at(px, py) == if line_drawn(
                            gx1,
                            gy1,
                            gx2,
                            gy2,
                            k as int,
                            px,
                            py,
                        ) {
                            color
                        } else {
                            old(self).at(px, py)
                        },
                decreases dx - k,
            {
                proof {
                    lemma_line_run_bound(dx as int, dy as int, k as nat);
                    lemma_line_drawn_step(gx1, gy1, gx2, gy2, k as int);
                }
                self.put_wide(x, y, color);
                x = x + xinc;
                cumul = cumul + dy;
                if cumul > dx {
                    cumul = cumul - dx;
                    y = y + yinc;
                }
                k = k + 1;
            }
        } else {
            let mut cumul = (dy + 1) / 2;
            let mut k: i64 = 0;
            while k < dy
                invariant
                    self.wf(),
                    self.width == old(self).width,
                    self.height == old(self).height,
                    0 <= k <= dy,
                    0 <= dx <= dy <= 0x1_0000_0000,
                    dx == iabs(gx2 - gx1),
                    dy == iabs(gy2 - gy1),
                    gx1 == x1,
                    gy1 == y1,
                    gx2 == x2,
                    gy2 == y2,
                    xinc == (if x2 > x1 { 1int } else { -1int }),
                    yinc == (if y2 > y1 { 1int } else { -1int }),
                    cumul == line_run(dy as int, dx as int, k as nat).1,
                    0 <= cumul <= dy,
                    (x as int, y as int) == line_point(gx1, gy1, gx2, gy2, k as int),
                    x1 as int - k <= x <= x1 as int + k,
                    y1 as int - k <= y <= y1 as int + k,
                    forall|px: int, py: int|
                        #![trigger self.at(px, py)]
                        old(self).inside(px, py) ==> self.at(px, py) == if line_drawn(
                            gx1,
                            gy1,
                            gx2,
                            gy2,
                            k as int,
                            px,
                            py,
                        ) {
                            color
                        } else {
                            old(self).at(px, py)
                        },
                decreases dy - k,
            {
                proof {
                    lemma_line_run_bound(dy as int, dx as int, k as nat);
                    lemma_line_drawn_step(gx1, gy1, gx2, gy2, k as int);
                }
                self.put_wide(x, y, color);
                y = y + yinc;
                cumul = cumul + dx;
                if cumul > dy {
                    cumul = cumul - dy;
                    x = x + xinc;
                }
                k = k + 1;
            }
        }
    }

    /// Draw a filled circle (`fg` outline over `bg` fill), as the 1992 engine does.
    /// Only regular circles with an even diameter are drawn: for those the `bg` spans
    /// and then (when the colours differ) the `fg` outline points of every midpoint
    /// step are plotted.
    pub fn draw_circle(&mut self, x1: i32, y1: i32, width: i32, height: i32, fg: u8, bg: u8)
        requires
            old(self).wf(),
        ensures
            final(self).wf(),
            final(self).width == old(self).width,
            final(self).height == old(self).height,
            width != height || width < 2 || width % 2 != 0 ==> final(self).pixels@ == old(self).pixels@,
            width == height && width >= 2 && width % 2 == 0 ==> forall|px: int, py: int|
                #![trigger final(self).at(px, py)]
                old(self).inside(px, py) ==> final(self).at(px, py) == circle_pixel(
                    width / 2 - 1,
                    x1 + (width / 2 - 1),
                    y1 + (width / 2 - 1),
                    fg,
                    bg,
                    old(self).at(px, py),
                    px,
                    py,
                ),
            width == height && width >= 2 && width % 2 == 0 ==> forall|px: int, py: int|
                old(self).inside(px, py) && #[trigger] final(self).at(px, py) != old(self).at(px, py) ==> {
                    &&& x1 <= px < x1 + width
                    &&& y1 <= py < y1 + width
                    &&& final(self).at(px, py) == fg || final(self).at(px, py) == bg
                },
    {
        if width != height || width < 2 || width % 2 != 0 {
            return;
        }
        let r: i64 = (width / 2) as i64 - 1;
        let xc: i64 = x1 as i64 + r;
        let yc: i64 = y1 as i64 + r;
        let ghost gr = r as int;

        let mut x: i64 = 0;
        let mut y: i64 = r;
        let mut d: i64 = 1 - r;
        let ghost mut k: nat = 0;
        loop
            invariant_except_break
                (x as int, y as int, d as int) == circle_state(gr, k),
                circle_live(gr, k),
                forall|px: int, py: int|
                    #![trigger self.at(px, py)]
                    old(self).inside(px, py) ==> self.at(px, py) == if circle_fill_before(
                        gr,
                        xc as int,
                        yc as int,
                        k,
                        px,
                        py,
                    ) {
                        bg
                    } else {
                        old(self).at(px, py)
                    },
            invariant
                self.wf(),
                self.width == old(self).width,
                self.height == old(self).height,
                0 <= r < 0x4000_0000,
                gr == r,
                0 <= x <= r + 1,
                0 <= y <= r,
                -2 * r - 5 <= d <= 2 * r + 4 + x,
                xc == x1 + r,
                yc == y1 + r,
            ensures
                self.wf(),
                self.width == old(self).width,
                self.height == old(self).height,
                forall|px: int, py: int|
                    #![trigger self.at(px, py)]
                    old(self).inside(px, py) ==> self.at(px, py) == if circle_fill(gr, xc as int, yc as int, px, py) {
                        bg
                    } else {
                        old(self).at(px, py)
                    },
            decreases y - x + 2,
        {
            proof {
                lemma_circle_fill_step(gr, xc as int, yc as int, k);
            }
            self.draw_h_line(xc - x, xc + x + 1, yc + y + 1, bg);
            self.draw_h_line(xc - x, xc + x + 1, yc - y, bg);
            self.draw_h_line(xc - y, xc + y + 1, yc + x + 1, bg);
            self.draw_h_line(xc - y, xc + y + 1, yc - x, bg);
            if y - x <= 1 {
                proof {
                    lemma_circle_fill_all(gr, xc as int, yc as int, k);
                }
                break;
            }
            if d < 0 {
                d = d + 2 * x + 3;
            } else {
                d = d + 2 * (x - y) + 5;
                y = y - 1;
            }
            x = x + 1;
            proof {
                k = k + 1;
            }
        }
        let ghost mid = *self;

        if fg != bg {
            let mut x: i64 = 0;
            let mut y: i64 = r;
            let mut d: i64 = 1 - r;
            let ghost mut k: nat = 0;
            loop
                invariant_except_break
                    (x as int, y as int, d as int) == circle_state(gr, k),
                    circle_live(gr, k),
                    forall|px: int, py: int|
                        #![trigger self.at(px, py)]
                        old(self).inside(px, py) ==> self.at(px, py) == if circle_outline_before(
                            gr,
                            xc as int,
                            yc as int,
                            k,
                            px,
                            py,
                        ) {
                            fg
                        } else {
                            mid.at(px, py)
                        },
                invariant
                    self.wf(),
                    self.width == old(self).width,
                    self.height == old(self).height,
                    mid.wf(),
                    mid.width == old(self).width,
                    mid.height == old(self).height,
                    0 <= r < 0x4000_0000,
                    gr == r,
                    0 <= x <= r + 1,
                    0 <= y <= r,
                    -2 * r - 5 <= d <= 2 * r + 4 + x,
                    xc == x1 + r,
                    yc == y1 + r,
                ensures
                    self.wf(),
                    self.width == old(self).width,
                    self.height == old(self).height,
                    forall|px: int, py: int|
                        #![trigger self.at(px, py)]
                        old(self).inside(px, py) ==> self.at(px, py) == if circle_outline(
                            gr,
                            xc as int,
                            yc as int,
                            px,
                            py,
                        ) {
                            fg
                        } else {
                            mid.at(px, py)
                        },
                decreases y - x + 2,
            {
                proof {
                    lemma_circle_outline_step(gr, xc as int, yc as int, k);
                }
                self.put_wide(xc - x, yc + y + 1, fg);
                self.put_wide(xc + x + 1, yc + y + 1, fg);
                self.put_wide(xc - x, yc - y, fg);
                self.put_wide(xc + x + 1, yc - y, fg);
                self.put_wide(xc - y, yc + x + 1, fg);
                self.put_wide(xc + y + 1, yc + x + 1, fg);
                self.put_wide(xc - y, yc - x, fg);
                self.put_wide(xc + y + 1, yc - x, fg);
                if y - x <= 1 {
                    proof {
                        lemma_circle_outline_all(gr, xc as int, yc as int, k);
                    }
                    break;
                }
                if d < 0 {
                    d = d + 2 * x + 3;
                } else {
                    d = d + 2 * (x - y) + 5;
                    y = y - 1;
                }
                x = x + 1;
                proof {
                    k = k + 1;
                }
            }
        }
        proof {
            assert forall|px: int, py: int|
                old(self).inside(px, py) && #[trigger] self.at(px, py) != old(self).at(px, py) implies {
                    &&& x1 <= px < x1 + width
                    &&& y1 <= py < y1 + width
                    &&& self.at(px, py) == fg || self.at(px, py) == bg
                } by {
                lemma_circle_in_box(x1 as int, y1 as int, width as int, fg, bg, old(self).at(px, py), px, py);
            }
        }
    }

    /// Blit a sprite (`src_w`×`src_h` palette indices) at `(x, y)`.
    ///
    /// Pixels equal to `transparent` are skipped; `flip` mirrors horizontally;
    /// an optional `clip` rectangle bounds the destination.
    pub fn blit(
        &mut self,
        src_w: u16,
        src_h: u16,
        src: &[u8],
        x: i32,
        y: i32,
        transparent: Option<u8>,
        flip: bool,
        clip: Option<Rect>,
    )
        requires
            old(self).wf(),
            src@.len() >= src_w * src_h,
        ensures
            final(self).wf(),
            final(self).width == old(self).width,
            final(self).height == old(self).height,
            forall|px: int, py: int|
                #![trigger final(self).at(px, py)]
                old(self).inside(px, py) ==> final(self).at(px, py) == blit_pixel(
                    old(self).at(px, py), src_w as int, src_h as int, src@, x as int, y as int,
                    transparent, flip, clip, px, py,
                ),
    {
        let sw = src_w as usize;
        let sh = src_h as usize;
        let mut sy: usize = 0;
        while sy < sh
            invariant
                self.wf(),
                self.width == old(self).width,
                self.height == old(self).height,
                sw == src_w,
                sh == src_h,
                0 <= sy <= sh,
                src@.len() >= src_w * src_h,
                forall|px: int, py: int|
                    #![trigger self.at(px, py)]
                    old(self).inside(px, py) ==> self.at(px, py) == if py < y + sy {
                        blit_pixel(old(self).at(px, py), src_w as int, src_h as int, src@, x as int, y as int,
                            transparent, flip, clip, px, py)
                    } else {
                        old(self).at(px, py)
                    },
            decreases sh - sy,
        {
            let mut sx: usize = 0;
            while sx < sw
                invariant
                    self.wf(),
                    self.width == old(self).width,
                    self.height == old(self).height,
                    sw == src_w,
                    sh == src_h,
                    0 <= sy < sh,
                    0 <= sx <= sw,
                    src@.len() >= src_w * src_h,
                    forall|px: int, py: int|
                        #![trigger self.at(px, py)]
                        old(self).inside(px, py) ==> self.at(px, py) == if py < y + sy || (py == y + sy
                            && px < x + sx) {
                            blit_pixel(old(self).at(px, py), src_w as int, src_h as int, src@, x as int,
                                y as int, transparent, flip, clip, px, py)
                        } else {
                            old(self).at(px, py)
                        },
                decreases sw - sx,
            {
                let read_col = if flip { sw - 1 - sx } else { sx };
                proof {
                    lemma_cell(sw as int, sh as int, read_col as int, sy as int);
                    crate::dgds::scr::lemma_u16_product(src_w, src_h);
                    assert((sy as int) * (sw as int) <= cell(sw as int, read_col as int, sy as int));
                }
                let pixel = src[sy * sw + read_col];
                let skip = match transparent {
                    Some(t) => pixel == t,
                    None => false,
                };
                if !skip {
                    let dx = x as i64 + sx as i64;
                    let dy = y as i64 + sy as i64;
                    let ok = match clip {
                        Some(c) => c.x as i64 <= dx && c.y as i64 <= dy && dx < c.x as i64 + c.w as i64
                            && dy < c.y as i64 + c.h as i64,
                        None => true,
                    };
                    if ok {
                        self.put_wide(dx, dy, pixel);
                    }
                }
                sx = sx + 1;
            }
            sy = sy + 1;
        }
    }

    /// Copy the non-transparent pixels of the rectangle `(x, y, w, h)` from `src` onto
    /// `self` (used by the TTM `COPY_ZONE_TO_BG` opcode to build the persistent
    /// "saved zones" layer).
    pub fn blit_zone(&mut self, src: &Surface, x: i32, y: i32, w: i32, h: i32)
        requires
            old(self).wf(),
            src.wf(),
        ensures
            final(self).wf(),
            final(self).width == old(self).width,
            final(self).height == old(self).height,
            forall|px: int, py: int|
                #![trigger final(self).at(px, py)]
                old(self).inside(px, py) ==> final(self).at(px, py) == if x <= px < x + w && y <= py
                    < y + h && src.inside(px, py) && src.at(px, py) != TRANSPARENT {
                    src.at(px, py)
                } else {
                    old(self).at(px, py)
                },
    {
        let x_end = x as i64 + w as i64;
        let y_end = y as i64 + h as i64;
        let mut yy: i64 = y as i64;
        while yy < y_end
            invariant
                self.wf(),
                src.wf(),
                self.width == old(self).width,
                self.height == old(self).height,
                x_end == x + w,
                y_end == y + h,
                yy == y || (y < yy <= y_end),
                forall|px: int, py: int|
                    #![trigger self.at(px, py)]
                    old(self).inside(px, py) ==> self.at(px, py) == if x <= px < x + w && y <= py < yy
                        && src.inside(px, py) && src.at(px, py) != TRANSPARENT {
                        src.at(px, py)
                    } else {
                        old(self).at(px, py)
                    },
            decreases y_end - yy,
        {
            let mut xx: i64 = x as i64;
            while xx < x_end
                invariant
                    self.wf(),
                    src.wf(),
                    self.width == old(self).width,
                    self.height == old(self).height,
                    x_end == x + w,
                    y <= yy < y_end,
                    xx == x || (x < xx <= x_end),
                    forall|px: int, py: int|
                        #![trigger self.at(px, py)]
                        old(self).inside(px, py) ==> self.at(px, py) == if x <= px < x + w && (y <= py < yy
                            || (py == yy && px < xx)) && src.inside(px, py) && src.at(px, py)
                            != TRANSPARENT {
                            src.at(px, py)
                        } else {
                            old(self).at(px, py)
                        },
                decreases x_end - xx,
            {
                if 0 <= xx && xx < src.width as i64 && 0 <= yy && yy < src.height as i64 {
                    match src.get(xx as i32, yy as i32) {
                        Some(p) => {
                            if p != TRANSPARENT {
                                self.put_wide(xx, yy, p);
                            }
                        },
                        None => {},
                    }
                }
                xx = xx + 1;
            }
            yy = yy + 1;
        }
    }

    /// Compose `top` over a copy of `self`: `top`'s non-transparent pixels win.
    pub fn compose_over(&self, top: &Surface) -> (out: Surface)
        ensures
            out.width == self.width,
            out.height == self.height,
            out.pixels@.len() == self.pixels@.len(),
            forall|i: int|
                0 <= i < self.pixels@.len() ==> #[trigger] out.pixels@[i] == if i < top.pixels@.len()
                    && top.pixels@[i] != TRANSPARENT {
                    top.pixels@[i]
                } else {
                    self.pixels@[i]
                },
    {
        let mut pixels: Vec<u8> = Vec::new();
        let mut i: usize = 0;
        while i < self.pixels.len()
            invariant
                i <= self.pixels@.len(),
                pixels@.len() == i,
                forall|k: int|
                    0 <= k < i ==> #[trigger] pixels@[k] == if k < top.pixels@.len() && top.pixels@[k]
                        != TRANSPARENT {
                        top.pixels@[k]
                    } else {
                        self.pixels@[k]
                    },
            decreases self.pixels@.len() - i,
        {
            if i < top.pixels.len() && top.pixels[i] != TRANSPARENT {
                pixels.push(top.pixels[i]);
            } else {
                pixels.push(self.pixels[i]);
            }
            i = i + 1;
        }
        Surface { width: self.width, height: self.height, pixels }
    }

    /// Convert to RGBA8888 using `palette` ([`TRANSPARENT`] → fully transparent).
    pub fn to_rgba(&self, palette: &Palette) -> (out: Vec<u8>)
        ensures
            out@.len() == 4 * self.pixels@.len(),
            forall|i: int, c: int|
                #![trigger out@[4 * i + c]]
                0 <= i < self.pixels@.len() && 0 <= c < 4 ==> out@[4 * i + c] == rgba_channel(
                    palette,
                    self.pixels@[i],
                    c,
                ),
    {
        let mut out: Vec<u8> = Vec::new();
        let mut i: usize = 0;
        while i < self.pixels.len()
            invariant
                i <= self.pixels@.len(),
                out@.len() == 4 * i,
                forall|j: int, c: int|
                    #![trigger out@[4 * j + c]]
                    0 <= j < i && 0 <= c < 4 ==> out@[4 * j + c] == rgba_channel(palette, self.pixels@[j], c),
            decreases self.pixels@.len() - i,
        {
            let p = self.pixels[i];
            if p == TRANSPARENT {
                out.push(0);
                out.push(0);
                out.push(0);
                out.push(0);
            } else {
                let rgb = palette.rgb(p as usize);
                out.push(rgb[0]);
                out.push(rgb[1]);
                out.push(rgb[2]);
                out.push(255);
            }
            i = i + 1;
        }
        out
    }
}

/// Channel `c` of the RGBA colour for palette index `p`.
pub open spec fn rgba_channel(palette: &Palette, p: u8, c: int) -> u8 {
    if p == TRANSPARENT {
        0
    } else if c == 3 {
        255
    } else {
        palette.colors[p as int][c]
    }
}

/// The pixel at `(px, py)` after blitting a `sw`×`sh` sprite `src` at `(x, y)` over `under`.
pub open spec fn blit_pixel(
    under: u8,
    sw: int,
    sh: int,
    src: Seq<u8>,
    x: int,
    y: int,
    transparent: Option<u8>,
    flip: bool,
    clip: Option<Rect>,
    px: int,
    py: int,
) -> u8 {
    let sx = px - x;
    let sy = py - y;
    if 0 <= sx < sw && 0 <= sy < sh {
        let p = src[cell(sw, if flip { sw - 1 - sx } else { sx }, sy)];
        if transparent == Some(p) || !clip_ok(clip, px, py) {
            under
        } else {
            p
        }
    } else {
        under
    }
}

} // verus!
