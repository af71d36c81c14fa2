//! The tiled dissolve transition (opt-in).
//!
//! The screen is divided into square cells; an LFSR visits every cell once in a fixed
//! pseudo-random order, and each visited cell is copied from the new image over the old,
//! a batch per frame. The register width is the smallest whose maximal period covers the
//! cell count, with the original's maximal-length feedback masks for widths 2 to 11.
use vstd::prelude::*;
use crate::engine::surface::{Surface, cell};

verus! {

/// The square cell size, in pixels.
pub const CELL: u16 = 16;

/// How many frames the dissolve is spread over.
pub const STEPS: u16 = 20;

/// The maximal-length LFSR feedback mask for a `width`-bit register.
pub open spec fn tap_of(width: int) -> u16 {
    if width == 2 {
        0x3
    } else if width == 3 {
        0x6
    } else if width == 4 {
        0xC
    } else if width == 5 {
        0x14
    } else if width == 6 {
        0x30
    } else if width == 7 {
        0x60
    } else if width == 8 {
        0xB8
    } else if width == 9 {
        0x110
    } else if width == 10 {
        0x240
    } else {
        0x500
    }
}

/// The smallest register width from `w` on (at most 12) whose maximal period covers
/// `n`, with that period (`period` being the period of width `w`).
pub open spec fn width_for(w: int, period: int, n: int) -> (int, int)
    decreases 12 - w,
{
    if w < 12 && period < n {
        width_for(w + 1, 2 * period + 1, n)
    } else {
        (w, period)
    }
}

/// One Galois step of the register `x` with feedback `mask`: shift right, and XOR the
/// mask back in when a 1 falls off the bottom.
pub open spec fn galois(x: u16, mask: u16) -> u16 {
    if x & 1 != 0 { (x >> 1u16) ^ mask } else { x >> 1u16 }
}

/// The cells the register visits from `x` after `steps` of at most `period` steps:
/// each value `v` in `1..=n` names cell `v - 1`; the walk ends when the register is
/// back at 1.
pub open spec fn lfsr_walk(x: u16, mask: u16, n: int, steps: int, period: int) -> Seq<usize>
    decreases period - steps,
{
    let head: Seq<usize> = if 1 <= x <= n { seq![(x - 1) as usize] } else { Seq::empty() };
    let next = galois(x, mask);
    if next == 1 || steps + 1 >= period {
        head
    } else {
        head + lfsr_walk(next, mask, n, steps + 1, period)
    }
}

/// The maximal-length LFSR feedback mask for a `width`-bit register.
fn lfsr_tap(width: u32) -> (m: u16)
    requires
        2 <= width <= 11,
    ensures
        m == tap_of(width as int),
{
    match width {
        2 => 0x3,
        3 => 0x6,
        4 => 0xC,
        5 => 0x14,
        6 => 0x30,
        7 => 0x60,
        8 => 0xB8,
        9 => 0x110,
        10 => 0x240,
        _ => 0x500,
    }
}

/// Whether `order` lists each of `0..n` exactly once.
pub open spec fn is_permutation(order: Seq<usize>, n: nat) -> bool {
    &&& order.len() == n
    &&& forall|i: int| 0 <= i < order.len() ==> #[trigger] order[i] < n
    &&& forall|i: int, j: int| 0 <= i < j < order.len() ==> order[i] != order[j]
    &&& forall|c: int| 0 <= c < n ==> #[trigger] lists(order, c)
}

/// Whether `order` lists `c`.
pub open spec fn lists(order: Seq<usize>, c: int) -> bool {
    exists|i: int| 0 <= i < order.len() && #[trigger] order[i] == c
}

/// `0, 1, …, n - 1`.
fn sequential(n: usize) -> (v: Vec<usize>)
    ensures
        v@ == Seq::new(n as nat, |i: int| i as usize),
        is_permutation(v@, n as nat),
{
    let mut v: Vec<usize> = Vec::new();
    let mut i: usize = 0;
    while i < n
        invariant
            i <= n,
            v@ == Seq::new(i as nat, |k: int| k as usize),
        decreases n - i,
    {
        v.push(i);
        i = i + 1;
        assert(v@ =~= Seq::new(i as nat, |k: int| k as usize));
    }
    assert forall|c: int| 0 <= c < n implies #[trigger] lists(v@, c) by {
        assert(v@[c] == c);
    }
    v
}

/// Whether `order` lists each of `0..n` exactly once, checked.
fn check_permutation(order: &Vec<usize>, n: usize) -> (b: bool)
    ensures
        b == is_permutation(order@, n as nat),
{
    if order.len() != n {
        return false;
    }
    let mut seen: Vec<bool> = Vec::new();
    let mut i: usize = 0;
    while i < n
        invariant
            i <= n,
            seen@.len() == i,
            forall|k: int| 0 <= k < i ==> !(#[trigger] seen@[k]),
        decreases n - i,
    {
        seen.push(false);
        i = i + 1;
    }
    let mut k: usize = 0;
    while k < order.len()
        invariant
            k <= order@.len(),
            order@.len() == n,
            seen@.len() == n,
            forall|j: int| 0 <= j < k ==> #[trigger] order@[j] < n && seen@[order@[j] as int],
            forall|j1: int, j2: int| 0 <= j1 < j2 < k ==> order@[j1] != order@[j2],
            forall|c: int| 0 <= c < n && #[trigger] seen@[c] ==> exists|j: int| 0 <= j < k && order@[j] == c,
        decreases order@.len() - k,
    {
        let c = order[k];
        if c >= n || seen[c] {
            proof {
                if c < n {
                    let j = choose|j: int| 0 <= j < k && order@[j] == c;
                    assert(order@[j] == order@[k as int]);
                }
            }
            return false;
        }
        let ghost prev = seen@;
        seen.set(c, true);
        proof {
            assert forall|c2: int| 0 <= c2 < n && #[trigger] seen@[c2] implies exists|j: int| 0 <= j < k + 1 && order@[j] == c2 by {
                if c2 != c {
                    assert(prev[c2]);
                } else {
                    assert(order@[k as int] == c2);
                }
            }
        }
        k = k + 1;
    }
    let mut c: usize = 0;
    while c < n
        invariant
            c <= n,
            seen@.len() == n,
            order@.len() == n,
            forall|q: int| 0 <= q < c ==> #[trigger] seen@[q],
            forall|j: int| 0 <= j < order@.len() ==> #[trigger] order@[j] < n && seen@[order@[j] as int],
        decreases n - c,
    {
        if !seen[c] {
            proof {
                if lists(order@, c as int) {
                    let j = choose|j: int| 0 <= j < order@.len() && #[trigger] order@[j] == c;
                    assert(seen@[order@[j] as int]);
                }
            }
            return false;
        }
        c = c + 1;
    }
    proof {
        assert forall|q: int| 0 <= q < n implies #[trigger] lists(order@, q) by {
            assert(seen@[q]);
        }
    }
    true
}

/// The visit order of `n` cells: the LFSR walk whose maximal period covers `n` when it
/// lists every cell once, and `0..n` otherwise (or when `n` is at most 1 or beyond an
/// 11-bit register).
pub open spec fn lfsr_order_spec(n: nat) -> Seq<usize> {
    if n <= 1 || n > 2047 {
        Seq::new(n, |i: int| i as usize)
    } else {
        let (w, period) = width_for(2, 3, n as int);
        let walk = lfsr_walk(1, tap_of(w), n as int, 0, period);
        if is_permutation(walk, n) { walk } else { Seq::new(n, |i: int| i as usize) }
    }
}

/// The order in which `n` cells are revealed: the visit order of the LFSR whose
/// maximal period covers `n` (its values `1..=n`, less one), or `0..n` when `n` is at
/// most 1 or beyond an 11-bit register. The order is checked to be a permutation
/// (falling back to `0..n` otherwise), so every cell is revealed exactly once.
pub fn lfsr_order(n: usize) -> (order: Vec<usize>)
    ensures
        order@ == lfsr_order_spec(n as nat),
        is_permutation(order@, n as nat),
        n <= 1 || n > 2047 ==> order@ == Seq::new(n as nat, |i: int| i as usize),
        2 <= n <= 2047 ==> ({
            let (w, period) = width_for(2, 3, n as int);
            let walk = lfsr_walk(1, tap_of(w), n as int, 0, period);
            order@ == if is_permutation(walk, n as nat) { walk } else { Seq::new(n as nat, |i: int| i as usize) }
        }),
{
    if n <= 1 {
        return sequential(n);
    }
    let mut width: u32 = 2;
    let mut period: usize = 3;
    while width < 12 && period < n
        invariant
            2 <= width <= 12,
            width_for(2, 3, n as int) == width_for(width as int, period as int, n as int),
            width > 2 ==> (period - 1) / 2 < n,
            width == 2 ==> period == 3,
            width == 3 ==> period == 7,
            width == 4 ==> period == 15,
            width == 5 ==> period == 31,
            width == 6 ==> period == 63,
            width == 7 ==> period == 127,
            width == 8 ==> period == 255,
            width == 9 ==> period == 511,
            width == 10 ==> period == 1023,
            width == 11 ==> period == 2047,
            width == 12 ==> period == 4095,
        decreases 12 - width,
    {
        width = width + 1;
        period = 2 * period + 1;
    }
    if width > 11 {
        return sequential(n);
    }
    let mask = lfsr_tap(width);
    let mut order: Vec<usize> = Vec::new();
    let mut lfsr: u16 = 1;
    let mut steps: usize = 0;
    let ghost walk = lfsr_walk(1, mask, n as int, 0, period as int);
    loop
        invariant_except_break
            steps < period,
            walk == order@ + lfsr_walk(lfsr, mask, n as int, steps as int, period as int),
        invariant
            period <= 2047,
            walk == lfsr_walk(1, mask, n as int, 0, period as int),
        ensures
            walk == order@,
        decreases period - steps,
    {
        let ghost x = lfsr;
        let ghost before = order@;
        let v = lfsr as usize;
        if v >= 1 && v <= n {
            order.push(v - 1);
        }
        let lsb = lfsr & 1;
        lfsr = lfsr >> 1;
        if lsb != 0 {
            lfsr = lfsr ^ mask;
        }
        assert(lfsr == galois(x, mask));
        steps = steps + 1;
        if lfsr == 1 || steps >= period {
            proof {
                assert(order@ =~= before + lfsr_walk(x, mask, n as int, (steps - 1) as int, period as int));
            }
            break;
        }
        proof {
            let head: Seq<usize> = if 1 <= x <= n { seq![(x - 1) as usize] } else { Seq::empty() };
            assert(order@ =~= before + head);
            assert(lfsr_walk(x, mask, n as int, (steps - 1) as int, period as int) == head + lfsr_walk(
                lfsr,
                mask,
                n as int,
                steps as int,
                period as int,
            ));
            assert(walk =~= order@ + lfsr_walk(lfsr, mask, n as int, steps as int, period as int));
        }
    }
    if check_permutation(&order, n) {
        order
    } else {
        sequential(n)
    }
}

/// The cell of pixel `(x, y)` in a grid `cells_x` cells wide.
pub open spec fn pixel_cell(cells_x: int, x: int, y: int) -> int {
    (y / 16) * cells_x + x / 16
}

/// Whether cell `c` is among the first `r` cells of `order`.
pub open spec fn shown(order: Seq<usize>, r: int, c: int) -> bool {
    exists|j: int| 0 <= j < r && #[trigger] order[j] == c
}

/// An in-progress tiled dissolve from one surface to another.
pub struct Dissolve {
    work: Surface,
    to: Surface,
    order: Vec<usize>,
    revealed: usize,
    per_step: usize,
    cells_x: u16,
    from: Ghost<Seq<u8>>,
}

impl Dissolve {
    /// The state's invariant: the working image shows the destination in every cell
    /// revealed so far and the source everywhere else, and the visit order lists every
    /// cell once.
    pub closed spec fn wf(&self) -> bool {
        let w = self.work.width as int;
        let h = self.work.height as int;
        &&& self.work.wf()
        &&& self.to.wf()
        &&& self.to.width == self.work.width
        &&& self.to.height == self.work.height
        &&& self.cells_x == (w + 15) / 16
        &&& is_permutation(self.order@, (self.cells_x * ((h + 15) / 16)) as nat)
        &&& self.revealed <= self.order@.len()
        &&& self.per_step >= 1
        &&& self.from@.len() == self.work.pixels@.len()
        &&& forall|x: int, y: int|
            #![trigger self.work.at(x, y)]
            self.work.inside(x, y) ==> self.work.at(x, y) == if shown(
                self.order@,
                self.revealed as int,
                pixel_cell(self.cells_x as int, x, y),
            ) {
                self.to.at(x, y)
            } else {
                self.from@[cell(w, x, y)]
            }
    }

    /// The working image.
    pub closed spec fn image_spec(&self) -> Surface {
        self.work
    }

    /// The destination.
    pub closed spec fn dest_spec(&self) -> Surface {
        self.to
    }

    /// The source image's pixels.
    pub closed spec fn source_spec(&self) -> Seq<u8> {
        self.from@
    }

    /// Cells revealed so far, and the total.
    pub closed spec fn progress(&self) -> (nat, nat) {
        (self.revealed as nat, self.order@.len())
    }

    /// The order in which the cells are revealed.
    pub closed spec fn order_spec(&self) -> Seq<usize> {
        self.order@
    }

    /// Cells revealed per step.
    pub closed spec fn batch(&self) -> nat {
        self.per_step as nat
    }
}

/// Equal quotient-and-remainder pairs are equal.
proof fn lemma_unique_split(a: int, b: int, c: int, d: int, m: int)
    requires
        m > 0,
        0 <= b < m,
        0 <= d < m,
        a * m + b == c * m + d,
    ensures
        a == c,
        b == d,
{
    if a < c {
        assert(a * m + b < c * m + d) by (nonlinear_arith)
            requires
                a < c,
                m > 0,
                0 <= b < m,
                0 <= d,
        ;
    } else if a > c {
        assert(c * m + d < a * m + b) by (nonlinear_arith)
            requires
                c < a,
                m > 0,
                0 <= d < m,
                0 <= b,
        ;
    }
}

/// A pixel lies in the rectangle of cell `c` exactly when its cell is `c`.
proof fn lemma_in_cell(w: int, h: int, cx: int, c: int, x: int, y: int)
    requires
        0 <= x < w,
        0 <= y < h,
        cx == (w + 15) / 16,
        cx > 0,
        0 <= c,
    ensures
        pixel_cell(cx, x, y) == c <==> ((c % cx) * 16 <= x < (c % cx) * 16 + 16 && (c / cx) * 16 <= y < (c / cx) * 16 + 16),
{
    let q = c / cx;
    let r = c % cx;
    assert(c == q * cx + r && 0 <= r < cx) by (nonlinear_arith)
        requires
            cx > 0,
            q == c / cx,
            r == c % cx,
    ;
    assert(x / 16 < cx);
    assert(0 <= y / 16);
    if pixel_cell(cx, x, y) == c {
        lemma_unique_split(y / 16, x / 16, q, r, cx);
    }
    if r * 16 <= x < r * 16 + 16 && q * 16 <= y < q * 16 + 16 {
        assert(x / 16 == r);
        assert(y / 16 == q);
    }
}

/// Every pixel's cell is one of the grid's cells.
proof fn lemma_cell_in_grid(w: int, h: int, x: int, y: int)
    requires
        0 <= x < w,
        0 <= y < h,
    ensures
        0 <= pixel_cell((w + 15) / 16, x, y) < ((w + 15) / 16) * ((h + 15) / 16),
{
    let cx = (w + 15) / 16;
    let cy = (h + 15) / 16;
    assert(x / 16 < cx);
    assert(y / 16 < cy);
    assert(0 <= (y / 16) * cx + x / 16 < cx * cy) by (nonlinear_arith)
        requires
            0 <= x / 16 < cx,
            0 <= y / 16 < cy,
    ;
}

impl Dissolve {
    /// Begin a dissolve from `from` to `to` (same dimensions), spread over about
    /// [`STEPS`] frames of [`CELL`]-pixel cells in LFSR order.
    pub fn new(from: Surface, to: Surface) -> (d: Self)
        requires
            from.wf(),
            to.wf(),
            to.width == from.width,
            to.height == from.height,
        ensures
            d.wf(),
            d.image_spec() == from,
            d.dest_spec() == to,
            d.source_spec() == from.pixels@,
            d.progress() == (0nat, (((from.width + 15) / 16) * ((from.height + 15) / 16)) as nat),
            d.order_spec() == lfsr_order_spec((((from.width + 15) / 16) * ((from.height + 15) / 16)) as nat),
            d.batch() == if d.progress().1 == 0 { 1 } else { (d.progress().1 + 19) / 20 },
    {
        let cells_x: u16 = ((from.width as u32 + 15) / 16) as u16;
        let cells_y: u16 = ((from.height as u32 + 15) / 16) as u16;
        assert(cells_x <= 4096 && cells_y <= 4096);
        assert((cells_x as int) * (cells_y as int) <= 4096 * 4096) by (nonlinear_arith)
            requires
                cells_x <= 4096,
                cells_y <= 4096,
        ;
        let num = cells_x as usize * cells_y as usize;
        let order = lfsr_order(num);
        let q = (num + 19) / 20;
        let per_step = if q < 1 { 1 } else { q };
        let ghost src = from.pixels@;
        let d = Dissolve { work: from, to, order, revealed: 0, per_step, cells_x, from: Ghost(src) };
        proof {
            assert forall|x: int, y: int|
                #![trigger d.work.at(x, y)]
                d.work.inside(x, y) implies d.work.at(x, y) == if shown(d.order@, 0, pixel_cell(d.cells_x as int, x, y)) {
                    d.to.at(x, y)
                } else {
                    d.from@[cell(d.work.width as int, x, y)]
                } by {
                assert(!shown(d.order@, 0, pixel_cell(d.cells_x as int, x, y)));
            }
        }
        d
    }

    /// Whether every cell has been revealed (the dissolve has reached the destination).
    pub fn done(&self) -> (b: bool)
        ensures
            b == (self.progress().0 >= self.progress().1),
    {
        self.revealed >= self.order.len()
    }

    /// The current composited image (without advancing).
    pub fn image(&self) -> (s: &Surface)
        ensures
            *s == self.image_spec(),
    {
        &self.work
    }

    /// Reveal the next batch of cells and return the current composited image.
    pub fn step(&mut self) -> (s: &Surface)
        requires
            old(self).wf(),
        ensures
            final(self).wf(),
            final(self).image_spec().width == final(self).dest_spec().width,
            final(self).image_spec().height == final(self).dest_spec().height,
            final(self).dest_spec() == old(self).dest_spec(),
            final(self).source_spec() == old(self).source_spec(),
            final(self).batch() == old(self).batch(),
            final(self).order_spec() == old(self).order_spec(),
            final(self).progress().1 == old(self).progress().1,
            final(self).progress().0 == if old(self).progress().0 + old(self).batch() < old(self).progress().1 {
                old(self).progress().0 + old(self).batch()
            } else {
                old(self).progress().1
            },
            *s == final(self).image_spec(),
    {
        let len = self.order.len();
        let end = if self.per_step < len - self.revealed { self.revealed + self.per_step } else { len };
        let mut i = self.revealed;
        while i < end
            invariant
                self.wf(),
                old(self).revealed <= i <= end <= self.order@.len(),
                self.revealed == i,
                self.order@ == old(self).order@,
                self.to == old(self).to,
                self.from@ == old(self).from@,
                self.per_step == old(self).per_step,
                self.cells_x == old(self).cells_x,
            decreases end - i,
        {
            let c = self.order[i];
            self.reveal_cell(c);
            i = i + 1;
            self.revealed = i;
            proof {
                let w = self.work.width as int;
                assert forall|x: int, y: int|
                    #![trigger self.work.at(x, y)]
                    self.work.inside(x, y) implies self.work.at(x, y) == if shown(
                        self.order@,
                        i as int,
                        pixel_cell(self.cells_x as int, x, y),
                    ) {
                        self.to.at(x, y)
                    } else {
                        self.from@[cell(w, x, y)]
                    } by {
                    let pc = pixel_cell(self.cells_x as int, x, y);
                    if shown(self.order@, i - 1, pc) {
                        let j = choose|j: int| 0 <= j < i - 1 && #[trigger] self.order@[j] == pc;
                        assert(self.order@[j] == pc);
                    }
                    if pc == c {
                        assert(self.order@[i - 1] == pc);
                    }
                }
            }
        }
        &self.work
    }

    /// Consume the dissolve, yielding the destination surface (for the final frame).
    pub fn into_destination(self) -> (s: Surface)
        ensures
            s == self.dest_spec(),
    {
        self.to
    }

    /// Copy one cell from the destination into the working image.
    fn reveal_cell(&mut self, c: usize)
        requires
            old(self).work.wf(),
            old(self).to.wf(),
            old(self).to.width == old(self).work.width,
            old(self).to.height == old(self).work.height,
            old(self).cells_x == (old(self).work.width + 15) / 16,
            c < old(self).cells_x * ((old(self).work.height + 15) / 16),
        ensures
            final(self).work.wf(),
            final(self).work.width == old(self).work.width,
            final(self).work.height == old(self).work.height,
            final(self).to == old(self).to,
            final(self).order == old(self).order,
            final(self).revealed == old(self).revealed,
            final(self).per_step == old(self).per_step,
            final(self).cells_x == old(self).cells_x,
            final(self).from == old(self).from,
            forall|x: int, y: int|
                #![trigger final(self).work.at(x, y)]
                old(self).work.inside(x, y) ==> final(self).work.at(x, y) == if pixel_cell(
                    old(self).cells_x as int,
                    x,
                    y,
                ) == c {
                    old(self).to.at(x, y)
                } else {
                    old(self).work.at(x, y)
                },
    {
        let w = self.work.width as usize;
        let h = self.work.height as usize;
        let cxn = self.cells_x as usize;
        let ghost old_work = self.work;
        proof {
            assert(cxn > 0) by (nonlinear_arith)
                requires
                    c < cxn * ((h + 15) / 16),
                    c >= 0,
                    cxn >= 0,
                    h >= 0,
            ;
            assert(c / cxn < (h + 15) / 16) by (nonlinear_arith)
                requires
                    c < cxn * ((h + 15) / 16),
                    cxn > 0,
            ;
        }
        let cx0 = (c % cxn) * 16;
        let cy0 = (c / cxn) * 16;
        let x1 = if cx0 + 16 < w { cx0 + 16 } else { w };
        let y1 = if cy0 + 16 < h { cy0 + 16 } else { h };
        let mut y = cy0;
        while y < y1
            invariant
                self.work.wf(),
                self.work.width == old_work.width,
                self.work.height == old_work.height,
                self.to == old(self).to,
                self.order == old(self).order,
                self.revealed == old(self).revealed,
                self.per_step == old(self).per_step,
                self.cells_x == old(self).cells_x,
                self.from == old(self).from,
                self.to.wf(),
                self.to.width == old_work.width,
                self.to.height == old_work.height,
                w == old_work.width,
                h == old_work.height,
                cy0 <= y <= y1,
                y1 <= h,
                x1 <= w,
                cx0 <= x1,
                x1 == (if cx0 + 16 < w { cx0 + 16 } else { w as int }),
                y1 == (if cy0 + 16 < h { cy0 + 16 } else { h as int }),
                forall|px: int, py: int|
                    #![trigger self.work.at(px, py)]
                    old_work.inside(px, py) ==> self.work.at(px, py) == if cx0 <= px < x1 && cy0 <= py < y {
                        self.to.at(px, py)
                    } else {
                        old_work.at(px, py)
                    },
            decreases y1 - y,
        {
            let mut x = cx0;
            while x < x1
                invariant
                    self.work.wf(),
                    self.work.width == old_work.width,
                    self.work.height == old_work.height,
                    self.to == old(self).to,
                    self.order == old(self).order,
                    self.revealed == old(self).revealed,
                    self.per_step == old(self).per_step,
                    self.cells_x == old(self).cells_x,
                    self.from == old(self).from,
                    self.to.wf(),
                    self.to.width == old_work.width,
                    self.to.height == old_work.height,
                    w == old_work.width,
                    h == old_work.height,
                    cy0 <= y < y1,
                    y1 <= h,
                    x1 <= w,
                    cx0 <= x <= x1,
                    forall|px: int, py: int|
                        #![trigger self.work.at(px, py)]
                        old_work.inside(px, py) ==> self.work.at(px, py) == if cx0 <= px < x1 && (cy0 <= py < y || (py == y && px < x)) {
                            self.to.at(px, py)
                        } else {
                            old_work.at(px, py)
                        },
                decreases x1 - x,
            {
                proof {
                    crate::engine::surface::lemma_cell(w as int, h as int, x as int, y as int);
                    crate::dgds::scr::lemma_u16_product(self.work.width, self.work.height);
                    assert((y as int) * (w as int) <= (y as int) * (w as int) + (x as int));
                }
                let idx = y * w + x;
                let p = self.to.pixels[idx];
                let ghost before = self.work;
                self.work.pixels.set(idx, p);
                proof {
                    assert forall|px: int, py: int|
                        #![trigger self.work.at(px, py)]
                        old_work.inside(px, py) implies self.work.at(px, py) == if cx0 <= px < x1 && (cy0 <= py < y || (py == y && px < x + 1)) {
                            self.to.at(px, py)
                        } else {
                            old_work.at(px, py)
                        } by {
                        crate::engine::surface::lemma_cell(w as int, h as int, px, py);
                        if px != x || py != y {
                            assert(cell(w as int, px, py) != cell(w as int, x as int, y as int));
                            assert(self.work.at(px, py) == before.at(px, py));
                        }
                    }
                }
                x = x + 1;
            }
            y = y + 1;
        }
        proof {
            assert forall|x: int, y: int|
                #![trigger self.work.at(x, y)]
                old_work.inside(x, y) implies self.work.at(x, y) == if pixel_cell(cxn as int, x, y) == c {
                    self.to.at(x, y)
                } else {
                    old_work.at(x, y)
                } by {
                lemma_in_cell(w as int, h as int, cxn as int, c as int, x, y);
            }
        }
    }
}

/// Once every cell is revealed, the dissolve shows exactly the destination: the same
/// size and the same pixels.
pub proof fn lemma_done_shows_destination(d: &Dissolve)
    requires
        d.wf(),
        d.progress().0 >= d.progress().1,
    ensures
        d.image_spec().width == d.dest_spec().width,
        d.image_spec().height == d.dest_spec().height,
        d.image_spec().pixels@ == d.dest_spec().pixels@,
{
    let work = d.image_spec();
    let to = d.dest_spec();
    let w = work.width as int;
    let h = work.height as int;
    assert forall|i: int| 0 <= i < work.pixels@.len() implies work.pixels@[i] == to.pixels@[i] by {
        let x = i % w;
        let y = i / w;
        assert(w > 0 && 0 <= x < w && 0 <= y < h && i == y * w + x) by (nonlinear_arith)
            requires
                0 <= i < w * h,
                x == i % w,
                y == i / w,
                w >= 0,
                h >= 0,
        ;
        lemma_cell_in_grid(w, h, x, y);
        lemma_dissolve_pixel(d, x, y);
    }
    assert(work.pixels@ =~= to.pixels@);
}

/// What a dissolve shows between steps: at each pixel, the destination's pixel once the
/// pixel's 16-pixel cell is among the cells revealed so far, and the source's otherwise.
pub proof fn lemma_dissolve_image(d: &Dissolve, x: int, y: int)
    requires
        d.wf(),
        d.image_spec().inside(x, y),
    ensures
        d.image_spec().width == d.dest_spec().width,
        d.image_spec().height == d.dest_spec().height,
        d.image_spec().at(x, y) == if shown(
            d.order_spec(),
            d.progress().0 as int,
            pixel_cell((d.image_spec().width + 15) / 16, x, y),
        ) {
            d.dest_spec().at(x, y)
        } else {
            d.source_spec()[cell(d.image_spec().width as int, x, y)]
        },
{
}

/// A pixel of a finished dissolve is the destination's.
proof fn lemma_dissolve_pixel(d: &Dissolve, x: int, y: int)
    requires
        d.wf(),
        d.progress().0 >= d.progress().1,
        d.image_spec().inside(x, y),
    ensures
        d.image_spec().at(x, y) == d.dest_spec().at(x, y),
{
    let w = d.work.width as int;
    let h = d.work.height as int;
    lemma_cell_in_grid(w, h, x, y);
    let pc = pixel_cell(d.cells_x as int, x, y);
    assert(lists(d.order@, pc));
    let j = choose|j: int| 0 <= j < d.order@.len() && #[trigger] d.order@[j] == pc;
    assert(shown(d.order@, d.revealed as int, pc));
}

} // verus!
