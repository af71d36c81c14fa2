//! Routes between the island's six spots (A–F), over a route stream: for each spot the
//! walk may stand on, a weighted list of the spots it may step to next (the weights of
//! a list sum to 100 in the game's streams).
//!
//! A walk picks its route step by step: standing on a spot, it rolls against that spot's
//! list to choose the next spot, until it reaches the destination. All the simple routes
//! a stream allows can also be listed.
use vstd::prelude::*;
use crate::engine::rng::{Rng, draw, xorshift};

verus! {

/// Number of island spots (A–F).
pub const NUM_OF_NODES: usize = 6;

/// The weighted moves a route stream offers at one spot.
#[derive(Debug, Clone)]
pub struct Section {
    /// The spot these moves start from.
    pub cursor: u8,
    /// The `(next spot, weight)` choices.
    pub moves: Vec<(u8, u8)>,
}

/// The moves of the first section of `stream` for `cursor`, if any.
pub open spec fn section_of(stream: Seq<Section>, cursor: u8) -> Option<Seq<(u8, u8)>>
    decreases stream.len(),
{
    if stream.len() == 0 {
        None
    } else if stream[0].cursor == cursor {
        Some(stream[0].moves@)
    } else {
        section_of(stream.drop_first(), cursor)
    }
}

/// Whether the stream offers a step from `a` to `b`.
pub open spec fn offers(stream: Seq<Section>, a: u8, b: u8) -> bool {
    section_of(stream, a) matches Some(m) && exists|j: int| 0 <= j < m.len() && #[trigger] m[j].0 == b
}

/// Whether step `k` of `p` is one the stream offers.
pub open spec fn hop_ok(stream: Seq<Section>, p: Seq<u8>, k: int) -> bool {
    offers(stream, p[k], p[k + 1])
}

/// Whether no spot occurs twice in `p`.
pub open spec fn simple(p: Seq<u8>) -> bool {
    forall|i: int, j: int| 0 <= i < j < p.len() ==> p[i] != p[j]
}

/// Whether `p` is a simple walk along steps the stream offers, ending at `to`.
pub open spec fn route_to(stream: Seq<Section>, p: Seq<u8>, to: u8) -> bool {
    &&& p.len() >= 1
    &&& p.last() == to
    &&& simple(p)
    &&& forall|k: int| 0 <= k < p.len() - 1 ==> #[trigger] hop_ok(stream, p, k)
}

/// Whether `p` is a simple route from `from` to `to` along steps the stream offers.
pub open spec fn is_route(stream: Seq<Section>, p: Seq<u8>, from: u8, to: u8) -> bool {
    &&& route_to(stream, p, to)
    &&& p[0] == from
}

/// The sum of the first `n` weights of `m`.
pub open spec fn weight_sum(m: Seq<(u8, u8)>, n: int) -> int
    decreases n,
{
    if n <= 0 {
        0
    } else {
        weight_sum(m, n - 1) + m[n - 1].1
    }
}

/// Whether every section's weights add up to at most `u32::MAX`.
pub open spec fn stream_ok(stream: Seq<Section>) -> bool {
    forall|i: int| 0 <= i < stream.len() ==> weight_sum(#[trigger] stream[i].moves@, stream[i].moves@.len() as int) <= u32::MAX
}

/// The spot a roll of `roll` picks among the moves of `m` from `k` on: the first whose
/// weight exceeds what is left of the roll (each earlier weight taken off it), or the
/// last move.
pub open spec fn pick_at(m: Seq<(u8, u8)>, roll: int, k: int) -> u8
    decreases m.len() - k,
{
    if k >= m.len() - 1 || k < 0 {
        m.last().0
    } else if roll < m[k].1 {
        m[k].0
    } else {
        pick_at(m, roll - m[k].1, k + 1)
    }
}

/// The spot a weighted pick at `cursor` chooses from generator state `st`, if the
/// stream offers a move there: the roll `draw(st) % total` against the weights.
pub open spec fn pick_spec(stream: Seq<Section>, cursor: u8, st: u64) -> Option<u8> {
    match section_of(stream, cursor) {
        None => None,
        Some(m) => if weight_sum(m, m.len() as int) == 0 {
            None
        } else {
            Some(pick_at(m, (draw(st) as int) % weight_sum(m, m.len() as int), 0))
        },
    }
}

/// The walk from the end of `route` toward `to` from generator state `st`: each step
/// a weighted pick, until `to` is reached, the pick fails or revisits a spot, or the
/// route holds more than [`NUM_OF_NODES`] spots; with the generator state after.
pub open spec fn wander(stream: Seq<Section>, to: u8, route: Seq<u8>, st: u64) -> (Seq<u8>, u64)
    decreases 7 - route.len(),
{
    if route.len() == 0 || route.last() == to || route.len() > NUM_OF_NODES {
        (route, st)
    } else {
        match pick_spec(stream, route.last(), st) {
            None => (route, st),
            Some(next) => if route.contains(next) {
                (route, xorshift(st))
            } else {
                wander(stream, to, route.push(next), xorshift(st))
            },
        }
    }
}

/// Weights only add up.
proof fn lemma_weight_mono(m: Seq<(u8, u8)>, k: int, n: int)
    requires
        0 <= k <= n,
    ensures
        weight_sum(m, k) <= weight_sum(m, n),
    decreases n - k,
{
    if k < n {
        lemma_weight_mono(m, k, n - 1);
    }
}

/// A pick is one of the moves on offer.
proof fn lemma_pick_offered(m: Seq<(u8, u8)>, roll: int, k: int)
    requires
        m.len() > 0,
        0 <= k,
    ensures
        exists|j: int| 0 <= j < m.len() && #[trigger] m[j].0 == pick_at(m, roll, k),
    decreases m.len() - k,
{
    if k >= m.len() - 1 {
        assert(m[m.len() - 1].0 == pick_at(m, roll, k));
    } else if roll < m[k].1 {
        assert(m[k].0 == pick_at(m, roll, k));
    } else {
        lemma_pick_offered(m, roll - m[k].1, k + 1);
    }
}

/// A simple sequence of bytes holds at most 256 of them.
proof fn lemma_simple_len(p: Seq<u8>)
    requires
        simple(p),
    ensures
        p.len() <= 256,
{
    let q = p.map_values(|x: u8| x as int);
    assert(q.no_duplicates()) by {
        assert forall|i: int, j: int| 0 <= i < q.len() && 0 <= j < q.len() && i != j implies q[i] != q[j] by {
            if i < j {
                assert(p[i] != p[j]);
            } else {
                assert(p[j] != p[i]);
            }
        }
    }
    q.unique_seq_to_set();
    vstd::set_lib::lemma_int_range(0, 256);
    assert(q.to_set().subset_of(vstd::set_lib::set_int_range(0, 256))) by {
        assert forall|x: int| q.to_set().contains(x) implies vstd::set_lib::set_int_range(0, 256).contains(x) by {
            let i = choose|i: int| 0 <= i < q.len() && q[i] == x;
            assert(q[i] == p[i] as int);
        }
    }
    vstd::set_lib::lemma_len_subset(q.to_set(), vstd::set_lib::set_int_range(0, 256));
}

/// Where the walk stops, it stands on a simple route along offered steps from the start
/// of `route`; when it has reached `to`, that route ends there.
proof fn lemma_wander_route(stream: Seq<Section>, to: u8, route: Seq<u8>, st: u64)
    requires
        route.len() >= 1,
        simple(route),
        forall|k: int| 0 <= k < route.len() - 1 ==> #[trigger] hop_ok(stream, route, k),
    ensures
        wander(stream, to, route, st).0.len() >= route.len(),
        wander(stream, to, route, st).0[0] == route[0],
        wander(stream, to, route, st).0.last() == to ==> route_to(stream, wander(stream, to, route, st).0, to),
    decreases 7 - route.len(),
{
    if route.last() == to || route.len() > NUM_OF_NODES {
    } else {
        match pick_spec(stream, route.last(), st) {
            None => {},
            Some(next) => {
                if !route.contains(next) {
                    let m = section_of(stream, route.last())->Some_0;
                    let total = weight_sum(m, m.len() as int);
                    lemma_pick_offered(m, (draw(st) as int) % total, 0);
                    let r2 = route.push(next);
                    assert(simple(r2)) by {
                        assert forall|i: int, j: int| 0 <= i < j < r2.len() implies r2[i] != r2[j] by {
                            if j == r2.len() - 1 {
                                assert(r2[i] == route[i]);
                                if route[i] == next {
                                    assert(route.contains(next));
                                }
                            } else {
                                assert(r2[i] == route[i] && r2[j] == route[j]);
                            }
                        }
                    }
                    assert forall|k: int| 0 <= k < r2.len() - 1 implies #[trigger] hop_ok(stream, r2, k) by {
                        if k < route.len() - 1 {
                            assert(hop_ok(stream, route, k));
                            assert(r2[k] == route[k] && r2[k + 1] == route[k + 1]);
                        } else {
                            assert(r2[k] == route.last() && r2[k + 1] == next);
                        }
                    }
                    lemma_wander_route(stream, to, r2, xorshift(st));
                }
            },
        }
    }
}

/// The index of the first section of `stream` for `cursor`, if any.
fn section(stream: &[Section], cursor: u8) -> (r: Option<usize>)
    ensures
        match r {
            Some(i) => i < stream@.len() && section_of(stream@, cursor) == Some(stream@[i as int].moves@),
            None => section_of(stream@, cursor) is None,
        },
{
    let mut i: usize = 0;
    proof {
        assert(stream@.skip(0) =~= stream@);
    }
    while i < stream.len()
        invariant
            i <= stream@.len(),
            section_of(stream@, cursor) == section_of(stream@.skip(i as int), cursor),
        decreases stream@.len() - i,
    {
        proof {
            assert(stream@.skip(i as int)[0] == stream@[i as int]);
            assert(stream@.skip(i as int).drop_first() =~= stream@.skip(i + 1));
        }
        if stream[i].cursor == cursor {
            return Some(i);
        }
        i = i + 1;
    }
    None
}

/// Weighted random pick of the next spot from `cursor`: `rng.below(total)` against the
/// section's weights in order. `None` where the stream offers no move (a dead end).
fn pick_next(stream: &[Section], cursor: u8, rng: &mut Rng) -> (r: Option<u8>)
    requires
        stream_ok(stream@),
    ensures
        r == pick_spec(stream@, cursor, old(rng).state()),
        final(rng).state() == if r is Some {
            xorshift(old(rng).state())
        } else {
            old(rng).state()
        },
{
    let si = match section(stream, cursor) {
        Some(i) => i,
        None => return None,
    };
    let moves = &stream[si].moves;
    let ghost m = moves@;
    let mut total: u64 = 0;
    let mut k: usize = 0;
    while k < moves.len()
        invariant
            m == moves@,
            k <= m.len(),
            total == weight_sum(m, k as int),
            weight_sum(m, m.len() as int) <= u32::MAX,
        decreases m.len() - k,
    {
        proof {
            lemma_weight_mono(m, k + 1, m.len() as int);
        }
        total = total + moves[k].1 as u64;
        k = k + 1;
    }
    if total == 0 {
        return None;
    }
    let t = total as u32;
    let mut roll = rng.below(t);
    let ghost roll0 = roll as int;
    let mut j: usize = 0;
    while j < moves.len()
        invariant
            m == moves@,
            j <= m.len(),
            m.len() > 0,
            roll0 == (draw(old(rng).state()) as int) % (t as int),
            roll + weight_sum(m, j as int) == roll0,
            roll0 < weight_sum(m, m.len() as int),
            pick_at(m, roll0, 0) == pick_at(m, roll as int, j as int),
            t as int == weight_sum(m, m.len() as int),
            t > 0,
            section_of(stream@, cursor) == Some(m),
            rng.state() == xorshift(old(rng).state()),
        decreases m.len() - j,
    {
        let w = moves[j].1 as u32;
        if roll < w {
            proof {
                assert(pick_at(m, roll as int, j as int) == m[j as int].0);
                assert(pick_spec(stream@, cursor, old(rng).state()) == Some(pick_at(m, roll0, 0)));
            }
            return Some(moves[j].0);
        }
        if j + 1 == moves.len() {
            proof {
                assert(roll + weight_sum(m, j + 1) == roll0 + w);
                assert(false);
            }
        }
        roll = roll - w;
        j = j + 1;
    }
    proof {
        assert(roll0 >= weight_sum(m, m.len() as int));
    }
    Some(moves[moves.len() - 1].0)
}

/// Whether `v` holds `x`.
fn has(v: &Vec<u8>, x: u8) -> (b: bool)
    ensures
        b == v@.contains(x),
{
    let mut i: usize = 0;
    while i < v.len()
        invariant
            i <= v@.len(),
            forall|k: int| 0 <= k < i ==> v@[k] != x,
        decreases v@.len() - i,
    {
        if v[i] == x {
            assert(v@[i as int] == x);
            return true;
        }
        i = i + 1;
    }
    false
}

/// Whether `r` continues the walk `p`.
pub open spec fn extends(r: Seq<u8>, p: Seq<u8>) -> bool {
    p.len() <= r.len() && r.subrange(0, p.len() as int) == p
}

/// List every simple route from the end of `path` to `to` that continues `path`, each
/// as a whole walk from the start of `path`, after the routes already in `out`.
fn enumerate(stream: &[Section], cur: u8, to: u8, path: &mut Vec<u8>, out: &mut Vec<Vec<u8>>)
    requires
        old(path)@.len() >= 1,
        old(path)@.last() == cur,
        simple(old(path)@),
        forall|k: int| 0 <= k < old(path)@.len() - 1 ==> #[trigger] hop_ok(stream@, old(path)@, k),
    ensures
        final(path)@ == old(path)@,
        final(out)@.len() >= old(out)@.len(),
        forall|i: int| 0 <= i < old(out)@.len() ==> #[trigger] final(out)@[i] == old(out)@[i],
        forall|i: int|
            old(out)@.len() <= i < final(out)@.len() ==> route_to(stream@, #[trigger] final(out)@[i]@, to)
                && extends(final(out)@[i]@, old(path)@),
        forall|r: Seq<u8>|
            route_to(stream@, r, to) && #[trigger] extends(r, old(path)@) ==> exists|i: int|
                old(out)@.len() <= i < final(out)@.len() && #[trigger] final(out)@[i]@ == r,
    decreases 256 - old(path)@.len() as int,
{
    let ghost p0 = path@;
    let ghost o0 = out@;
    proof {
        lemma_simple_len(p0);
    }
    if cur == to {
        let c = path.clone();
        proof {
            assert(c@ =~= p0);
        }
        out.push(c);
        proof {
            assert(p0.subrange(0, p0.len() as int) =~= p0);
            assert forall|r: Seq<u8>| route_to(stream@, r, to) && #[trigger] extends(r, p0) implies exists|i: int|
                o0.len() <= i < out@.len() && #[trigger] out@[i]@ == r by {
                if r.len() > p0.len() {
                    assert(r[p0.len() - 1] == p0[p0.len() - 1]);
                    assert(r[r.len() - 1] == to);
                }
                assert(r =~= p0);
                assert(out@[o0.len() as int]@ == r);
            }
        }
        return;
    }
    let si = match section(stream, cur) {
        Some(i) => i,
        None => {
            proof {
                assert forall|r: Seq<u8>| route_to(stream@, r, to) && #[trigger] extends(r, p0) implies false by {
                    if r.len() > p0.len() {
                        assert(hop_ok(stream@, r, p0.len() - 1));
                        assert(r[p0.len() - 1] == p0[p0.len() - 1]);
                    } else {
                        assert(r =~= p0);
                    }
                }
            }
            return;
        },
    };
    let moves = &stream[si].moves;
    let ghost m = moves@;
    let mut tried: Vec<u8> = Vec::new();
    let mut k: usize = 0;
    while k < moves.len()
        invariant
            m == moves@,
            m == section_of(stream@, cur)->Some_0,
            section_of(stream@, cur) is Some,
            cur != to,
            k <= m.len(),
            path@ == p0,
            p0 == old(path)@,
            p0.len() >= 1,
            p0.last() == cur,
            simple(p0),
            p0.len() <= 256,
            forall|q: int| 0 <= q < p0.len() - 1 ==> #[trigger] hop_ok(stream@, p0, q),
            out@.len() >= o0.len(),
            forall|i: int| 0 <= i < o0.len() ==> #[trigger] out@[i] == o0[i],
            forall|i: int|
                o0.len() <= i < out@.len() ==> route_to(stream@, #[trigger] out@[i]@, to) && extends(out@[i]@, p0),
            forall|q: int| 0 <= q < k ==> p0.contains(#[trigger] m[q].0) || tried@.contains(m[q].0),
            forall|t: int|
                #![trigger tried@[t]]
                0 <= t < tried@.len() ==> forall|r: Seq<u8>|
                    route_to(stream@, r, to) && #[trigger] extends(r, p0.push(tried@[t])) ==> exists|i: int|
                        o0.len() <= i < out@.len() && #[trigger] out@[i]@ == r,
        decreases m.len() - k,
    {
        let next = moves[k].0;
        if has(path, next) || has(&tried, next) {
            k = k + 1;
            continue;
        }
        let ghost before = out@;
        let ghost tried0 = tried@;
        tried.push(next);
        path.push(next);
        proof {
            let p1 = p0.push(next);
            assert(path@ == p1);
            assert(simple(p1)) by {
                assert forall|i: int, j: int| 0 <= i < j < p1.len() implies p1[i] != p1[j] by {
                    if j == p1.len() - 1 {
                        assert(p1[i] == p0[i]);
                        if p0[i] == next {
                            assert(p0.contains(next));
                        }
                    } else {
                        assert(p1[i] == p0[i] && p1[j] == p0[j]);
                    }
                }
            }
            assert forall|q: int| 0 <= q < p1.len() - 1 implies #[trigger] hop_ok(stream@, p1, q) by {
                if q < p0.len() - 1 {
                    assert(hop_ok(stream@, p0, q));
                    assert(p1[q] == p0[q] && p1[q + 1] == p0[q + 1]);
                } else {
                    assert(p1[q] == cur && p1[q + 1] == next);
                    assert(m[k as int].0 == next);
                }
            }
        }
        proof {
            lemma_simple_len(path@);
            assert(path@.len() == p0.len() + 1);
            assert(256 - path@.len() < 256 - p0.len());
            assert(0 <= 256 - path@.len());
        }
        enumerate(stream, next, to, path, out);
        path.pop();
        proof {
            assert(path@ =~= p0);
            assert forall|i: int| 0 <= i < o0.len() implies #[trigger] out@[i] == o0[i] by {
                assert(out@[i] == before[i]);
            }
            assert forall|i: int| o0.len() <= i < out@.len() implies route_to(stream@, #[trigger] out@[i]@, to)
                && extends(out@[i]@, p0) by {
                if i < before.len() {
                    assert(out@[i] == before[i]);
                } else {
                    let r = out@[i]@;
                    assert(extends(r, p0.push(next)));
                    assert(r.subrange(0, p0.len() as int) =~= p0.push(next).subrange(0, p0.len() as int));
                    assert(p0.push(next).subrange(0, p0.len() as int) =~= p0);
                }
            }
            assert forall|t: int| #![trigger tried@[t]] 0 <= t < tried@.len() implies forall|r: Seq<u8>|
                route_to(stream@, r, to) && #[trigger] extends(r, p0.push(tried@[t])) ==> exists|i: int|
                    o0.len() <= i < out@.len() && #[trigger] out@[i]@ == r by {
                if t < tried0.len() {
                    assert(tried@[t] == tried0[t]);
                    assert forall|r: Seq<u8>| route_to(stream@, r, to) && #[trigger] extends(r, p0.push(tried@[t]))
                        implies exists|i: int| o0.len() <= i < out@.len() && #[trigger] out@[i]@ == r by {
                        let i = choose|i: int| o0.len() <= i < before.len() && #[trigger] before[i]@ == r;
                        assert(out@[i] == before[i]);
                    }
                } else {
                    assert(tried@[t] == next);
                }
            }
            assert forall|q: int| 0 <= q < k + 1 implies p0.contains(#[trigger] m[q].0) || tried@.contains(m[q].0) by {
                if q < k {
                    if tried0.contains(m[q].0) {
                        let w = choose|w: int| 0 <= w < tried0.len() && tried0[w] == m[q].0;
                        assert(tried@[w] == m[q].0);
                    }
                } else {
                    assert(tried@[tried@.len() - 1] == next);
                }
            }
        }
        k = k + 1;
    }
    proof {
        assert forall|r: Seq<u8>| route_to(stream@, r, to) && #[trigger] extends(r, p0) implies exists|i: int|
            o0.len() <= i < out@.len() && #[trigger] out@[i]@ == r by {
            if r.len() == p0.len() {
                assert(r =~= p0);
                assert(false);
            }
            let n = r[p0.len() as int];
            assert(r[p0.len() - 1] == p0[p0.len() - 1]);
            assert(hop_ok(stream@, r, p0.len() - 1));
            let q = choose|q: int| 0 <= q < m.len() && #[trigger] m[q].0 == n;
            assert(!p0.contains(n)) by {
                if p0.contains(n) {
                    let w = choose|w: int| 0 <= w < p0.len() && p0[w] == n;
                    assert(r[w] == p0[w]);
                }
            }
            assert(tried@.contains(n));
            let t = choose|t: int| 0 <= t < tried@.len() && tried@[t] == n;
            assert(r.subrange(0, p0.len() + 1 as int) =~= p0.push(n));
            assert(extends(r, p0.push(tried@[t])));
        }
    }
}

/// Every simple route from `from` to `to` that the route stream allows (each a list of
/// spots): none for a spot out of range, and `[from]` alone when `from == to`.
pub fn calc_paths(stream: &[Section], from: u8, to: u8) -> (r: Vec<Vec<u8>>)
    ensures
        from as usize >= NUM_OF_NODES || to as usize >= NUM_OF_NODES ==> r@.len() == 0,
        (from as usize) < NUM_OF_NODES && (to as usize) < NUM_OF_NODES ==> {
            &&& forall|i: int| 0 <= i < r@.len() ==> is_route(stream@, #[trigger] r@[i]@, from, to)
            &&& forall|p: Seq<u8>| #[trigger] is_route(stream@, p, from, to) ==> exists|i: int|
                0 <= i < r@.len() && #[trigger] r@[i]@ == p
        },
        (from as usize) < NUM_OF_NODES && from == to ==> r@.len() == 1 && r@[0]@ == seq![from],
{
    if from as usize >= NUM_OF_NODES || to as usize >= NUM_OF_NODES {
        return Vec::new();
    }
    if from == to {
        let mut out: Vec<Vec<u8>> = Vec::new();
        out.push(vec![from]);
        proof {
            assert(out@[0]@ =~= seq![from]);
            assert forall|p: Seq<u8>| #[trigger] is_route(stream@, p, from, to) implies exists|i: int|
                0 <= i < out@.len() && #[trigger] out@[i]@ == p by {
                if p.len() > 1 {
                    assert(p[0] == p[p.len() - 1]);
                }
                assert(p =~= seq![from]);
                assert(out@[0]@ == p);
            }
            assert(is_route(stream@, seq![from], from, to));
        }
        return out;
    }
    let mut out: Vec<Vec<u8>> = Vec::new();
    let mut path: Vec<u8> = vec![from];
    proof {
        assert(path@ =~= seq![from]);
    }
    enumerate(stream, from, to, &mut path, &mut out);
    proof {
        assert forall|i: int| 0 <= i < out@.len() implies is_route(stream@, #[trigger] out@[i]@, from, to) by {
            assert(extends(out@[i]@, seq![from]));
            assert(out@[i]@.subrange(0, 1)[0] == out@[i]@[0]);
        }
        assert forall|p: Seq<u8>| #[trigger] is_route(stream@, p, from, to) implies exists|i: int|
            0 <= i < out@.len() && #[trigger] out@[i]@ == p by {
            assert(p.subrange(0, 1) =~= seq![from]);
            assert(extends(p, seq![from]));
        }
    }
    out
}

/// Pick one route from `from` to `to` the original's way: a step-wise weighted walk over
/// the route stream (see [`wander`]). When the walk does not arrive, the first route
/// [`calc_paths`] lists is taken, or `[from]` when there is none; `[from]` also for a
/// spot out of range or `from == to`.
pub fn calc_path(stream: &[Section], from: u8, to: u8, rng: &mut Rng) -> (r: Vec<u8>)
    requires
        stream_ok(stream@),
    ensures
        ({
            let (walked, st) = wander(stream@, to, seq![from], old(rng).state());
            if from as usize >= NUM_OF_NODES || to as usize >= NUM_OF_NODES || from == to {
                r@ == seq![from] && final(rng).state() == old(rng).state()
            } else {
                &&& final(rng).state() == st
                &&& walked.last() == to ==> r@ == walked
                &&& walked.last() != to ==> {
                    &&& (exists|p: Seq<u8>| is_route(stream@, p, from, to)) ==> is_route(stream@, r@, from, to)
                    &&& !(exists|p: Seq<u8>| is_route(stream@, p, from, to)) ==> r@ == seq![from]
                }
            }
        }),
        (exists|p: Seq<u8>| is_route(stream@, p, from, to)) && (from as usize) < NUM_OF_NODES
            && (to as usize) < NUM_OF_NODES ==> is_route(stream@, r@, from, to),
{
    if from as usize >= NUM_OF_NODES || to as usize >= NUM_OF_NODES || from == to {
        let v = vec![from];
        proof {
            assert(v@ =~= seq![from]);
            if from == to && (from as usize) < NUM_OF_NODES {
                assert(route_to(stream@, v@, to));
            }
        }
        return v;
    }
    let ghost st0 = rng.state();
    let mut route: Vec<u8> = vec![from];
    let mut cur = from;
    proof {
        assert(route@ =~= seq![from]);
    }
    loop
        invariant_except_break
            wander(stream@, to, seq![from], st0) == wander(stream@, to, route@, rng.state()),
        invariant
            stream_ok(stream@),
            route@.len() >= 1,
            route@.len() <= NUM_OF_NODES + 1,
            route@.last() == cur,
        ensures
            wander(stream@, to, seq![from], st0) == (route@, rng.state()),
            route@.last() == cur,
        decreases NUM_OF_NODES + 1 - route@.len(),
    {
        if cur == to || route.len() > NUM_OF_NODES {
            proof {
                assert(wander(stream@, to, route@, rng.state()) == (route@, rng.state()));
            }
            break;
        }
        let ghost st = rng.state();
        let ghost rv = route@;
        match pick_next(stream, cur, rng) {
            Some(next) => {
                if has(&route, next) {
                    proof {
                        assert(wander(stream@, to, rv, st) == (rv, xorshift(st)));
                    }
                    break;
                }
                route.push(next);
                cur = next;
                proof {
                    assert(wander(stream@, to, rv, st) == wander(stream@, to, rv.push(next), xorshift(st)));
                }
            },
            None => {
                proof {
                    assert(wander(stream@, to, rv, st) == (rv, st));
                }
                break;
            },
        }
    }
    proof {
        assert(seq![from].len() == 1);
        lemma_wander_route(stream@, to, seq![from], st0);
    }
    if cur == to {
        return route;
    }
    let all = calc_paths(stream, from, to);
    if all.len() > 0 {
        let p = all[0].clone();
        proof {
            assert(p@ =~= all@[0]@);
        }
        p
    } else {
        let v = vec![from];
        proof {
            assert(v@ =~= seq![from]);
            assert forall|p: Seq<u8>| !is_route(stream@, p, from, to) by {
                if is_route(stream@, p, from, to) {
                    let i = choose|i: int| 0 <= i < all@.len() && #[trigger] all@[i]@ == p;
                }
            }
        }
        v
    }
}

} // verus!
