//! Decompress the original Sierra/Dynamix 1992 installer files (`RESOURCE.00$`,
//! `SCRANTIC.SC$`; magic `65 5d 13 8c`) into the plain `RESOURCE.001` / `SCRANTIC.SCR`.
//!
//! The outer file is a thin Dynamix wrapper (header + file name) around a PKWARE Data
//! Compression Library ("implode") stream, decoded here by an "explode" routine.
use vstd::prelude::*;
use vstd::slice::slice_subrange;
use vstd::arithmetic::power2::{pow2, lemma_pow2_unfold, lemma2_to64, lemma_pow2_strictly_increases, lemma_pow2_adds};
use crate::dgds::reader::le_u32;
use crate::dgds::decompress::{bit_at, bits_at, lemma_bits_bound};

verus! {

/// The installer-compression magic, little-endian.
pub const MAGIC: u32 = 0x8C13_5D65;
/// Longest Huffman code, in bits.
pub const MAXBITS: usize = 13;

/// The code lengths a compact "rep" table expands to: each byte is `(count-1)` in its
/// high nibble and a code length in its low nibble.
pub open spec fn rep_lengths(rep: Seq<u8>) -> Seq<u8>
    decreases rep.len(),
{
    if rep.len() == 0 {
        Seq::empty()
    } else {
        rep_lengths(rep.drop_last()) + Seq::new(
            (rep.last() / 16 + 1) as nat,
            |k: int| (rep.last() % 16) as u8,
        )
    }
}

/// Whether every code length in a "rep" table is at most [`MAXBITS`].
pub open spec fn rep_ok(rep: Seq<u8>) -> bool {
    forall|i: int| 0 <= i < rep.len() ==> #[trigger] rep[i] % 16 <= 13
}

/// How many of the first `n` code lengths equal `l`.
pub open spec fn len_count(lens: Seq<u8>, l: int, n: int) -> int
    decreases n,
{
    if n <= 0 {
        0
    } else {
        len_count(lens, l, n - 1) + if lens[n - 1] as int == l { 1int } else { 0int }
    }
}

/// Where the codes of length `l` start in canonical order: after all shorter codes
/// (length 0 means "no code" and takes no place).
pub open spec fn code_offset(lens: Seq<u8>, l: int) -> int
    decreases l,
{
    if l <= 1 {
        0
    } else {
        code_offset(lens, l - 1) + len_count(lens, l - 1, lens.len() as int)
    }
}

/// The number of codes of each length `0..=MAXBITS`.
pub open spec fn huff_counts(lens: Seq<u8>) -> Seq<i32> {
    Seq::new(14, |l: int| len_count(lens, l, lens.len() as int) as i32)
}

/// The symbol table after placing the first `k` symbols in canonical order (by code
/// length, then by symbol); unplaced entries are 0.
pub open spec fn canon_symbols(lens: Seq<u8>, k: int) -> Seq<u16>
    decreases k,
{
    if k <= 0 {
        Seq::new(lens.len(), |i: int| 0u16)
    } else {
        let prev = canon_symbols(lens, k - 1);
        let l = lens[k - 1] as int;
        let o = code_offset(lens, l) + len_count(lens, l, k - 1);
        if l != 0 && 0 <= o < prev.len() {
            prev.update(o, (k - 1) as u16)
        } else {
            prev
        }
    }
}

/// A canonical-Huffman decode table: the number of codes of each length, and the
/// symbols ordered by code.
pub struct Huff {
    /// Number of codes of each length `0..=MAXBITS`.
    pub count: [i32; 14],
    /// Symbols in canonical code order.
    pub symbol: Vec<u16>,
}

impl Huff {
    /// Whether the table is well formed: every count lies in `0..=symbol.len()` and every
    /// symbol indexes the alphabet.
    pub open spec fn wf(&self) -> bool {
        &&& forall|l: int| 0 <= l <= 13 ==> 0 <= #[trigger] self.count[l] <= self.symbol@.len()
        &&& forall|i: int| 0 <= i < self.symbol@.len() ==> #[trigger] self.symbol@[i] < self.symbol@.len()
    }

    /// Build the decode table for a compact "rep" table.
    pub fn new(rep: &[u8]) -> (h: Huff)
        requires
            rep_ok(rep@),
            rep@.len() <= 0x0400_0000,
        ensures
            h.wf(),
            h.symbol@.len() == rep_lengths(rep@).len(),
            h.count@ == huff_counts(rep_lengths(rep@)),
            h.symbol@ == canon_symbols(rep_lengths(rep@), rep_lengths(rep@).len() as int),
    {
        let mut lengths: Vec<u8> = Vec::new();
        let mut j: usize = 0;
        while j < rep.len()
            invariant
                j <= rep@.len(),
                rep_ok(rep@),
                lengths@ == rep_lengths(rep@.take(j as int)),
                forall|i: int| 0 <= i < lengths@.len() ==> #[trigger] lengths@[i] <= 13,
                lengths@.len() <= 16 * j,
            decreases rep.len() - j,
        {
            let b = rep[j];
            let run = (b / 16) as usize + 1;
            let len = b % 16;
            assert(len <= 13) by {
                assert(rep@[j as int] % 16 <= 13);
            }
            let ghost before = lengths@;
            let mut k: usize = 0;
            while k < run
                invariant
                    k <= run,
                    run == b / 16 + 1,
                    len == b % 16,
                    len <= 13,
                    lengths@ == before + Seq::new(k as nat, |m: int| len),
                    forall|i: int| 0 <= i < before.len() ==> #[trigger] before[i] <= 13,
                    before.len() <= 16 * j,
                decreases run - k,
            {
                lengths.push(len);
                k = k + 1;
                assert(lengths@ =~= before + Seq::new(k as nat, |m: int| len));
            }
            proof {
                assert(rep@.take(j + 1).drop_last() =~= rep@.take(j as int));
                assert(rep@.take(j + 1).last() == b);
            }
            j = j + 1;
        }
        proof {
            assert(rep@.take(rep@.len() as int) =~= rep@);
        }
        let n = lengths.len();
        let mut count = [0i32; 14];
        let mut i: usize = 0;
        while i < n
            invariant
                n == lengths@.len(),
                i <= n,
                n <= 0x4000_0000,
                forall|q: int| 0 <= q < lengths@.len() ==> #[trigger] lengths@[q] <= 13,
                forall|l: int| 0 <= l <= 13 ==> 0 <= #[trigger] count[l] <= i,
                forall|l: int| 0 <= l <= 13 ==> #[trigger] count[l] == len_count(lengths@, l, i as int),
            decreases n - i,
        {
            let l = lengths[i] as usize;
            count[l] = count[l] + 1;
            i = i + 1;
        }
        proof {
            assert(count@ =~= huff_counts(lengths@));
        }
        let mut offs = [0i64; 15];
        let mut length: usize = 1;
        while length < MAXBITS
            invariant
                1 <= length <= MAXBITS,
                n <= 0x4000_0000,
                forall|l: int| 0 <= l <= 13 ==> 0 <= #[trigger] count[l] <= n,
                forall|l: int| 0 <= l <= length ==> 0 <= #[trigger] offs[l] <= (l as int) * 0x4000_0000,
                forall|l: int| 1 <= l <= length ==> #[trigger] offs[l] == code_offset(lengths@, l),
                forall|l: int| 0 <= l <= 13 ==> #[trigger] count[l] == len_count(lengths@, l, n as int),
                n == lengths@.len(),
                offs[14] == 0,
            decreases MAXBITS - length,
        {
            assert(offs[length as int] + count[length as int] <= (length + 1) as int * 0x4000_0000);
            offs[length + 1] = offs[length] + count[length] as i64;
            length = length + 1;
        }
        let mut symbol: Vec<u16> = Vec::new();
        let mut z: usize = 0;
        while z < n
            invariant
                z <= n,
                symbol@.len() == z,
                forall|q: int| 0 <= q < z ==> #[trigger] symbol@[q] == 0,
            decreases n - z,
        {
            symbol.push(0);
            z = z + 1;
        }
        proof {
            assert(symbol@ =~= canon_symbols(lengths@, 0));
        }
        let mut sym: usize = 0;
        while sym < n
            invariant
                sym <= n,
                n == lengths@.len(),
                symbol@.len() == n,
                n <= 0x4000_0000,
                forall|q: int| 0 <= q < lengths@.len() ==> #[trigger] lengths@[q] <= 13,
                forall|q: int| 0 <= q < n ==> #[trigger] symbol@[q] < n,
                forall|l: int| 0 <= l <= 14 ==> 0 <= #[trigger] offs[l] <= 0x4000_0000 * 14 + sym,
                forall|l: int| 1 <= l <= 13 ==> #[trigger] offs[l] == code_offset(lengths@, l) + len_count(lengths@, l, sym as int),
                symbol@ == canon_symbols(lengths@, sym as int),
            decreases n - sym,
        {
            let l = lengths[sym] as usize;
            if l != 0 {
                let o = offs[l];
                if 0 <= o && o < symbol.len() as i64 {
                    let v: u16 = if sym < 65536 {
                        sym as u16
                    } else {
                        #[verifier::truncate]
                        (sym as u16)
                    };
                    symbol.set(o as usize, v);
                }
                offs[l] = o + 1;
            }
            sym = sym + 1;
        }
        Huff { count, symbol }
    }
}

/// The compact code-length table of literal bytes.
pub open spec fn lit_rep() -> Seq<u8> {
    seq![
        11u8, 124, 8, 7, 28, 7, 188, 13, 76, 4, 10, 8, 12, 10, 12, 10, 8, 23, 8,
        9, 7, 6, 7, 8, 7, 6, 55, 8, 23, 24, 12, 11, 7, 9, 11, 12, 6, 7, 22, 5,
        7, 24, 6, 11, 9, 6, 7, 22, 7, 11, 38, 7, 9, 8, 25, 11, 8, 11, 9, 12,
        8, 12, 5, 38, 5, 38, 5, 11, 7, 5, 6, 21, 6, 10, 53, 8, 7, 24, 10, 27,
        44, 253, 253, 253, 252, 252, 252, 13, 12, 45, 12, 45, 12, 61, 12, 45,
        44, 173,
    ]
}

/// The compact code-length table of match-length symbols.
pub open spec fn len_rep() -> Seq<u8> {
    seq![2u8, 35, 36, 53, 38, 23]
}

/// The compact code-length table of distance symbols.
pub open spec fn dist_rep() -> Seq<u8> {
    seq![2u8, 20, 53, 230, 247, 151, 248]
}

/// The compact code-length table of literal bytes.
pub fn litlen() -> (t: Vec<u8>)
    ensures
        t@ == lit_rep(),
        t@ == seq![
            11u8, 124, 8, 7, 28, 7, 188, 13, 76, 4, 10, 8, 12, 10, 12, 10, 8, 23, 8,
            9, 7, 6, 7, 8, 7, 6, 55, 8, 23, 24, 12, 11, 7, 9, 11, 12, 6, 7, 22, 5,
            7, 24, 6, 11, 9, 6, 7, 22, 7, 11, 38, 7, 9, 8, 25, 11, 8, 11, 9, 12,
            8, 12, 5, 38, 5, 38, 5, 11, 7, 5, 6, 21, 6, 10, 53, 8, 7, 24, 10, 27,
            44, 253, 253, 253, 252, 252, 252, 13, 12, 45, 12, 45, 12, 61, 12, 45,
            44, 173,
        ],
{
    vec![
        11, 124, 8, 7, 28, 7, 188, 13, 76, 4, 10, 8, 12, 10, 12, 10, 8, 23, 8,
        9, 7, 6, 7, 8, 7, 6, 55, 8, 23, 24, 12, 11, 7, 9, 11, 12, 6, 7, 22, 5,
        7, 24, 6, 11, 9, 6, 7, 22, 7, 11, 38, 7, 9, 8, 25, 11, 8, 11, 9, 12,
        8, 12, 5, 38, 5, 38, 5, 11, 7, 5, 6, 21, 6, 10, 53, 8, 7, 24, 10, 27,
        44, 253, 253, 253, 252, 252, 252, 13, 12, 45, 12, 45, 12, 61, 12, 45,
        44, 173,
    ]
}

/// The compact code-length table of match-length symbols.
pub fn lenlen() -> (t: Vec<u8>)
    ensures
        t@ == len_rep(),
        t@ == seq![2u8, 35, 36, 53, 38, 23],
{
    vec![2, 35, 36, 53, 38, 23]
}

/// The compact code-length table of distance symbols.
pub fn distlen() -> (t: Vec<u8>)
    ensures
        t@ == dist_rep(),
        t@ == seq![2u8, 20, 53, 230, 247, 151, 248],
{
    vec![2, 20, 53, 230, 247, 151, 248]
}

/// Base match length of each length symbol.
pub open spec fn len_base_of(sym: int) -> int {
    if sym == 0 {
        3
    } else if sym == 1 {
        2
    } else if sym <= 8 {
        sym + 2
    } else if sym == 9 {
        12
    } else if sym == 10 {
        16
    } else if sym == 11 {
        24
    } else if sym == 12 {
        40
    } else if sym == 13 {
        72
    } else if sym == 14 {
        136
    } else {
        264
    }
}

/// Number of extra bits that follow each length symbol.
pub open spec fn len_extra_of(sym: int) -> int {
    if sym < 8 { 0 } else { sym - 7 }
}

/// Base match length of each length symbol.
fn len_base(sym: usize) -> (b: i64)
    requires
        sym < 16,
    ensures
        2 <= b <= 264,
        b == len_base_of(sym as int),
{
    match sym {
        0 => 3,
        1 => 2,
        2 => 4,
        3 => 5,
        4 => 6,
        5 => 7,
        6 => 8,
        7 => 9,
        8 => 10,
        9 => 12,
        10 => 16,
        11 => 24,
        12 => 40,
        13 => 72,
        14 => 136,
        _ => 264,
    }
}

/// Number of extra bits that follow each length symbol.
fn len_extra(sym: usize) -> (e: u32)
    requires
        sym < 16,
    ensures
        e <= 8,
        e == len_extra_of(sym as int),
{
    if sym < 8 {
        0
    } else {
        (sym - 7) as u32
    }
}

/// A run of bits splits into its first `a` bits and the `b` after them.
proof fn lemma_bits_split(d: Seq<u8>, p: int, a: nat, b: nat)
    ensures
        bits_at(d, p, a + b) == bits_at(d, p, a) + bits_at(d, p + a, b) * pow2(a),
    decreases b,
{
    if b > 0 {
        lemma_bits_split(d, p, a, (b - 1) as nat);
        lemma_pow2_adds(a, (b - 1) as nat);
        let x = bits_at(d, p, (a + b - 1) as nat);
        let y = bits_at(d, p, a);
        let z = bits_at(d, p + a, (b - 1) as nat);
        let c = bit_at(d, p + a + b - 1);
        assert(bits_at(d, p, a + b) == x + c * pow2((a + b - 1) as nat));
        assert(bits_at(d, p + a, b) == z + c * pow2((b - 1) as nat));
        assert(x + c * pow2((a + b - 1) as nat) == y + (z + c * pow2((b - 1) as nat)) * pow2(a)) by (nonlinear_arith)
            requires
                x == y + z * pow2(a),
                pow2((a + b - 1) as nat) == pow2(a) * pow2((b - 1) as nat),
        ;
    }
}

/// The lowest bit of a run is its first bit, and the rest is the run after it.
proof fn lemma_bits_first(d: Seq<u8>, p: int, n: nat)
    requires
        n >= 1,
    ensures
        bits_at(d, p, n) % 2 == bit_at(d, p),
        bits_at(d, p, n) / 2 == bits_at(d, p + 1, (n - 1) as nat),
{
    lemma_bits_split(d, p, 1, (n - 1) as nat);
    lemma2_to64();
    assert(bits_at(d, p, 1) == bit_at(d, p)) by {
        reveal_with_fuel(bits_at, 2);
        assert(bits_at(d, p, 0) == 0);
        assert(pow2(0) == 1);
        assert(bits_at(d, p, 1) == bits_at(d, p, 0) + bit_at(d, p + 1 - 1) * pow2(0));
    }
    lemma_bits_bound(d, p + 1, (n - 1) as nat);
    let b = bit_at(d, p);
    assert(0 <= b <= 1) by {
        if 0 <= p && p / 8 < d.len() {
            let byte = d[p / 8];
            let sh = (p % 8) as u8;
            assert(((byte >> sh) & 1) <= 1) by (bit_vector);
        }
    }
    let r = bits_at(d, p + 1, (n - 1) as nat);
    assert((b + r * 2) % 2 == b && (b + r * 2) / 2 == r) by (nonlinear_arith)
        requires
            0 <= b <= 1,
            r >= 0,
    ;
}

/// The eight bits of a whole byte are the byte.
proof fn lemma_bits_byte(d: Seq<u8>, k: int)
    requires
        0 <= k < d.len(),
    ensures
        bits_at(d, 8 * k, 8) == d[k],
{
    lemma2_to64();
    let b = d[k];
    let p = 8 * k;
    assert forall|i: int| 0 <= i < 8 implies #[trigger] bit_at(d, p + i) == ((b >> (i as u8)) & 1) as int by {
        assert((8 * k + i) / 8 == k);
        assert((8 * k + i) % 8 == i);
    }
    let b0 = bit_at(d, p + 0);
    let b1 = bit_at(d, p + 1);
    let b2 = bit_at(d, p + 2);
    let b3 = bit_at(d, p + 3);
    let b4 = bit_at(d, p + 4);
    let b5 = bit_at(d, p + 5);
    let b6 = bit_at(d, p + 6);
    let b7 = bit_at(d, p + 7);
    assert(bits_at(d, p, 0) == 0);
    assert(bits_at(d, p, 1) == bits_at(d, p, 0) + bit_at(d, p + 1 - 1) * pow2(0));
    assert(bits_at(d, p, 2) == bits_at(d, p, 1) + bit_at(d, p + 2 - 1) * pow2(1));
    assert(bits_at(d, p, 3) == bits_at(d, p, 2) + bit_at(d, p + 3 - 1) * pow2(2));
    assert(bits_at(d, p, 4) == bits_at(d, p, 3) + bit_at(d, p + 4 - 1) * pow2(3));
    assert(bits_at(d, p, 5) == bits_at(d, p, 4) + bit_at(d, p + 5 - 1) * pow2(4));
    assert(bits_at(d, p, 6) == bits_at(d, p, 5) + bit_at(d, p + 6 - 1) * pow2(5));
    assert(bits_at(d, p, 7) == bits_at(d, p, 6) + bit_at(d, p + 7 - 1) * pow2(6));
    assert(bits_at(d, p, 8) == bits_at(d, p, 7) + bit_at(d, p + 8 - 1) * pow2(7));
    assert(bits_at(d, p, 8) == b0 + b1 * 2 + b2 * 4 + b3 * 8 + b4 * 16 + b5 * 32 + b6 * 64 + b7 * 128);
    assert(b as int == ((b >> 0u8) & 1) as int + ((b >> 1u8) & 1) as int * 2 + ((b >> 2u8) & 1) as int * 4
        + ((b >> 3u8) & 1) as int * 8 + ((b >> 4u8) & 1) as int * 16 + ((b >> 5u8) & 1) as int * 32
        + ((b >> 6u8) & 1) as int * 64 + ((b >> 7u8) & 1) as int * 128) by (bit_vector);
}

/// `n` bits of `data` from bit `p` on, and the position after them, when the data has
/// them.
pub open spec fn take_bits(data: Seq<u8>, p: int, n: nat) -> Option<(int, int)> {
    if 0 <= p && p + n <= 8 * data.len() {
        Some((bits_at(data, p, n), p + n))
    } else {
        None
    }
}

/// Canonical-Huffman decoding of the stream at bit `p`, having read `len - 1` code bits
/// so far: the stream stores each code bit inverted, first bit first. A code of length
/// `len` is complete when it falls among the `counts[len]` codes of that length; the
/// symbol and the position after the code result. `None` when no code of at most
/// [`MAXBITS`] bits matches, the data ends first, or the symbol table is too short.
pub open spec fn dec_from(
    counts: Seq<i32>,
    symbols: Seq<u16>,
    data: Seq<u8>,
    p: int,
    len: int,
    code: int,
    first: int,
    index: int,
) -> Option<(u16, int)>
    decreases 14 - len,
{
    if len < 1 || len > 13 || p < 0 || p + len > 8 * data.len() {
        None
    } else {
        let c = code + (1 - bit_at(data, p + len - 1));
        let cnt = counts[len] as int;
        if c < first + cnt {
            let idx = index + (c - first);
            if 0 <= idx < symbols.len() {
                Some((symbols[idx], p + len))
            } else {
                None
            }
        } else {
            dec_from(counts, symbols, data, p, len + 1, c * 2, (first + cnt) * 2, index + cnt)
        }
    }
}

/// A decoded code ends after the position it starts at, within the data.
pub proof fn lemma_dec_pos(
    counts: Seq<i32>,
    symbols: Seq<u16>,
    data: Seq<u8>,
    p: int,
    len: int,
    code: int,
    first: int,
    index: int,
)
    requires
        dec_from(counts, symbols, data, p, len, code, first, index) is Some,
    ensures
        ({
            let (v, q) = dec_from(counts, symbols, data, p, len, code, first, index)->Some_0;
            &&& p < q <= 8 * data.len()
            &&& q <= p + 13
            &&& q >= p + len
            &&& symbols.contains(v)
        }),
    decreases 14 - len,
{
    let c = code + (1 - bit_at(data, p + len - 1));
    let cnt = counts[len] as int;
    if !(c < first + cnt) {
        lemma_dec_pos(counts, symbols, data, p, len + 1, c * 2, (first + cnt) * 2, index + cnt);
    } else {
        let idx = index + (c - first);
        assert(symbols[idx] == symbols[idx]);
    }
}

/// Bit reader and output accumulator of the explode loop.
struct Blast<'a> {
    data: &'a [u8],
    inpos: usize,
    bitbuf: u32,
    bitcnt: i32,
    out: Vec<u8>,
}

impl<'a> Blast<'a> {
    spec fn wf(&self) -> bool {
        &&& self.inpos <= self.data@.len()
        &&& 0 <= self.bitcnt <= 7
        &&& 8 * self.inpos >= self.bitcnt
        &&& self.bitbuf == bits_at(self.data@, self.pos(), self.bitcnt as nat)
    }

    /// The position of the next unread bit.
    spec fn pos(&self) -> int {
        8 * self.inpos - self.bitcnt
    }

    /// Input bits not yet consumed: whole unread bytes plus the buffered bits.
    spec fn unread(&self) -> int {
        8 * (self.data@.len() - self.inpos) + self.bitcnt
    }

    /// Read `need` bits, least significant first.
    fn bits(&mut self, need: u32) -> (r: Option<u32>)
        requires
            old(self).wf(),
            need <= 8,
        ensures
            r is Some ==> final(self).wf(),
            final(self).data == old(self).data,
            final(self).out == old(self).out,
            match take_bits(old(self).data@, old(self).pos(), need as nat) {
                Some((v, q)) => r is Some && r->Some_0 as int == v && final(self).pos() == q && v < 256,
                None => r is None,
            },
            r matches Some(v) ==> v < 256 && final(self).unread() == old(self).unread() - need,
    {
        let ghost d = self.data@;
        let ghost p = self.pos();
        proof {
            lemma2_to64();
            lemma_bits_bound(d, p, self.bitcnt as nat);
        }
        let mut val: u32 = self.bitbuf;
        while self.bitcnt < need as i32
            invariant
                self.inpos <= self.data@.len(),
                0 <= self.bitcnt <= need + 7,
                need <= 8,
                d == self.data@,
                self.data == old(self).data,
                self.out == old(self).out,
                self.unread() == old(self).unread(),
                p == old(self).pos(),
                p >= 0,
                8 * self.inpos - self.bitcnt == p,
                val == bits_at(d, p, self.bitcnt as nat),
                val < pow2(self.bitcnt as nat),
            decreases self.data@.len() - self.inpos,
        {
            if self.inpos >= self.data.len() {
                return None;
            }
            let byte = self.data[self.inpos] as u32;
            let sh = self.bitcnt as u32;
            proof {
                lemma2_to64();
                vstd::bits::lemma_u32_shl_is_mul(1u32, sh);
                lemma_bits_split(d, p, sh as nat, 8);
                lemma_bits_byte(d, self.inpos as int);
                assert(p + sh == 8 * self.inpos);
                lemma_pow2_adds(sh as nat, 8);
                assert(val < (1u32 << sh));
            }
            assert((val | (byte << sh)) == val + byte * (1u32 << sh)) by (bit_vector)
                requires
                    sh <= 15,
                    byte < 256,
                    val < (1u32 << sh),
            ;
            let ghost m = pow2(sh as nat);
            let ghost old_val = val;
            proof {
                assert(m > 0);
                assert(old_val + byte * m < 256 * m) by (nonlinear_arith)
                    requires
                        byte < 256,
                        old_val < m,
                        m > 0,
                ;
                assert(pow2((sh + 8) as nat) == m * 256);
            }
            val = val | (byte << sh);
            self.inpos = self.inpos + 1;
            self.bitcnt = self.bitcnt + 8;
        }
        let ghost bc = self.bitcnt;
        proof {
            lemma2_to64();
            lemma_bits_split(d, p, need as nat, (bc - need) as nat);
            lemma_bits_bound(d, p, need as nat);
            lemma_bits_bound(d, p + need, (bc - need) as nat);
            vstd::bits::lemma_u32_shl_is_mul(1u32, need);
        }
        let ghost lo = bits_at(d, p, need as nat);
        let ghost hi = bits_at(d, p + need, (bc - need) as nat);
        self.bitbuf = val >> need;
        self.bitcnt = self.bitcnt - need as i32;
        let one_sh: u32 = 1u32 << need;
        assert(1 <= one_sh <= 256) by (bit_vector)
            requires
                need <= 8,
                one_sh == 1u32 << need,
        ;
        let mask: u32 = one_sh - 1;
        assert(mask <= 255) by (bit_vector)
            requires
                need <= 8,
                mask + 1 == 1u32 << need,
        ;
        let v = val & mask;
        proof {
            let lo32 = lo as u32;
            let hi32 = hi as u32;
            assert(hi < pow2(16)) by {
                if bc - need < 16 {
                    vstd::arithmetic::power2::lemma_pow2_strictly_increases((bc - need) as nat, 16);
                }
            }
            assert(val == lo32 + hi32 * one_sh);
            assert((val & mask) == lo32 && (val >> need) == hi32) by (bit_vector)
                requires
                    need <= 8,
                    one_sh == 1u32 << need,
                    mask == one_sh - 1,
                    lo32 < one_sh,
                    hi32 < 0x10000,
                    val == lo32 + hi32 * one_sh,
            ;
        }
        assert(v <= mask) by (bit_vector)
            requires
                v == val & mask,
        ;
        Some(v)
    }

    /// Decode one symbol with the canonical-Huffman table `h` (see [`dec_from`]).
    fn decode(&mut self, h: &Huff) -> (r: Option<u16>)
        requires
            old(self).wf(),
            h.wf(),
        ensures
            r is Some ==> final(self).wf(),
            final(self).data == old(self).data,
            final(self).out == old(self).out,
            match dec_from(h.count@, h.symbol@, old(self).data@, old(self).pos(), 1, 0, 0, 0) {
                Some((v, q)) => r == Some(v) && final(self).pos() == q,
                None => r is None,
            },
            r matches Some(v) ==> v < h.symbol@.len() && final(self).unread() < old(self).unread(),
    {
        let ghost d = self.data@;
        let ghost p = self.pos();
        let ghost goal = dec_from(h.count@, h.symbol@, d, p, 1, 0, 0, 0);
        let ghost pos0 = self.inpos;
        let ghost bc0 = self.bitcnt;
        let mut bitbuf: u32 = self.bitbuf;
        let mut left: i32 = self.bitcnt;
        let mut code: i64 = 0;
        let mut first: i64 = 0;
        let mut index: i64 = 0;
        let mut length: usize = 1;
        proof {
            lemma2_to64();
        }
        loop
            invariant
                self.inpos <= self.data@.len(),
                0 <= self.bitcnt <= 7,
                h.wf(),
                d == self.data@,
                self.data == old(self).data,
                self.out == old(self).out,
                self.bitcnt == old(self).bitcnt,
                self.bitbuf == old(self).bitbuf,
                bc0 == old(self).bitcnt,
                pos0 == old(self).inpos,
                p == old(self).pos(),
                p == 8 * pos0 - bc0,
                p >= 0,
                goal == dec_from(h.count@, h.symbol@, d, p, 1, 0, 0, 0),
                goal == dec_from(h.count@, h.symbol@, d, p, length as int, code as int, first as int, index as int),
                pos0 <= self.inpos,
                1 <= length <= 14,
                0 <= 8 * self.inpos - (p + length - 1) <= 8,
                left == if 8 * self.inpos - (p + length - 1) < 14 - length {
                    8 * self.inpos - (p + length - 1)
                } else {
                    14 - length
                },
                bitbuf == bits_at(d, p + length - 1, (8 * self.inpos - (p + length - 1)) as nat),
                0 <= code,
                code + 1 < pow2(length as nat),
                0 <= first <= (pow2(length as nat) - 1) * 0x2_0000_0000,
                0 <= index <= length * 0x8000_0000,
            decreases 14 - length, self.data@.len() - self.inpos,
        {
            let ghost len_top = length;
            let ghost pos_top = self.inpos;
            while left != 0
                invariant
                    self.inpos <= self.data@.len(),
                    0 <= self.bitcnt <= 7,
                    h.wf(),
                    d == self.data@,
                    self.data == old(self).data,
                    self.out == old(self).out,
                    self.bitcnt == old(self).bitcnt,
                    self.bitbuf == old(self).bitbuf,
                    bc0 == old(self).bitcnt,
                    pos0 == old(self).inpos,
                    p == old(self).pos(),
                    p == 8 * pos0 - bc0,
                    p >= 0,
                p >= 0,
                    goal == dec_from(h.count@, h.symbol@, d, p, 1, 0, 0, 0),
                    goal == dec_from(h.count@, h.symbol@, d, p, length as int, code as int, first as int, index as int),
                    pos0 <= self.inpos,
                    1 <= length <= 14,
                    0 <= 8 * self.inpos - (p + length - 1) <= 8,
                    left == if 8 * self.inpos - (p + length - 1) < 14 - length {
                        8 * self.inpos - (p + length - 1)
                    } else {
                        14 - length
                    },
                    bitbuf == bits_at(d, p + length - 1, (8 * self.inpos - (p + length - 1)) as nat),
                    0 <= code,
                    code + 1 < pow2(length as nat),
                    0 <= first <= (pow2(length as nat) - 1) * 0x2_0000_0000,
                    0 <= index <= length * 0x8000_0000,
                    length >= len_top,
                    self.inpos == pos_top,
                decreases left,
            {
                let ghost m = 8 * self.inpos - (p + length - 1);
                proof {
                    lemma_bits_first(d, p + length - 1, m as nat);
                    lemma_pow2_at_most(length as nat);
                }
                left = left - 1;
                let bit: i64 = 1 - (bitbuf % 2) as i64;
                let ghost code0 = code as int;
                code = code + bit;
                bitbuf = bitbuf / 2;
                let count = h.count[length] as i64;
                proof {
                    assert(p + length <= 8 * d.len());
                    assert(length <= 13);
                    assert(bit == 1 - bit_at(d, p + length - 1));
                    assert(count == h.count@[length as int] as int);
                    assert(goal == {
                        let c = code0 + (1 - bit_at(d, p + length - 1));
                        let cnt = h.count@[length as int] as int;
                        if c < first + cnt {
                            let idx = index + (c - first);
                            if 0 <= idx < h.symbol@.len() {
                                Some((h.symbol@[idx], p + length))
                            } else {
                                None
                            }
                        } else {
                            dec_from(h.count@, h.symbol@, d, p, length + 1, c * 2, (first + cnt) * 2, index + cnt)
                        }
                    });
                }
                if code < first + count {
                    let old_cnt = self.bitcnt;
                    let diff: i32 = old_cnt - length as i32;
                    let nb: i32 = diff & 7;
                    let ghost rem: i32 = (m - 1) as i32;
                    let ghost kk: i32 = (self.inpos - pos0) as i32;
                    assert(0 <= kk <= 2);
                    assert(0 <= rem <= 7);
                    assert(diff == rem - 8 * kk);
                    assert(nb == rem) by (bit_vector)
                        requires
                            nb == diff & 7,
                            diff == rem - 8 * kk,
                            0 <= rem <= 7,
                            0 <= kk <= 2,
                    ;
                    assert(rem as int == m - 1);
                    self.bitbuf = bitbuf;
                    self.bitcnt = nb;
                    assert(self.pos() == p + length);
                    assert(goal matches Some((_, q)) ==> q == p + length);
                    let idx: i64 = index + (code - first);
                    assert(code == code0 + (1 - bit_at(d, p + length - 1)));
                    assert(code < first + h.count@[length as int] as int);
                    if 0 <= idx && (idx as u64) < (h.symbol.len() as u64) {
                        let v = h.symbol[idx as usize];
                        assert(goal == Some((v, p + length)));
                        return Some(v);
                    } else {
                        assert(goal is None);
                        return None;
                    }
                }
                proof {
                    lemma_pow2_unfold((length + 1) as nat);
                    let pw = pow2(length as nat);
                    assert((first + count) * 2 <= (2 * pw - 1) * 0x2_0000_0000) by (nonlinear_arith)
                        requires
                            0 <= first <= (pw - 1) * 0x2_0000_0000,
                            0 <= count <= 0x8000_0000,
                            pw >= 1,
                    ;
                }
                index = index + count;
                first = (first + count) * 2;
                code = code * 2;
                length = length + 1;
            }
            let l2: i32 = 14 - length as i32;
            if l2 == 0 {
                return None;
            }
            if self.inpos >= self.data.len() {
                return None;
            }
            proof {
                lemma_bits_byte(d, self.inpos as int);
            }
            bitbuf = self.data[self.inpos] as u32;
            self.inpos = self.inpos + 1;
            left = if l2 > 8 { 8 } else { l2 };
        }
    }
}

proof fn lemma_pow2_at_most(n: nat)
    requires
        n <= 14,
    ensures
        pow2(n) <= 16384,
{
    lemma2_to64();
    if n < 14 {
        lemma_pow2_strictly_increases(n, 14);
    }
}

proof fn lemma_lenlen_expands(t: Seq<u8>)
    requires
        t == seq![2u8, 35, 36, 53, 38, 23],
    ensures
        rep_lengths(t).len() == 16,
{
    reveal_with_fuel(rep_lengths, 7);
    assert(t.drop_last() =~= seq![2u8, 35, 36, 53, 38]);
    assert(t.drop_last().drop_last() =~= seq![2u8, 35, 36, 53]);
    assert(t.drop_last().drop_last().drop_last() =~= seq![2u8, 35, 36]);
    assert(t.drop_last().drop_last().drop_last().drop_last() =~= seq![2u8, 35]);
    assert(t.drop_last().drop_last().drop_last().drop_last().drop_last() =~= seq![2u8]);
    assert(seq![2u8].drop_last() =~= Seq::<u8>::empty());
}

/// Whether a stream starts with a header that explode accepts: a literal-coding flag
/// of 0 or 1 and a dictionary size of 4, 5 or 6 bits.
pub open spec fn dcl_header_ok(data: Seq<u8>) -> bool {
    &&& data.len() >= 2
    &&& data[0] <= 1
    &&& 4 <= data[1] <= 6
}

/// `n` bytes copied one by one from `start` onwards to the end of `out` (a copy may
/// overlap the bytes it appends).
pub open spec fn lz_copy(out: Seq<u8>, start: int, n: int) -> Seq<u8>
    decreases n,
{
    if n <= 0 {
        out
    } else {
        let o = lz_copy(out, start, n - 1);
        o.push(o[start + n - 1])
    }
}

/// The decode table of match-length symbols.
pub open spec fn len_table() -> (Seq<i32>, Seq<u16>) {
    let lens = rep_lengths(len_rep());
    (huff_counts(lens), canon_symbols(lens, lens.len() as int))
}

/// The decode table of distance symbols.
pub open spec fn dist_table() -> (Seq<i32>, Seq<u16>) {
    let lens = rep_lengths(dist_rep());
    (huff_counts(lens), canon_symbols(lens, lens.len() as int))
}

/// The decode table of literal bytes.
pub open spec fn lit_table() -> (Seq<i32>, Seq<u16>) {
    let lens = rep_lengths(lit_rep());
    (huff_counts(lens), canon_symbols(lens, lens.len() as int))
}

/// Decoding a DCL stream from bit `p` on, with `out` produced so far: a 0 flag bit
/// introduces a literal (a Huffman-coded one when `lit`, else 8 plain bits); a 1 flag
/// bit a match of a Huffman-coded length (with extra bits) and distance (with `dictbits`
/// low bits, 2 for two-byte matches) copied from the output. The length 519 ends the
/// stream. `None` when the data ends early, a code is invalid, or a distance reaches
/// before the output.
pub open spec fn explode_from(data: Seq<u8>, lit: bool, dictbits: int, p: int, out: Seq<u8>) -> Option<Seq<u8>>
    decreases 8 * data.len() - p,
{
    if p < 0 || p + 1 > 8 * data.len() {
        None
    } else if bits_at(data, p, 1) != 0 {
        let (lc, ls) = len_table();
        match dec_from(lc, ls, data, p + 1, 1, 0, 0, 0) {
            None => None,
            Some((sym, p2)) => {
                proof {
                    lemma_dec_pos(lc, ls, data, p + 1, 1, 0, 0, 0);
                }
                let e = len_extra_of(sym as int);
                if p2 + e > 8 * data.len() || e < 0 {
                    None
                } else {
                    let length = len_base_of(sym as int) + bits_at(data, p2, e as nat);
                    let p3 = p2 + e;
                    if length == 519 {
                        Some(out)
                    } else {
                        let shift: int = if length == 2 { 2 } else { dictbits };
                        let (dc, ds) = dist_table();
                        match dec_from(dc, ds, data, p3, 1, 0, 0, 0) {
                            None => None,
                            Some((dsym, p4)) => {
                                proof {
                                    lemma_dec_pos(dc, ds, data, p3, 1, 0, 0, 0);
                                }
                                if shift < 0 || p4 + shift > 8 * data.len() {
                                    None
                                } else {
                                    let dist = dsym * pow2(shift as nat) + bits_at(data, p4, shift as nat) + 1;
                                    if dist > out.len() {
                                        None
                                    } else {
                                        explode_from(
                                            data,
                                            lit,
                                            dictbits,
                                            p4 + shift,
                                            lz_copy(out, out.len() - dist, length),
                                        )
                                    }
                                }
                            },
                        }
                    }
                }
            },
        }
    } else if lit {
        let (tc, ts) = lit_table();
        match dec_from(tc, ts, data, p + 1, 1, 0, 0, 0) {
            None => None,
            Some((v, p2)) => {
                proof {
                    lemma_dec_pos(tc, ts, data, p + 1, 1, 0, 0, 0);
                }
                explode_from(data, lit, dictbits, p2, out.push(v as u8))
            },
        }
    } else if p + 9 > 8 * data.len() {
        None
    } else {
        explode_from(data, lit, dictbits, p + 9, out.push(bits_at(data, p + 1, 8) as u8))
    }
}

/// What explode makes of a DCL stream: `None` unless the header is valid; else the
/// stream decoded from its third byte on.
pub open spec fn explode_spec(data: Seq<u8>) -> Option<Seq<u8>> {
    if dcl_header_ok(data) {
        explode_from(data, data[0] != 0, data[1] as int, 16, Seq::empty())
    } else {
        None
    }
}

/// A two-byte match copies from a distance given by two low bits, whatever the
/// dictionary size: when the code at `p` is a match whose length decodes to 2 and whose
/// distance symbol `dsym` ends at `p4`, the distance is `dsym * 4` plus the next 2 bits
/// plus 1; the two bytes at that distance back are appended (the second repeating the
/// first at distance 1), and decoding goes on right after those 2 bits. A distance
/// before the start of the output fails.
pub proof fn lemma_two_byte_match(
    data: Seq<u8>,
    lit: bool,
    dictbits: int,
    p: int,
    out: Seq<u8>,
    sym: u16,
    p2: int,
    dsym: u16,
    p4: int,
)
    requires
        0 <= p,
        p + 1 <= 8 * data.len(),
        bits_at(data, p, 1) != 0,
        dec_from(len_table().0, len_table().1, data, p + 1, 1, 0, 0, 0) == Some((sym, p2)),
        0 <= len_extra_of(sym as int),
        p2 + len_extra_of(sym as int) <= 8 * data.len(),
        len_base_of(sym as int) + bits_at(data, p2, len_extra_of(sym as int) as nat) == 2,
        dec_from(dist_table().0, dist_table().1, data, p2 + len_extra_of(sym as int), 1, 0, 0, 0)
            == Some((dsym, p4)),
        p4 + 2 <= 8 * data.len(),
    ensures
        ({
            let n = out.len() as int;
            let dist = dsym * 4 + bits_at(data, p4, 2) + 1;
            &&& dist > n ==> explode_from(data, lit, dictbits, p, out) is None
            &&& dist <= n ==> explode_from(data, lit, dictbits, p, out) == explode_from(
                data,
                lit,
                dictbits,
                p4 + 2,
                out + seq![out[n - dist], if dist == 1 { out[n - 1] } else { out[n - dist + 1] }],
            )
        }),
{
    lemma2_to64();
    crate::dgds::decompress::lemma_bits_bound(data, p4, 2);
    let n = out.len() as int;
    let dist = dsym * 4 + bits_at(data, p4, 2) + 1;
    assert(pow2(2) == 4);
    if dist <= n {
        reveal_with_fuel(lz_copy, 3);
        let o1 = lz_copy(out, n - dist, 1);
        assert(lz_copy(out, n - dist, 0) == out);
        assert(o1 == out.push(out[n - dist]));
        assert(lz_copy(out, n - dist, 2) == o1.push(o1[n - dist + 1]));
        assert(dist >= 1);
        if dist == 1 {
            assert(o1[n - dist + 1] == out[n - 1]);
        } else {
            assert(o1[n - dist + 1] == out[n - dist + 1]);
        }
        assert(lz_copy(out, n - dist, 2) =~= out + seq![
            out[n - dist],
            if dist == 1 { out[n - 1] } else { out[n - dist + 1] },
        ]);
    }
}

/// `n` bytes copied from `dist` back append exactly `n` bytes, each equal to the byte
/// `dist` places before it (so a copy may repeat the bytes it has just made).
pub proof fn lemma_lz_copy_repeats(out: Seq<u8>, dist: int, n: int)
    requires
        1 <= dist <= out.len(),
        n >= 0,
    ensures
        lz_copy(out, out.len() - dist, n).len() == out.len() + n,
        lz_copy(out, out.len() - dist, n).subrange(0, out.len() as int) == out,
        forall|i: int|
            0 <= i < n ==> #[trigger] lz_copy(out, out.len() - dist, n)[out.len() + i] == lz_copy(
                out,
                out.len() - dist,
                n,
            )[out.len() + i - dist],
    decreases n,
{
    if n > 0 {
        lemma_lz_copy_repeats(out, dist, n - 1);
        let o = lz_copy(out, out.len() - dist, n - 1);
        let o2 = lz_copy(out, out.len() - dist, n);
        assert(o2 == o.push(o[out.len() - dist + n - 1]));
        assert(o2.subrange(0, out.len() as int) =~= o.subrange(0, out.len() as int));
        assert forall|i: int| 0 <= i < n implies #[trigger] o2[out.len() + i] == o2[out.len() + i - dist] by {
            if i < n - 1 {
                assert(o2[out.len() + i] == o[out.len() + i]);
                assert(o2[out.len() + i - dist] == o[out.len() + i - dist]);
            }
        }
    }
}

/// A match of length `length` (3 to 518) copies from a distance given by `dictbits` low
/// bits: when the code at `p` is a match of that length whose distance symbol `dsym`
/// ends at `p4`, the distance is `dsym * 2^dictbits` plus the next `dictbits` bits plus
/// 1; decoding goes on right after those bits with `length` bytes appended, each equal
/// to the byte that distance before it. A distance before the start fails.
pub proof fn lemma_long_match(
    data: Seq<u8>,
    lit: bool,
    dictbits: nat,
    p: int,
    out: Seq<u8>,
    sym: u16,
    p2: int,
    dsym: u16,
    p4: int,
)
    requires
        0 <= p,
        p + 1 <= 8 * data.len(),
        bits_at(data, p, 1) != 0,
        dec_from(len_table().0, len_table().1, data, p + 1, 1, 0, 0, 0) == Some((sym, p2)),
        0 <= len_extra_of(sym as int),
        p2 + len_extra_of(sym as int) <= 8 * data.len(),
        3 <= len_base_of(sym as int) + bits_at(data, p2, len_extra_of(sym as int) as nat) < 519,
        dec_from(dist_table().0, dist_table().1, data, p2 + len_extra_of(sym as int), 1, 0, 0, 0)
            == Some((dsym, p4)),
        p4 + dictbits <= 8 * data.len(),
    ensures
        ({
            let n = out.len() as int;
            let length = len_base_of(sym as int) + bits_at(data, p2, len_extra_of(sym as int) as nat);
            let dist = dsym * pow2(dictbits) + bits_at(data, p4, dictbits) + 1;
            &&& dist > n ==> explode_from(data, lit, dictbits as int, p, out) is None
            &&& dist <= n ==> exists|o: Seq<u8>| {
                &&& o.len() == n + length
                &&& o.subrange(0, n) == out
                &&& forall|i: int| 0 <= i < length ==> #[trigger] o[n + i] == o[n + i - dist]
                &&& explode_from(data, lit, dictbits as int, p, out) == explode_from(
                    data,
                    lit,
                    dictbits as int,
                    p4 + dictbits,
                    o,
                )
            }
        }),
{
    crate::dgds::decompress::lemma_bits_bound(data, p4, dictbits);
    let n = out.len() as int;
    let length = len_base_of(sym as int) + bits_at(data, p2, len_extra_of(sym as int) as nat);
    let dist = dsym * pow2(dictbits) + bits_at(data, p4, dictbits) + 1;
    assert(dsym * pow2(dictbits) >= 0) by (nonlinear_arith)
        requires
            pow2(dictbits) > 0,
        {
    }
    if dist <= n {
        lemma_lz_copy_repeats(out, dist, length);
        let o = lz_copy(out, n - dist, length);
        assert(explode_from(data, lit, dictbits as int, p, out) == explode_from(
            data,
            lit,
            dictbits as int,
            p4 + dictbits,
            o,
        ));
    }
}

/// An uncoded literal (a 0 flag bit in a stream without literal coding) appends the
/// byte made of the next 8 bits, and decoding goes on right after them.
pub proof fn lemma_plain_literal(data: Seq<u8>, dictbits: int, p: int, out: Seq<u8>)
    requires
        0 <= p,
        p + 9 <= 8 * data.len(),
        bits_at(data, p, 1) == 0,
    ensures
        explode_from(data, false, dictbits, p, out) == explode_from(
            data,
            false,
            dictbits,
            p + 9,
            out.push(bits_at(data, p + 1, 8) as u8),
        ),
{
}

/// The end code (a match of length 519) ends the stream with the output made so far.
pub proof fn lemma_end_code(data: Seq<u8>, lit: bool, dictbits: int, p: int, out: Seq<u8>, sym: u16, p2: int)
    requires
        0 <= p,
        p + 1 <= 8 * data.len(),
        bits_at(data, p, 1) != 0,
        dec_from(len_table().0, len_table().1, data, p + 1, 1, 0, 0, 0) == Some((sym, p2)),
        0 <= len_extra_of(sym as int),
        p2 + len_extra_of(sym as int) <= 8 * data.len(),
        len_base_of(sym as int) + bits_at(data, p2, len_extra_of(sym as int) as nat) == 519,
    ensures
        explode_from(data, lit, dictbits, p, out) == Some(out),
{
}

/// Decode one literal or match of a DCL stream (see [`explode_from`]): `Some(false)` to
/// go on, `Some(true)` at the end marker, `None` on an error.
#[verifier::rlimit(60)]
fn explode_step(
    s: &mut Blast,
    lit: u8,
    dictbits: u8,
    litcode: &Huff,
    lencode: &Huff,
    distcode: &Huff,
) -> (r: Option<bool>)
    requires
        old(s).wf(),
        litcode.wf(),
        lencode.wf(),
        distcode.wf(),
        lencode.symbol@.len() == 16,
        4 <= dictbits <= 6,
        lit <= 1,
        (lencode.count@, lencode.symbol@) == len_table(),
        (distcode.count@, distcode.symbol@) == dist_table(),
        (litcode.count@, litcode.symbol@) == lit_table(),
    ensures
        final(s).data == old(s).data,
        r is Some ==> final(s).wf(),
        r == Some(false) ==> final(s).unread() < old(s).unread() && explode_from(
            old(s).data@,
            lit != 0,
            dictbits as int,
            old(s).pos(),
            old(s).out@,
        ) == explode_from(old(s).data@, lit != 0, dictbits as int, final(s).pos(), final(s).out@),
        r == Some(true) ==> explode_from(old(s).data@, lit != 0, dictbits as int, old(s).pos(), old(s).out@)
            == Some(old(s).out@) && final(s).out@ == old(s).out@,
        r is None ==> explode_from(old(s).data@, lit != 0, dictbits as int, old(s).pos(), old(s).out@) is None,
{
    let ghost d = s.data@;
    let ghost p = s.pos();
    let ghost out0 = s.out@;
    let ghost u0 = s.unread();
    proof {
        lemma2_to64();
    }
    let flag = match s.bits(1) {
        Some(v) => v,
        None => return None,
    };
    assert(flag as int == bits_at(d, p, 1));
    if flag != 0 {
        let sym16 = match s.decode(lencode) {
            Some(v) => v,
            None => return None,
        };
        let sym = sym16 as usize;
        let ghost p2 = s.pos();
        assert(dec_from(len_table().0, len_table().1, d, p + 1, 1, 0, 0, 0) == Some((sym16, p2)));
        let extra = match s.bits(len_extra(sym)) {
            Some(v) => v,
            None => return None,
        };
        let ghost e = len_extra_of(sym as int);
        assert(extra as int == bits_at(d, p2, e as nat));
        assert(s.pos() == p2 + e);
        let length: i64 = len_base(sym) + extra as i64;
        assert(length == len_base_of(sym as int) + bits_at(d, p2, e as nat));
        if length == 519 {
            assert(explode_from(d, lit != 0, dictbits as int, p, out0) == Some(out0));
            return Some(true);
        }
        let shift: u32 = if length == 2 { 2 } else { dictbits as u32 };
        let ghost p3 = s.pos();
        let dsym16 = match s.decode(distcode) {
            Some(v) => v,
            None => return None,
        };
        let dsym = dsym16 as u64;
        let ghost p4 = s.pos();
        assert(dec_from(dist_table().0, dist_table().1, d, p3, 1, 0, 0, 0) == Some((dsym16, p4)));
        let low = match s.bits(shift) {
            Some(v) => v as u64,
            None => return None,
        };
        assert(low as int == bits_at(d, p4, shift as nat));
        assert(s.pos() == p4 + shift);
        let mult: u64 = 1u64 << shift;
        assert(mult <= 64) by (bit_vector)
            requires
                shift <= 6,
                mult == 1u64 << shift,
        ;
        proof {
            vstd::bits::lemma_u64_shl_is_mul(1u64, shift as u64);
        }
        assert(dsym * mult <= 65535 * 64) by (nonlinear_arith)
            requires
                dsym <= 65535,
                mult <= 64,
        ;
        let dist: u64 = dsym * mult + low + 1;
        assert(dist as int == dsym16 as int * pow2(shift as nat) + bits_at(d, p4, shift as nat) + 1);
        if dist > s.out.len() as u64 {
            return None;
        }
        let start: usize = s.out.len() - dist as usize;
        let n = length as usize;
        let mut i: usize = 0;
        let ghost u = s.unread();
        let ghost q = s.pos();
        proof {
            assert(s.out@ == lz_copy(out0, start as int, 0));
        }
        while i < n
            invariant
                i <= n,
                start + dist == out0.len(),
                dist >= 1,
                s.out@ == lz_copy(out0, start as int, i as int),
                s.out@.len() == out0.len() + i,
                s.wf(),
                s.data@ == d,
                s.unread() == u,
                s.pos() == q,
            decreases n - i,
        {
            let olen = s.out.len();
            assert(start + i < olen);
            let b = s.out[start + i];
            s.out.push(b);
            i = i + 1;
        }
        assert(explode_from(d, lit != 0, dictbits as int, p, out0) == explode_from(
            d,
            lit != 0,
            dictbits as int,
            p4 + shift,
            lz_copy(out0, out0.len() - dist, length as int),
        ));
        Some(false)
    } else {
        let byte: u8 = if lit != 0 {
            match s.decode(litcode) {
                Some(v) => {
                    #[verifier::truncate]
                    (v as u8)
                },
                None => return None,
            }
        } else {
            match s.bits(8) {
                Some(v) => v as u8,
                None => return None,
            }
        };
        s.out.push(byte);
        Some(false)
    }
}

/// Decompress a raw PKWARE DCL ("implode") stream (see [`explode_spec`]).
pub fn explode(data: &[u8]) -> (r: Option<Vec<u8>>)
    ensures
        match explode_spec(data@) {
            Some(o) => r is Some && r->Some_0@ == o,
            None => r is None,
        },
        !dcl_header_ok(data@) ==> r is None,
{
    if data.len() < 2 {
        return None;
    }
    let lit = data[0];
    let dictbits = data[1];
    if lit > 1 || dictbits < 4 || dictbits > 6 {
        return None;
    }
    let lt = litlen();
    let lnt = lenlen();
    let dt = distlen();
    assert(rep_ok(lt@));
    assert(rep_ok(lnt@));
    assert(rep_ok(dt@));
    let litcode = Huff::new(lt.as_slice());
    let lencode = Huff::new(lnt.as_slice());
    let distcode = Huff::new(dt.as_slice());
    proof {
        lemma_lenlen_expands(lnt@);
    }
    let ghost goal = explode_spec(data@);
    let mut s = Blast { data, inpos: 2, bitbuf: 0, bitcnt: 0, out: Vec::new() };
    proof {
        assert(s.out@ =~= Seq::<u8>::empty());
        assert(bits_at(data@, 16, 0) == 0);
    }
    loop
        invariant_except_break
            goal == explode_from(data@, lit != 0, dictbits as int, s.pos(), s.out@),
            s.wf(),
        invariant
            s.data == data,
            litcode.wf(),
            lencode.wf(),
            distcode.wf(),
            lencode.symbol@.len() == 16,
            4 <= dictbits <= 6,
            lit <= 1,
            (lencode.count@, lencode.symbol@) == len_table(),
            (distcode.count@, distcode.symbol@) == dist_table(),
            (litcode.count@, litcode.symbol@) == lit_table(),
            goal == explode_spec(data@),
        ensures
            goal == Some(s.out@),
        decreases s.unread(),
    {
        match explode_step(&mut s, lit, dictbits, &litcode, &lencode, &distcode) {
            Some(false) => {},
            Some(true) => {
                break;
            },
            None => {
                return None;
            },
        }
    }
    Some(s.out)
}

/// Where the DCL payload of an installer file starts: after the fixed header, the
/// stored file name (length at offset 28) and one pad byte.
pub open spec fn payload_start(buf: Seq<u8>) -> int {
    30 + buf[28]
}

/// Where the DCL payload of an installer file ends: its stored 24-bit size past the
/// start, clamped to the file.
pub open spec fn payload_end(buf: Seq<u8>) -> int {
    let e = payload_start(buf) + buf[14] + 256 * buf[15] + 65536 * buf[16];
    if e < buf.len() { e } else { buf.len() as int }
}

/// Whether `buf` carries the installer header: long enough and starting with [`MAGIC`].
pub open spec fn installer_header_ok(buf: Seq<u8>) -> bool {
    buf.len() >= 30 && le_u32(buf, 0) == MAGIC
}

/// Decompress an original installer file (the whole `*.00$` / `*.SC$` bytes) into the
/// plain resource it carries. `None` if the bytes are not an installer file or the
/// stream is malformed.
pub fn decompress_installer(buf: &[u8]) -> (r: Option<Vec<u8>>)
    ensures
        !installer_header_ok(buf@) ==> r is None,
        installer_header_ok(buf@) && payload_start(buf@) > buf@.len() ==> r is None,
        installer_header_ok(buf@) && payload_start(buf@) <= buf@.len() && !dcl_header_ok(
            buf@.subrange(payload_start(buf@), payload_end(buf@)),
        ) ==> r is None,
        installer_header_ok(buf@) && payload_start(buf@) <= buf@.len() ==> match explode_spec(
            buf@.subrange(payload_start(buf@), payload_end(buf@)),
        ) {
            Some(o) => r is Some && r->Some_0@ == o,
            None => r is None,
        },
{
    if buf.len() < 30 || !is_installer_compressed(buf) {
        return None;
    }
    let size: usize = buf[14] as usize + 256 * (buf[15] as usize) + 65536 * (buf[16] as usize);
    let off: usize = 30 + buf[28] as usize;
    let end: usize = if size < buf.len() - off.min(buf.len()) && off < buf.len() { off + size } else { buf.len() };
    if off > buf.len() {
        return None;
    }
    explode(slice_subrange(buf, off, end))
}

/// Whether `buf` starts with the installer-compression magic.
pub fn is_installer_compressed(buf: &[u8]) -> (b: bool)
    ensures
        b == (buf@.len() >= 4 && le_u32(buf@, 0) == MAGIC),
{
    buf.len() >= 4 && buf[0] == 0x65 && buf[1] == 0x5d && buf[2] == 0x13 && buf[3] == 0x8c
}

} // verus!
