//! Decompression for DGDS packed chunks.
//!
//! Methods: `0` = stored, `1` = RLE, `2` = LZW (variable-width, 9..=12 bits, LSB-first,
//! with `0x100` as the clear code).
use vstd::prelude::*;
use vstd::slice::{slice_subrange, slice_to_vec};
use vstd::arithmetic::power2::pow2;
use crate::dgds::error::{DgdsError, malformed};

verus! {

/// Stored (no compression).
pub const METHOD_NONE: u8 = 0;
/// Run-length encoding.
pub const METHOD_RLE: u8 = 1;
/// Lempel–Ziv–Welch.
pub const METHOD_LZW: u8 = 2;

/// RLE decoding from input position `i`, with `out` produced so far: `None` when the
/// input runs out before `out_size` bytes are produced.
///
/// A control byte with the high bit set repeats the next byte `control & 0x7F` times;
/// otherwise the control byte counts the literal bytes that follow. Output beyond
/// `out_size` is cut off.
pub open spec fn rle_from(input: Seq<u8>, i: int, out: Seq<u8>, out_size: int) -> Option<Seq<u8>>
    decreases input.len() - i,
{
    if out.len() >= out_size {
        Some(out)
    } else if i < 0 || i >= input.len() {
        None
    } else if input[i] >= 128 {
        let length = input[i] - 128;
        if i + 1 >= input.len() {
            None
        } else {
            let take = if length <= out_size - out.len() { length } else { out_size - out.len() };
            rle_from(input, i + 2, out + Seq::new(take as nat, |k: int| input[i + 1]), out_size)
        }
    } else {
        let length = input[i] as int;
        if i + 1 + length > input.len() {
            None
        } else {
            let take = if length <= out_size - out.len() { length } else { out_size - out.len() };
            rle_from(input, i + 1 + length, out + input.subrange(i + 1, i + 1 + take), out_size)
        }
    }
}

/// The RLE decoding of `input` into `out_size` bytes, if the input suffices.
pub open spec fn rle_spec(input: Seq<u8>, out_size: int) -> Option<Seq<u8>> {
    rle_from(input, 0, Seq::empty(), out_size)
}

/// RLE decompression (method 1).
///
/// Control byte: if the high bit is set, the low 7 bits are a repeat count for the
/// following value byte; otherwise the control byte is a literal count.
pub fn rle(input: &[u8], out_size: usize) -> (r: Result<Vec<u8>, DgdsError>)
    ensures
        match rle_spec(input@, out_size as int) {
            Some(v) => r is Ok && r->Ok_0@ == v,
            None => r is Err && r->Err_0 is UnexpectedEof,
        },
        r matches Ok(v) ==> v@.len() == out_size,
{
    proof {
        lemma_rle_from_len(input@, 0, Seq::empty(), out_size as int);
    }
    let mut out: Vec<u8> = Vec::new();
    let mut i: usize = 0;
    while out.len() < out_size
        invariant
            i <= input@.len(),
            out@.len() <= out_size,
            rle_spec(input@, out_size as int) == rle_from(input@, i as int, out@, out_size as int),
        decreases input@.len() - i,
    {
        if i >= input.len() {
            return Err(DgdsError::eof("rle: control", i.saturating_add(1), input.len()));
        }
        let control = input[i];
        if control & 0x80 != 0 {
            assert(control >= 128) by (bit_vector)
                requires
                    control & 0x80 != 0,
            ;
            let length = (control - 128) as usize;
            if i + 1 >= input.len() {
                return Err(DgdsError::eof("rle: value", i.saturating_add(2), input.len()));
            }
            let value = input[i + 1];
            let take = if length <= out_size - out.len() { length } else { out_size - out.len() };
            let ghost old_out = out@;
            let mut k: usize = 0;
            while k < take
                invariant
                    k <= take,
                    out@ == old_out + Seq::new(k as nat, |m: int| value),
                decreases take - k,
            {
                out.push(value);
                k = k + 1;
                assert(out@ =~= old_out + Seq::new(k as nat, |m: int| value));
            }
            proof {
                assert(Seq::new(take as nat, |m: int| value) =~= Seq::new(
                    take as nat,
                    |m: int| input@[i + 1],
                ));
            }
            i = i + 2;
        } else {
            assert(control < 128) by (bit_vector)
                requires
                    control & 0x80 == 0,
            ;
            let length = control as usize;
            if length > input.len() - i - 1 {
                return Err(DgdsError::eof("rle: literal", (i + 1).saturating_add(length), input.len()));
            }
            let take = if length <= out_size - out.len() { length } else { out_size - out.len() };
            let ghost old_out = out@;
            let mut k: usize = 0;
            while k < take
                invariant
                    k <= take,
                    take <= length,
                    i + 1 + length <= input.len(),
                    out@ == old_out + input@.subrange(i + 1, i + 1 + k),
                decreases take - k,
            {
                out.push(input[i + 1 + k]);
                k = k + 1;
                assert(out@ =~= old_out + input@.subrange(i + 1, i + 1 + k));
            }
            i = i + 1 + length;
        }
    }
    Ok(out)
}


/// Whether `out` is what decompressing `input` with `method` into `size` bytes gives.
pub open spec fn decodes_to(method: u8, input: Seq<u8>, size: int, out: Seq<u8>) -> bool {
    if method == METHOD_NONE {
        input.len() >= size && out == input.take(size)
    } else if method == METHOD_RLE {
        rle_spec(input, size) == Some(out)
    } else if method == METHOD_LZW {
        lzw_spec(input, size) == Some(out)
    } else {
        false
    }
}

/// Whether decompressing `input` with `method` into `size` bytes may fail.
pub open spec fn may_fail(method: u8, input: Seq<u8>, size: int) -> bool {
    if method == METHOD_NONE {
        input.len() < size
    } else if method == METHOD_RLE {
        rle_spec(input, size) is None
    } else if method == METHOD_LZW {
        lzw_spec(input, size) is None
    } else {
        true
    }
}

/// Decompress `input` into exactly `out_size` bytes using `method`.
pub fn decompress(method: u8, input: &[u8], out_size: usize) -> (r: Result<Vec<u8>, DgdsError>)
    ensures
        r is Ok ==> decodes_to(method, input@, out_size as int, r->Ok_0@),
        r is Err ==> may_fail(method, input@, out_size as int),
        method == METHOD_NONE ==> (if input@.len() < out_size {
            r is Err && r->Err_0 is UnexpectedEof
        } else {
            r is Ok && r->Ok_0@ == input@.take(out_size as int)
        }),
        method == METHOD_RLE ==> match rle_spec(input@, out_size as int) {
            Some(v) => r is Ok && r->Ok_0@ == v,
            None => r is Err && r->Err_0 is UnexpectedEof,
        },
        method == METHOD_LZW ==> match lzw_spec(input@, out_size as int) {
            Some(v) => r is Ok && r->Ok_0@ == v,
            None => r is Err && r->Err_0 is Malformed,
        },
        method > METHOD_LZW ==> r == Err::<Vec<u8>, DgdsError>(DgdsError::UnknownCompression(method)),
        r matches Ok(v) ==> v@.len() == out_size,
{
    proof {
        lemma_lzw_len(input@, out_size as int);
        lemma_rle_from_len(input@, 0, Seq::empty(), out_size as int);
    }
    if method == METHOD_NONE {
        if input.len() < out_size {
            return Err(DgdsError::eof("decompress(none)", out_size, input.len()));
        }
        Ok(slice_to_vec(slice_subrange(input, 0, out_size)))
    } else if method == METHOD_RLE {
        rle(input, out_size)
    } else if method == METHOD_LZW {
        lzw(input, out_size)
    } else {
        Err(DgdsError::UnknownCompression(method))
    }
}

/// The tables and registers of an LZW decoder between two codes.
pub struct LzwState {
    /// For each table code, the code it extends.
    pub prefix: Seq<u16>,
    /// For each table code, the byte it appends.
    pub append: Seq<u8>,
    /// The current code width (9 to 12 bits).
    pub n_bits: u32,
    /// The next table code to assign.
    pub free_entry: u32,
    /// Bits read since the width last changed, modulo eight codes.
    pub bitpos: u32,
    /// The previous code.
    pub oldcode: u16,
    /// The first byte of the previous code's string.
    pub lastbyte: u16,
}

/// The bytes pushed on the decode stack while resolving `code` through the tables, with
/// room for `room` more bytes: the appended byte of each table code along the chain,
/// then the byte of the literal code it ends at. `None` when the stack would overflow.
pub open spec fn lzw_chain(prefix: Seq<u16>, append: Seq<u8>, code: int, room: int) -> Option<Seq<u8>>
    decreases room,
{
    if room <= 0 {
        None
    } else if code > 255 {
        match lzw_chain(prefix, append, prefix[code] as int, room - 1) {
            Some(rest) => Some(seq![append[code]] + rest),
            None => None,
        }
    } else {
        Some(seq![code as u8])
    }
}

/// The literal code the chain of `code` ends at.
pub open spec fn lzw_root(prefix: Seq<u16>, code: int, room: int) -> int
    decreases room,
{
    if room <= 0 {
        code
    } else if code > 255 {
        lzw_root(prefix, prefix[code] as int, room - 1)
    } else {
        code
    }
}

/// How many more bits a reader at bit `pos` of `data` can consume before it has fetched
/// its last byte.
pub open spec fn lzw_fuel(data: Seq<u8>, pos: int) -> nat {
    if pos < 8 * data.len() {
        (8 * data.len() - pos) as nat
    } else {
        0
    }
}

/// The tables after `newcode` was decoded to a string starting with `lastbyte`: the
/// previous code extended by that byte takes the next free code (while there is one),
/// widening the codes when they no longer fit.
pub open spec fn lzw_learn(st: LzwState, newcode: u16, lastbyte: u16) -> LzwState {
    if st.free_entry < 4096 {
        let free = (st.free_entry + 1) as u32;
        let widen = free >= (1u32 << st.n_bits) && st.n_bits < 12;
        LzwState {
            prefix: st.prefix.update(st.free_entry as int, st.oldcode),
            append: st.append.update(st.free_entry as int, lastbyte as u8),
            free_entry: free,
            n_bits: if widen { (st.n_bits + 1) as u32 } else { st.n_bits },
            bitpos: if widen { 0 } else { st.bitpos },
            oldcode: newcode,
            lastbyte,
        }
    } else {
        LzwState { oldcode: newcode, lastbyte, ..st }
    }
}

/// LZW decoding of the codes of `data` from bit `pos` on, with `out` produced so far and
/// the decoder in state `st`: `None` on a malformed stream.
///
/// Each code is read with the current width. The clear code `0x100` resets the width and
/// the table and skips to the next boundary of eight codes. A code not yet in the table
/// stands for the previous string followed by its own first byte. A code's string is
/// found by following the table to a literal byte, through a stack of 4096 bytes, and is
/// emitted; decoding stops once `out_size` bytes are out, or when the reader has fetched
/// the last byte of the data.
pub open spec fn lzw_from(data: Seq<u8>, out_size: int, st: LzwState, pos: int, out: Seq<u8>) -> Option<Seq<u8>>
    decreases lzw_fuel(data, pos),
{
    if pos < 0 {
        None
    } else if bits_exhausted(data, pos) {
        if out.len() >= out_size {
            Some(out)
        } else {
            None
        }
    } else {
        let nb = st.n_bits;
        let newcode = bits_at(data, pos, if nb <= 16 { nb as nat } else { 16 });
        let pos1 = pos + nb;
        let bitpos1 = ((st.bitpos + nb) % (nb * 8)) as u32;
        if nb < 9 || nb > 12 {
            None
        } else if newcode == 256 {
            let nbits3 = nb * 8;
            let nskip = (nbits3 - ((bitpos1 + nbits3 - 1) % nbits3)) - 1;
            lzw_from(
                data,
                out_size,
                LzwState { n_bits: 9, free_entry: 256, bitpos: 0, ..st },
                pos1 + nskip,
                out,
            )
        } else {
            let kwk = newcode >= st.free_entry;
            let start: Seq<u8> = if kwk {
                seq![st.lastbyte as u8]
            } else {
                Seq::empty()
            };
            let code: int = if kwk {
                st.oldcode as int
            } else {
                newcode
            };
            match lzw_chain(st.prefix, st.append, code, 4096 - start.len()) {
                None => None,
                Some(chain) => {
                    let popped = (start + chain).reverse();
                    if out.len() + popped.len() > out_size {
                        Some(out + popped.take(out_size - out.len()))
                    } else {
                        let root = lzw_root(st.prefix, code, 4096 - start.len());
                        lzw_from(
                            data,
                            out_size,
                            lzw_learn(LzwState { bitpos: bitpos1, ..st }, newcode as u16, root as u16),
                            pos1,
                            out + popped,
                        )
                    }
                },
            }
        }
    }
}

/// The LZW decoding of `input` into at most `out_size` bytes: the first 9-bit code is a
/// literal, the rest follow [`lzw_from`]; `None` on a malformed stream.
pub open spec fn lzw_spec(input: Seq<u8>, out_size: int) -> Option<Seq<u8>> {
    if out_size <= 0 {
        Some(Seq::empty())
    } else {
        let first = bits_at(input, 0, 9);
        lzw_from(
            input,
            out_size,
            LzwState {
                prefix: Seq::new(4096, |i: int| 0u16),
                append: Seq::new(4096, |i: int| 0u8),
                n_bits: 9,
                free_entry: 257,
                bitpos: 0,
                oldcode: first as u16,
                lastbyte: first as u16,
            },
            9,
            seq![first as u8],
        )
    }
}

/// A successful decoding from a state that has not overrun its size fills it exactly.
proof fn lemma_lzw_from_len(data: Seq<u8>, out_size: int, st: LzwState, pos: int, out: Seq<u8>)
    requires
        out.len() <= out_size,
    ensures
        lzw_from(data, out_size, st, pos, out) matches Some(v) ==> v.len() == out_size,
    decreases lzw_fuel(data, pos),
{
    if pos >= 0 && !bits_exhausted(data, pos) {
        let nb = st.n_bits;
        let newcode = bits_at(data, pos, if nb <= 16 { nb as nat } else { 16 });
        let pos1 = pos + nb;
        let bitpos1 = ((st.bitpos + nb) % (nb * 8)) as u32;
        if 9 <= nb <= 12 {
            if newcode == 256 {
                let nbits3 = nb * 8;
                let nskip = (nbits3 - ((bitpos1 + nbits3 - 1) % nbits3)) - 1;
                lemma_lzw_from_len(
                    data,
                    out_size,
                    LzwState { n_bits: 9, free_entry: 256, bitpos: 0, ..st },
                    pos1 + nskip,
                    out,
                );
            } else {
                let kwk = newcode >= st.free_entry;
                let start: Seq<u8> = if kwk { seq![st.lastbyte as u8] } else { Seq::empty() };
                let code: int = if kwk { st.oldcode as int } else { newcode };
                match lzw_chain(st.prefix, st.append, code, 4096 - start.len()) {
                    None => {},
                    Some(chain) => {
                        let popped = (start + chain).reverse();
                        if out.len() + popped.len() <= out_size {
                            let root = lzw_root(st.prefix, code, 4096 - start.len());
                            lemma_lzw_from_len(
                                data,
                                out_size,
                                lzw_learn(LzwState { bitpos: bitpos1, ..st }, newcode as u16, root as u16),
                                pos1,
                                out + popped,
                            );
                        }
                    },
                }
            }
        }
    }
}

/// A successful decoding has exactly the size asked for.
pub proof fn lemma_lzw_len(input: Seq<u8>, out_size: int)
    ensures
        lzw_spec(input, out_size) matches Some(v) ==> v.len() == if out_size <= 0 { 0 } else { out_size },
{
    if out_size > 0 {
        let first = bits_at(input, 0, 9);
        lemma_lzw_from_len(
            input,
            out_size,
            LzwState {
                prefix: Seq::new(4096, |i: int| 0u16),
                append: Seq::new(4096, |i: int| 0u8),
                n_bits: 9,
                free_entry: 257,
                bitpos: 0,
                oldcode: first as u16,
                lastbyte: first as u16,
            },
            9,
            seq![first as u8],
        );
    }
}

/// A successful run-length decoding that has not overrun its size fills it exactly.
proof fn lemma_rle_from_len(input: Seq<u8>, i: int, out: Seq<u8>, out_size: int)
    requires
        out.len() <= out_size,
    ensures
        rle_from(input, i, out, out_size) matches Some(v) ==> v.len() == out_size,
    decreases input.len() - i,
{
    if out.len() < out_size && 0 <= i < input.len() {
        if input[i] >= 128 {
            let length = input[i] - 128;
            if i + 1 < input.len() {
                let take = if length <= out_size - out.len() { length } else { out_size - out.len() };
                lemma_rle_from_len(input, i + 2, out + Seq::new(take as nat, |k: int| input[i + 1]), out_size);
            }
        } else {
            let length = input[i] as int;
            if i + 1 + length <= input.len() {
                let take = if length <= out_size - out.len() { length } else { out_size - out.len() };
                lemma_rle_from_len(input, i + 1 + length, out + input.subrange(i + 1, i + 1 + take), out_size);
            }
        }
    }
}

/// LZW decompression (method 2): the decoding [`lzw_spec`] of `input` into exactly
/// `out_size` bytes, or an error on a malformed stream or one that ends early.
pub fn lzw(input: &[u8], out_size: usize) -> (r: Result<Vec<u8>, DgdsError>)
    ensures
        match lzw_spec(input@, out_size as int) {
            Some(v) => r is Ok && r->Ok_0@ == v,
            None => r is Err && r->Err_0 is Malformed,
        },
        r matches Ok(v) ==> v@.len() == out_size,
{
    proof {
        lemma_lzw_len(input@, out_size as int);
    }
    if out_size == 0 {
        return Ok(Vec::new());
    }
    let mut prefix: Vec<u16> = vec![0u16; 4096];
    let mut append: Vec<u8> = vec![0u8; 4096];
    let mut stack: Vec<u8> = vec![0u8; 4096];
    let mut sp: usize = 0;

    let mut n_bits: u32 = 9;
    let mut free_entry: u32 = 257;
    // Only ever used modulo `n_bits * 8`, so it is kept reduced.
    let mut bitpos: u32 = 0;

    let mut br = BitReader::new(input);

    let mut oldcode: u16 = br.get_bits(n_bits);
    let mut lastbyte: u16 = oldcode;

    let mut out: Vec<u8> = Vec::new();
    out.push(#[verifier::truncate] (oldcode as u8));
    proof {
        assert(prefix@ =~= Seq::new(4096, |i: int| 0u16));
        assert(append@ =~= Seq::new(4096, |i: int| 0u8));
    }

    while !br.exhausted()
        invariant
            br.wf(),
            br.data@ == input@,
            9 <= n_bits <= 12,
            256 <= free_entry <= 4096,
            bitpos < n_bits * 8,
            prefix@.len() == 4096,
            append@.len() == 4096,
            stack@.len() == 4096,
            sp == 0,
            forall|k: int| 0 <= k < 4096 ==> #[trigger] prefix@[k] < 4096,
            oldcode < 4096,
            out_size > 0,
            out@.len() <= out_size,
            lzw_spec(input@, out_size as int) == lzw_from(
                input@,
                out_size as int,
                LzwState {
                    prefix: prefix@,
                    append: append@,
                    n_bits,
                    free_entry,
                    bitpos,
                    oldcode,
                    lastbyte,
                },
                br.pos@,
                out@,
            ),
        decreases br.max - br.in_offset,
    {
        let ghost st0 = LzwState {
            prefix: prefix@,
            append: append@,
            n_bits,
            free_entry,
            bitpos,
            oldcode,
            lastbyte,
        };
        let ghost pos0 = br.pos@;
        let ghost out0 = out@;
        let ghost off0 = br.in_offset;
        let newcode = br.get_bits(n_bits);
        assert(br.in_offset > off0);
        bitpos = (bitpos + n_bits) % (n_bits * 8);

        if newcode == 256 {
            // Clear: realign the bit stream to the next (n_bits << 3) boundary, reset.
            let nbits3 = n_bits * 8;
            let nskip = (nbits3 - ((bitpos + nbits3 - 1) % nbits3)) - 1;
            br.skip_bits(nskip);
            n_bits = 9;
            free_entry = 256;
            bitpos = 0;
            continue;
        }

        let mut code: u16 = newcode;
        let kwk = (code as u32) >= free_entry;

        if kwk {
            // KwKwK case: the code is not yet in the table.
            stack.set(sp, #[verifier::truncate] (lastbyte as u8));
            sp = sp + 1;
            code = oldcode;
        }
        let ghost start = stack@.subrange(0, sp as int);
        let ghost code0 = code as int;
        let ghost sp0 = sp as int;
        proof {
            assert(!bits_exhausted(input@, pos0));
            assert(newcode as int == bits_at(input@, pos0, n_bits as nat));
            if kwk {
                assert(start =~= seq![st0.lastbyte as u8]);
            } else {
                assert(start =~= Seq::<u8>::empty());
            }
            assert(stack@.subrange(sp0, sp as int) =~= Seq::<u8>::empty());
        }

        while code > 255
            invariant
                out_size > 0,
                0 <= sp0 <= 1,
                sp0 <= sp <= 4096,
                code < 4096,
                lzw_chain(st0.prefix, st0.append, code0, 4096 - sp0) is None ==> lzw_spec(
                    input@,
                    out_size as int,
                ) is None,
                prefix@ == st0.prefix,
                append@ == st0.append,
                prefix@.len() == 4096,
                append@.len() == 4096,
                stack@.len() == 4096,
                stack@.subrange(0, sp0) == start,
                forall|k: int| 0 <= k < 4096 ==> #[trigger] prefix@[k] < 4096,
                lzw_chain(st0.prefix, st0.append, code0, 4096 - sp0) == match lzw_chain(
                    st0.prefix,
                    st0.append,
                    code as int,
                    4096 - sp,
                ) {
                    Some(rest) => Some(stack@.subrange(sp0, sp as int) + rest),
                    None => None,
                },
                lzw_root(st0.prefix, code0, 4096 - sp0) == lzw_root(st0.prefix, code as int, 4096 - sp),
            decreases 4096 - sp,
        {
            if sp >= 4096 {
                return Err(malformed("LZW decode stack overflow"));
            }
            let ghost before = stack@;
            let av = append[code as usize];
            stack.set(sp, av);
            proof {
                assert(stack@ == before.update(sp as int, av));
                assert(av == append@[code as int]);
                assert(stack@.subrange(sp0, sp + 1) =~= before.subrange(sp0, sp as int).push(append@[code as int]));
                assert(stack@.subrange(0, sp0) =~= before.subrange(0, sp0));
                let nxt = lzw_chain(st0.prefix, st0.append, prefix@[code as int] as int, 4096 - sp - 1);
                if nxt is Some {
                    assert(before.subrange(sp0, sp as int) + (seq![append@[code as int]] + nxt->Some_0)
                        =~= stack@.subrange(sp0, sp + 1) + nxt->Some_0);
                }
            }
            sp = sp + 1;
            code = prefix[code as usize];
        }

        if sp >= 4096 {
            return Err(malformed("LZW decode stack overflow"));
        }
        let ghost before = stack@;
        stack.set(sp, #[verifier::truncate] (code as u8));
        sp = sp + 1;
        lastbyte = code;
        let ghost total = sp as int;
        let ghost stk = stack@.subrange(0, total);
        proof {
            assert(stack@.subrange(sp0, total) =~= before.subrange(sp0, total - 1).push(code as u8));
            assert(stk =~= start + stack@.subrange(sp0, total));
            assert(lzw_chain(st0.prefix, st0.append, code0, 4096 - sp0) == Some(stack@.subrange(sp0, total))) by {
                assert(before.subrange(sp0, total - 1) + seq![code as u8] =~= stack@.subrange(sp0, total));
            }
            assert(start.len() == sp0);
            assert(stk.reverse() == (start + stack@.subrange(sp0, total)).reverse());
        }

        while sp > 0
            invariant
                0 <= sp <= total,
                total <= 4096,
                stack@.len() == 4096,
                stk == stack@.subrange(0, total),
                out_size > 0,
                out@ == out0 + stk.reverse().take(total - sp),
                out0.len() + (total - sp) <= out_size,
                out0.len() + stk.reverse().len() > out_size ==> lzw_spec(input@, out_size as int)
                    == Some(out0 + stk.reverse().take(out_size - out0.len())),
            decreases sp,
        {
            sp = sp - 1;
            if out.len() >= out_size {
                proof {
                    assert(out0.len() + stk.reverse().len() > out_size);
                }
                return Ok(out);
            }
            let ghost before = out@;
            out.push(stack[sp]);
            proof {
                assert(stk.reverse()[total - sp - 1] == stk[sp as int]);
                assert(stk.reverse().take(total - sp) =~= stk.reverse().take(total - sp - 1).push(stk[sp as int]));
            }
        }
        proof {
            assert(stk.reverse().take(total) =~= stk.reverse());
        }

        if free_entry < 4096 {
            prefix.set(free_entry as usize, oldcode);
            append.set(free_entry as usize, #[verifier::truncate] (lastbyte as u8));
            free_entry = free_entry + 1;
            if free_entry >= (1u32 << n_bits) && n_bits < 12 {
                n_bits = n_bits + 1;
                bitpos = 0;
            }
        }

        oldcode = newcode;
    }

    if out.len() < out_size {
        return Err(malformed("LZW stream ended before the output was complete"));
    }
    Ok(out)
}

/// Bit `p` of `data`, least significant bit of each byte first; bits past the end of
/// the data read as zero.
pub open spec fn bit_at(data: Seq<u8>, p: int) -> int {
    if 0 <= p && p / 8 < data.len() {
        ((data[p / 8] >> ((p % 8) as u8)) & 1) as int
    } else {
        0
    }
}

/// The number made of the `n` bits of `data` from bit `p` on, least significant first.
pub open spec fn bits_at(data: Seq<u8>, p: int, n: nat) -> int
    decreases n,
{
    if n == 0 {
        0
    } else {
        bits_at(data, p, (n - 1) as nat) + bit_at(data, p + n - 1) * pow2((n - 1) as nat)
    }
}

/// Whether a reader at bit `p` of `data` has fetched its last byte.
pub open spec fn bits_exhausted(data: Seq<u8>, p: int) -> bool {
    p / 8 + 1 >= data.len()
}

pub(crate) proof fn lemma_bits_bound(data: Seq<u8>, p: int, n: nat)
    ensures
        0 <= bits_at(data, p, n) < pow2(n),
    decreases n,
{
    vstd::arithmetic::power2::lemma2_to64();
    if n > 0 {
        lemma_bits_bound(data, p, (n - 1) as nat);
        vstd::arithmetic::power2::lemma_pow2_unfold(n);
        let b = bit_at(data, p + n - 1);
        if 0 <= p + n - 1 && (p + n - 1) / 8 < data.len() {
            let byte = data[(p + n - 1) / 8];
            let sh = ((p + n - 1) % 8) as u8;
            assert(((byte >> sh) & 1) <= 1) by (bit_vector);
        }
        assert(0 <= b <= 1);
        if b == 0 {
            assert(bits_at(data, p, n) == bits_at(data, p, (n - 1) as nat));
        } else {
            assert(bits_at(data, p, n) == bits_at(data, p, (n - 1) as nat) + pow2((n - 1) as nat));
        }
    }
}

/// LSB-first bit reader: bits past the end of the data read as zero.
struct BitReader<'a> {
    data: &'a [u8],
    in_offset: usize,
    max: usize,
    current: u8,
    nextbit: u32,
    /// The number of bits read so far.
    pos: Ghost<int>,
}

impl<'a> BitReader<'a> {
    spec fn wf(&self) -> bool {
        &&& self.max == self.data@.len()
        &&& self.pos@ >= 0
        &&& self.nextbit == self.pos@ % 8
        &&& self.in_offset == if self.pos@ / 8 + 1 <= self.max {
            self.pos@ / 8 + 1
        } else {
            self.max as int
        }
        &&& self.current == if self.pos@ / 8 < self.max {
            self.data@[self.pos@ / 8]
        } else {
            0
        }
    }

    fn new(data: &'a [u8]) -> (br: Self)
        ensures
            br.wf(),
            br.data@ == data@,
            br.pos@ == 0,
    {
        let mut br = BitReader {
            data,
            in_offset: 0,
            max: data.len(),
            current: 0,
            nextbit: 0,
            pos: Ghost(0),
        };
        if data.len() > 0 {
            br.current = data[0];
            br.in_offset = 1;
        }
        br
    }

    /// Read `n` bits LSB-first (only the low 16 bits of the value are kept).
    fn get_bits(&mut self, n: u32) -> (v: u16)
        requires
            old(self).wf(),
            n <= 96,
        ensures
            final(self).wf(),
            final(self).data == old(self).data,
            final(self).max == old(self).max,
            final(self).pos@ == old(self).pos@ + n,
            v == bits_at(old(self).data@, old(self).pos@, if n <= 16 { n as nat } else { 16 }),
            final(self).in_offset >= old(self).in_offset,
            n >= 8 && old(self).in_offset < old(self).max ==> final(self).in_offset > old(self).in_offset,
            n <= 12 ==> v < 4096,
            n <= 9 ==> v < 512,
    {
        let ghost p0 = self.pos@;
        let ghost d = self.data@;
        proof {
            vstd::arithmetic::power2::lemma2_to64();
        }
        let mut x: u32 = 0;
        let mut pw: u32 = 1;
        let mut i: u32 = 0;
        while i < n
            invariant
                self.wf(),
                self.data == old(self).data,
                self.data@ == d,
                self.max == old(self).max,
                self.pos@ == p0 + i,
                p0 == old(self).pos@,
                i <= n,
                n <= 96,
                x == bits_at(d, p0, if i <= 16 { i as nat } else { 16 }),
                pw == if i <= 16 { pow2(i as nat) } else { pow2(16) },
            decreases n - i,
        {
            proof {
                lemma_bits_bound(d, p0, if i <= 16 { i as nat } else { 16 });
                vstd::arithmetic::power2::lemma2_to64();
            }
            let nb = self.nextbit;
            let cur = self.current;
            let bit = (cur & (1u8 << nb as u8)) != 0;
            proof {
                let k = nb as u8;
                assert(((cur & (1u8 << k)) != 0) == (((cur >> k) & 1) == 1)) by (bit_vector)
                    requires
                        k < 8,
                ;
                assert(((cur >> k) & 1) <= 1) by (bit_vector);
                let q = p0 + i;
                assert(k == (q % 8) as u8);
                if q / 8 < d.len() {
                    assert(cur == d[q / 8]);
                    assert(bit_at(d, q) == ((cur >> k) & 1) as int);
                } else {
                    assert(cur == 0);
                    assert(((0u8 >> k) & 1) == 0) by (bit_vector);
                }
                assert(bit == (bit_at(d, p0 + i) == 1));
                assert(bit_at(d, p0 + i) == 0 || bit_at(d, p0 + i) == 1);
            }
            if i < 16 {
                if bit {
                    x = x + pw;
                }
                proof {
                    vstd::arithmetic::power2::lemma_pow2_unfold((i + 1) as nat);
                    let b = bit_at(d, p0 + i);
                    let w = pow2(i as nat);
                    if bit {
                        assert(b * w == w) by (nonlinear_arith) requires b == 1;
                    } else {
                        assert(b * w == 0) by (nonlinear_arith) requires b == 0;
                    }
                    assert(bits_at(d, p0, (i + 1) as nat) == bits_at(d, p0, i as nat) + b * w);
                }
                pw = pw * 2;
            }
            self.nextbit = self.nextbit + 1;
            if self.nextbit > 7 {
                self.nextbit = 0;
                if self.in_offset < self.max {
                    self.current = self.data[self.in_offset];
                    self.in_offset = self.in_offset + 1;
                } else {
                    self.current = 0;
                }
            }
            proof {
                self.pos = Ghost(p0 + i + 1);
            }
            i = i + 1;
        }
        proof {
            lemma_bits_bound(d, p0, if n <= 16 { n as nat } else { 16 });
            vstd::arithmetic::power2::lemma2_to64();
            if n < 12 {
                vstd::arithmetic::power2::lemma_pow2_strictly_increases(n as nat, 12);
            }
            if n < 9 {
                vstd::arithmetic::power2::lemma_pow2_strictly_increases(n as nat, 9);
            }
        }
        x as u16
    }

    fn skip_bits(&mut self, n: u32)
        requires
            old(self).wf(),
            n <= 96,
        ensures
            final(self).wf(),
            final(self).data == old(self).data,
            final(self).max == old(self).max,
            final(self).pos@ == old(self).pos@ + n,
            final(self).in_offset >= old(self).in_offset,
    {
        let _ = self.get_bits(n);
    }

    fn exhausted(&self) -> (b: bool)
        requires
            self.wf(),
        ensures
            b == (self.in_offset >= self.max),
            b == bits_exhausted(self.data@, self.pos@),
    {
        self.in_offset >= self.max
    }
}

} // verus!
