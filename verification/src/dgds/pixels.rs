//! 4-bpp pixel decoding shared by `.BMP` and `.SCR` resources.
use vstd::prelude::*;

verus! {

/// The `k`-th 4-bit palette index packed in `packed`: high nibble first, then low.
pub open spec fn nibble(packed: Seq<u8>, k: int) -> u8 {
    if k % 2 == 0 {
        (packed[k / 2] / 16) as u8
    } else {
        (packed[k / 2] % 16) as u8
    }
}

/// How many indices [`decode_4bpp`] yields: `num_pixels`, or fewer if `packed` runs out.
pub open spec fn decoded_len(packed_len: int, num_pixels: int) -> int {
    if num_pixels <= 2 * packed_len {
        num_pixels
    } else {
        2 * packed_len
    }
}

/// The indices [`decode_4bpp`] yields for `packed` and `num_pixels`.
pub open spec fn decoded_pixels(packed: Seq<u8>, num_pixels: int) -> Seq<u8> {
    Seq::new(decoded_len(packed.len() as int, num_pixels) as nat, |k: int| nibble(packed, k))
}

/// Decode `num_pixels` 4-bpp palette indices from `packed`.
///
/// Each byte holds two pixels: the high nibble first, then the low nibble. Decoding stops
/// once `num_pixels` indices have been produced or `packed` is exhausted.
pub fn decode_4bpp(packed: &[u8], num_pixels: usize) -> (out: Vec<u8>)
    ensures
        out@.len() == decoded_len(packed@.len() as int, num_pixels as int),
        forall|k: int| 0 <= k < out@.len() ==> #[trigger] out@[k] == nibble(packed@, k),
        out@ == decoded_pixels(packed@, num_pixels as int),
{
    let mut out: Vec<u8> = Vec::new();
    let mut j: usize = 0;
    while j < packed.len()
        invariant_except_break
            out@.len() == decoded_len(j as int, num_pixels as int),
        invariant
            j <= packed@.len(),
            forall|k: int| 0 <= k < out@.len() ==> #[trigger] out@[k] == nibble(packed@, k),
        ensures
            out@.len() == decoded_len(packed@.len() as int, num_pixels as int),
        decreases packed.len() - j,
    {
        if out.len() >= num_pixels {
            break;
        }
        let byte = packed[j];
        let hi = (byte & 0xF0) >> 4;
        assert(hi == byte / 16) by (bit_vector)
            requires
                hi == (byte & 0xF0) >> 4,
        ;
        proof {
            assert(out@.len() == 2 * j);
            assert((2 * j) as int / 2 == j as int);
            assert((2 * j) as int % 2 == 0);
        }
        out.push(hi);
        assert(out@[2 * j] == nibble(packed@, 2 * j));
        if out.len() >= num_pixels {
            break;
        }
        let lo = byte & 0x0F;
        assert(lo == byte % 16) by (bit_vector)
            requires
                lo == byte & 0x0F,
        ;
        proof {
            assert((2 * j + 1) as int / 2 == j as int);
            assert((2 * j + 1) as int % 2 == 1);
        }
        out.push(lo);
        assert(out@[2 * j + 1] == nibble(packed@, 2 * j + 1));
        j = j + 1;
    }
    assert(out@ =~= decoded_pixels(packed@, num_pixels as int));
    out
}

} // verus!
