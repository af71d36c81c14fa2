//! Full-screen image (`.SCR`) resources.
//!
//! Layout: `SCR:` tag, `u16` total size, `u16` flags; `DIM:` tag, `u32` size, `u16` width,
//! `u16` height; `BIN:` tag, packed block of 4-bpp pixels (`width * height` indices).
use vstd::prelude::*;
use crate::dgds::chunk::{read_packed_block, packed_frame};
use crate::dgds::decompress::{decodes_to, may_fail};
use crate::dgds::error::DgdsError;
use crate::dgds::pixels::{decode_4bpp, decoded_pixels};
use crate::dgds::reader::{Reader, le_u16};

verus! {

/// A decoded full-screen image: `width * height` palette indices.
#[derive(Debug, Clone, PartialEq, Eq)]
pub struct Scr {
    /// Image width in pixels.
    pub width: u16,
    /// Image height in pixels.
    pub height: u16,
    /// Palette indices (row-major, one byte per pixel, values `0..=15`).
    pub pixels: Vec<u8>,
}

/// Whether the fixed header of an `.SCR` (its three tags) is present in `d`.
pub open spec fn scr_header(d: Seq<u8>) -> bool {
    &&& d.len() >= 24
    &&& d.subrange(0, 4) == seq![83u8, 67, 82, 58]
    &&& d.subrange(8, 12) == seq![68u8, 73, 77, 58]
    &&& d.subrange(20, 24) == seq![66u8, 73, 78, 58]
}

/// The product of two `u16`s fits in 32 bits.
pub proof fn lemma_u16_product(a: u16, b: u16)
    ensures
        0 <= (a as int) * (b as int) <= 4294836225,
{
    assert(0 <= (a as int) * (b as int) <= 65535 * 65535) by (nonlinear_arith)
        requires
            a <= 65535,
            b <= 65535,
    ;
}

/// What parsing a `.SCR` resource body `d` gives: an error where the header, the tables
/// or the packed data are broken (a `BadTag` error where it does not start with `SCR:`),
/// and otherwise the resource they describe.
pub open spec fn scr_parsed(d: Seq<u8>, res: Result<Scr, DgdsError>) -> bool {
    &&& d.len() >= 4 && d.subrange(0, 4) != seq![83u8, 67, 82, 58] ==> res is Err
        && res->Err_0 is BadTag
    &&& scr_framed(d, res)
}

/// What `scr_parsed` says of the header's three tags and the packed pixels.
pub open spec fn scr_framed(d: Seq<u8>, res: Result<Scr, DgdsError>) -> bool {
    if !scr_header(d) {
        res is Err
    } else {
        match packed_frame(d, 24) {
            None => res is Err,
            Some((m, size, b, e)) => {
                &&& res is Ok ==> {
                    &&& res->Ok_0.width == le_u16(d, 16)
                    &&& res->Ok_0.height == le_u16(d, 18)
                    &&& exists|v: Seq<u8>|
                        decodes_to(m, d.subrange(b, e), size, v)
                            && #[trigger] decoded_pixels(v, le_u16(d, 16) * le_u16(d, 18))
                            == res->Ok_0.pixels@
                }
                &&& res is Err ==> may_fail(m, d.subrange(b, e), size)
            },
        }
    }
}

impl Scr {
    /// Parse a `.SCR` resource body.
    pub fn parse(bytes: &[u8]) -> (res: Result<Self, DgdsError>)
        ensures
            scr_parsed(bytes@, res),
    {
        let mut r = Reader::new(bytes);
        proof {
            assert([83u8, 67, 82, 58]@ =~= seq![83u8, 67, 82, 58]);
        }
        match r.expect_tag("SCR resource", &[83u8, 67, 82, 58]) {
            Ok(()) => {},
            Err(e) => return Err(e),
        }
        let _total_size = r.u16()?;
        let _flags = r.u16()?;
        r.expect_tag("SCR resource", &[68u8, 73, 77, 58])?;
        let _dim_size = r.u32()?;
        let width = r.u16()?;
        let height = r.u16()?;
        r.expect_tag("SCR resource", &[66u8, 73, 78, 58])?;
        proof {
            assert([83u8, 67, 82, 58]@ =~= seq![83u8, 67, 82, 58]);
            assert([68u8, 73, 77, 58]@ =~= seq![68u8, 73, 77, 58]);
            assert([66u8, 73, 78, 58]@ =~= seq![66u8, 73, 78, 58]);
        }
        assert(r.pos() == 24);
        let data = read_packed_block(&mut r)?;
        proof { lemma_u16_product(width, height); }
        let num_pixels = width as usize * height as usize;
        let pixels = decode_4bpp(&data, num_pixels);
        proof {
            let d = bytes@;
            let (m, size, b, e) = packed_frame(d, 24)->Some_0;
            assert(decodes_to(m, d.subrange(b, e), size, data@));
            assert(decoded_pixels(data@, le_u16(d, 16) * le_u16(d, 18)) == pixels@);
        }
        Ok(Scr { width, height, pixels })
    }
}

} // verus!
