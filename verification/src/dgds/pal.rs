//! Palette (`.PAL`) resources.
//!
//! Layout: `PAL:` tag, `u16` size, 2 unknown bytes; `VGA:` tag, 4 bytes (size), then 256
//! RGB triples of 6-bit VGA values (0..=63), scaled to 8 bits by shifting left by 2.
use vstd::prelude::*;
use crate::dgds::error::DgdsError;
use crate::dgds::reader::Reader;

verus! {

/// Number of colours in a DGDS palette.
pub const PALETTE_LEN: usize = 256;

/// A 256-entry RGB palette (already scaled to 8 bits per channel).
#[derive(Debug, Clone, Copy, PartialEq, Eq)]
pub struct Palette {
    /// RGB triples, 8 bits per channel.
    pub colors: [[u8; 3]; 256],
}

/// The 8-bit channel for a stored 6-bit VGA byte (its top two bits are ignored).
pub open spec fn vga_channel(b: u8) -> u8 {
    ((b % 64) * 4) as u8
}

/// The ASCII bytes of `PAL:`.
pub open spec fn pal_tag() -> Seq<u8> {
    seq![80u8, 65, 76, 58]
}

/// The ASCII bytes of `VGA:`.
pub open spec fn vga_tag() -> Seq<u8> {
    seq![86u8, 71, 65, 58]
}

/// Whether `d` holds a palette resource.
pub open spec fn is_palette(d: Seq<u8>) -> bool {
    &&& d.len() >= 16 + 768
    &&& d.subrange(0, 4) == pal_tag()
    &&& d.subrange(8, 12) == vga_tag()
}

/// Reads one 6-bit VGA channel.
fn vga_byte(r: &mut Reader) -> (res: Result<u8, DgdsError>)
    ensures
        final(r).data() == old(r).data(),
        old(r).pos() + 1 <= old(r).data().len() ==> res is Ok && res->Ok_0 == vga_channel(
            old(r).data()[old(r).pos()],
        ) && final(r).pos() == old(r).pos() + 1,
        old(r).pos() + 1 > old(r).data().len() ==> res is Err,
{
    let b = r.u8()?;
    let c = (b & 0x3F) << 2;
    assert(c == vga_channel(b)) by (bit_vector)
        requires
            c == (b & 0x3F) << 2,
    ;
    Ok(c)
}

/// What parsing a `.PAL` resource body `d` gives: its 256 colours scaled from 6-bit
/// VGA values when the tags and data are there, an error otherwise.
pub open spec fn pal_parsed(d: Seq<u8>, res: Result<Palette, DgdsError>) -> bool {
    &&& is_palette(d) ==> res is Ok && forall|i: int, c: int|
        #![trigger res->Ok_0.colors[i][c]]
        0 <= i < 256 && 0 <= c < 3 ==> res->Ok_0.colors[i][c] == vga_channel(d[16 + 3 * i + c])
    &&& !is_palette(d) ==> res is Err
}

impl Palette {
    /// Parse a `.PAL` resource body.
    pub fn parse(bytes: &[u8]) -> (res: Result<Self, DgdsError>)
        ensures
            pal_parsed(bytes@, res),
    {
        let mut r = Reader::new(bytes);
        r.expect_tag("PAL resource", &[80u8, 65, 76, 58])?;
        let _size = r.u16()?;
        let _unknown1 = r.u8()?;
        let _unknown2 = r.u8()?;
        r.expect_tag("PAL resource", &[86u8, 71, 65, 58])?;
        r.skip(4)?;
        proof {
            assert([80u8, 65, 76, 58]@ =~= pal_tag());
            assert([86u8, 71, 65, 58]@ =~= vga_tag());
        }
        let mut colors = [[0u8; 3]; 256];
        let mut i: usize = 0;
        while i < 256
            invariant
                r.data() == bytes@,
                r.pos() == 16 + 3 * i,
                r.pos() <= bytes@.len(),
                !is_palette(bytes@) ==> bytes@.len() < 16 + 768,
                i <= 256,
                forall|j: int, c: int|
                    #![trigger colors[j][c]]
                    0 <= j < i && 0 <= c < 3 ==> colors[j][c] == vga_channel(
                        bytes@[16 + 3 * j + c],
                    ),
            decreases 256 - i,
        {
            let red = vga_byte(&mut r)?;
            let green = vga_byte(&mut r)?;
            let blue = vga_byte(&mut r)?;
            colors[i] = [red, green, blue];
            i = i + 1;
        }
        Ok(Palette { colors })
    }

    /// The RGB triple for palette index `i`.
    pub fn rgb(&self, i: usize) -> (c: [u8; 3])
        requires
            i < 256,
        ensures
            c == self.colors[i as int],
    {
        self.colors[i]
    }
}

} // verus!
