//! Sprite-sheet (`.BMP`) resources: a set of 4-bpp images.
//!
//! Layout: `BMP:` tag, `u16` width, `u16` height; `INF:` tag, `u32` size, `u16` image
//! count, then that many `u16` widths and `u16` heights; `BIN:` tag, packed block holding
//! every image's 4-bpp pixels concatenated. Images are decoded sequentially from the single
//! pixel stream; each consumes `width * height / 2` bytes.
use vstd::prelude::*;
use vstd::slice::slice_subrange;
use crate::dgds::chunk::{read_packed_block, packed_frame};
use crate::dgds::decompress::{decodes_to, may_fail};
use crate::dgds::error::DgdsError;
use crate::dgds::pixels::{decode_4bpp, decoded_pixels};
use crate::dgds::reader::{Reader, le_u16};
use crate::dgds::scr::lemma_u16_product;

verus! {

/// One decoded image (sprite frame) from a `.BMP` sheet.
#[derive(Debug, Clone, PartialEq, Eq)]
pub struct BmpImage {
    /// Image width in pixels.
    pub width: u16,
    /// Image height in pixels.
    pub height: u16,
    /// Palette indices (row-major, one byte per pixel, values `0..=15`).
    pub pixels: Vec<u8>,
}

/// A parsed `.BMP` sprite sheet.
#[derive(Debug, Clone, PartialEq, Eq)]
pub struct Bmp {
    /// Nominal sheet width.
    pub width: u16,
    /// Nominal sheet height.
    pub height: u16,
    /// The individual images, in order.
    pub images: Vec<BmpImage>,
}

/// The number of images a `.BMP` declares.
pub open spec fn bmp_count(d: Seq<u8>) -> int {
    le_u16(d, 16)
}

/// Width of image `k` (of `n`).
pub open spec fn bmp_w(d: Seq<u8>, k: int) -> int {
    le_u16(d, 18 + 2 * k)
}

/// Height of image `k` (of `n`).
pub open spec fn bmp_h(d: Seq<u8>, n: int, k: int) -> int {
    le_u16(d, 18 + 2 * n + 2 * k)
}

/// Bytes of pixel data image `k` takes (two pixels per byte).
pub open spec fn img_bytes(d: Seq<u8>, n: int, k: int) -> int {
    (bmp_w(d, k) * bmp_h(d, n, k)) / 2
}

/// Where image `k`'s pixel data starts in the decompressed stream.
pub open spec fn img_offset(d: Seq<u8>, n: int, k: int) -> int
    decreases k,
{
    if k <= 0 {
        0
    } else {
        img_offset(d, n, k - 1) + img_bytes(d, n, k - 1)
    }
}

/// Whether pixel stream `v` is too short for the images `d` declares.
pub open spec fn pixels_short(d: Seq<u8>, v: Seq<u8>) -> bool {
    img_offset(d, bmp_count(d), bmp_count(d)) > v.len()
}

/// Whether some decompression of `body` holds exactly `images`.
pub open spec fn images_decoded(d: Seq<u8>, m: u8, body: Seq<u8>, size: int, images: Seq<BmpImage>) -> bool {
    exists|v: Seq<u8>| decodes_to(m, body, size, v) && #[trigger] images_match(d, v, images)
}

/// Whether some decompression of `body` is too short for the images `d` declares.
pub open spec fn stream_short(d: Seq<u8>, m: u8, body: Seq<u8>, size: int) -> bool {
    exists|v: Seq<u8>| decodes_to(m, body, size, v) && #[trigger] pixels_short(d, v)
}

/// Whether the fixed parts of a `.BMP` (tags and dimension tables) are present in `d`.
pub open spec fn bmp_header(d: Seq<u8>) -> bool {
    &&& d.len() >= 18
    &&& d.len() >= 22 + 4 * bmp_count(d)
    &&& d.subrange(0, 4) == seq![66u8, 77, 80, 58]
    &&& d.subrange(8, 12) == seq![73u8, 78, 70, 58]
    &&& d.subrange(18 + 4 * bmp_count(d), 22 + 4 * bmp_count(d)) == seq![66u8, 73, 78, 58]
}

/// Whether `images` are the images that pixel stream `v` holds for the header in `d`.
pub open spec fn images_match(d: Seq<u8>, v: Seq<u8>, images: Seq<BmpImage>) -> bool {
    let n = bmp_count(d);
    &&& images.len() == n
    &&& img_offset(d, n, n) <= v.len()
    &&& forall|k: int|
        0 <= k < n ==> {
            &&& (#[trigger] images[k]).width == bmp_w(d, k)
            &&& images[k].height == bmp_h(d, n, k)
            &&& images[k].pixels@ == decoded_pixels(
                v.subrange(img_offset(d, n, k), img_offset(d, n, k) + img_bytes(d, n, k)),
                bmp_w(d, k) * bmp_h(d, n, k),
            )
        }
}

proof fn lemma_img_offset_mono(d: Seq<u8>, n: int, j: int, k: int)
    requires
        0 <= j <= k,
    ensures
        img_offset(d, n, j) <= img_offset(d, n, k),
    decreases k - j,
{
    if j < k {
        lemma_img_offset_mono(d, n, j, k - 1);
        assert(img_bytes(d, n, k - 1) >= 0) by (nonlinear_arith)
            requires
                bmp_w(d, k - 1) >= 0,
                bmp_h(d, n, k - 1) >= 0,
        ;
    }
}

/// Read `n` little-endian `u16`s.
fn read_u16s(r: &mut Reader, n: usize) -> (res: Result<Vec<u16>, DgdsError>)
    ensures
        final(r).data() == old(r).data(),
        old(r).pos() + 2 * n <= old(r).data().len() ==> {
            &&& res is Ok
            &&& res->Ok_0@.len() == n
            &&& forall|k: int|
                0 <= k < n ==> #[trigger] res->Ok_0@[k] == le_u16(old(r).data(), old(r).pos() + 2 * k)
            &&& final(r).pos() == old(r).pos() + 2 * n
        },
        old(r).pos() + 2 * n > old(r).data().len() ==> res is Err,
{
    let ghost d = r.data();
    let ghost p0 = r.pos();
    proof {
        use_type_invariant(&*r);
        r.lemma_inv();
    }
    let mut out: Vec<u16> = Vec::new();
    let mut i: usize = 0;
    while i < n
        invariant
            d == old(r).data(),
            p0 == old(r).pos(),
            r.data() == d,
            i <= n,
            r.pos() == p0 + 2 * i,
            r.pos() <= d.len(),
            out@.len() == i,
            forall|k: int| 0 <= k < i ==> #[trigger] out@[k] == le_u16(d, p0 + 2 * k),
        decreases n - i,
    {
        let v = r.u16()?;
        out.push(v);
        i = i + 1;
    }
    Ok(out)
}

/// What parsing a `.BMP` resource body `d` gives: an error where the header, the tables
/// or the packed data are broken, and otherwise the resource they describe.
pub open spec fn bmp_parsed(d: Seq<u8>, res: Result<Bmp, DgdsError>) -> bool {
    let n = bmp_count(d);
    if !bmp_header(d) {
        res is Err
    } else {
        match packed_frame(d, 22 + 4 * n) {
            None => res is Err,
            Some((m, size, b, e)) => {
                &&& res is Ok ==> {
                    &&& res->Ok_0.width == le_u16(d, 4)
                    &&& res->Ok_0.height == le_u16(d, 6)
                    &&& images_decoded(d, m, d.subrange(b, e), size, res->Ok_0.images@)
                }
                &&& res is Err ==> may_fail(m, d.subrange(b, e), size) || stream_short(
                    d,
                    m,
                    d.subrange(b, e),
                    size,
                )
            },
        }
    }
}

impl Bmp {
    /// Parse a `.BMP` resource body.
    pub fn parse(bytes: &[u8]) -> (res: Result<Self, DgdsError>)
        ensures
            bmp_parsed(bytes@, res),
    {
        let ghost d = bytes@;
        let mut r = Reader::new(bytes);
        r.expect_tag("BMP resource", &[66u8, 77, 80, 58])?;
        let width = r.u16()?;
        let height = r.u16()?;
        r.expect_tag("BMP resource", &[73u8, 78, 70, 58])?;
        let _data_size = r.u32()?;
        let num_images = r.u16()? as usize;
        proof {
            assert([66u8, 77, 80, 58]@ =~= seq![66u8, 77, 80, 58]);
            assert([73u8, 78, 70, 58]@ =~= seq![73u8, 78, 70, 58]);
            assert([66u8, 73, 78, 58]@ =~= seq![66u8, 73, 78, 58]);
        }
        let widths = read_u16s(&mut r, num_images)?;
        let heights = read_u16s(&mut r, num_images)?;
        r.expect_tag("BMP resource", &[66u8, 73, 78, 58])?;
        let ghost n = num_images as int;
        assert(r.pos() == 22 + 4 * n);
        let data = read_packed_block(&mut r)?;
        let ghost frame = packed_frame(d, 22 + 4 * n)->Some_0;
        assert(decodes_to(frame.0, d.subrange(frame.2, frame.3), frame.1, data@));

        let mut images: Vec<BmpImage> = Vec::new();
        let mut offset: usize = 0;
        let mut i: usize = 0;
        while i < num_images
            invariant
                d == bytes@,
                n == num_images,
                n == bmp_count(d),
                packed_frame(d, 22 + 4 * n) == Some(frame),
                decodes_to(frame.0, d.subrange(frame.2, frame.3), frame.1, data@),
                widths@.len() == n,
                heights@.len() == n,
                forall|k: int| 0 <= k < n ==> #[trigger] widths@[k] == bmp_w(d, k),
                forall|k: int| 0 <= k < n ==> #[trigger] heights@[k] == bmp_h(d, n, k),
                i <= n,
                offset == img_offset(d, n, i as int),
                offset <= data@.len(),
                images@.len() == i,
                forall|k: int|
                    0 <= k < i ==> {
                        &&& (#[trigger] images@[k]).width == bmp_w(d, k)
                        &&& images@[k].height == bmp_h(d, n, k)
                        &&& images@[k].pixels@ == decoded_pixels(
                            data@.subrange(
                                img_offset(d, n, k),
                                img_offset(d, n, k) + img_bytes(d, n, k),
                            ),
                            bmp_w(d, k) * bmp_h(d, n, k),
                        )
                    },
            decreases n - i,
        {
            let w = widths[i] as usize;
            let h = heights[i] as usize;
            proof { lemma_u16_product(widths[i as int], heights[i as int]); }
            let num_pixels = w * h;
            let byte_len = num_pixels / 2;
            if byte_len > data.len() - offset {
                proof {
                    assert(byte_len == img_bytes(d, n, i as int));
                    assert(img_offset(d, n, i as int + 1) == offset + byte_len);
                    lemma_img_offset_mono(d, n, i as int + 1, n);
                    assert(pixels_short(d, data@));
                    assert(frame == packed_frame(d, 22 + 4 * bmp_count(d))->Some_0);
                    assert(decodes_to(frame.0, d.subrange(frame.2, frame.3), frame.1, data@)
                        && pixels_short(d, data@));
                    assert(stream_short(d, frame.0, d.subrange(frame.2, frame.3), frame.1));
                }
                return Err(DgdsError::eof("bmp: image pixels", offset.saturating_add(byte_len), data.len()));
            }
            let slice = slice_subrange(data.as_slice(), offset, offset + byte_len);
            images.push(BmpImage { width: widths[i], height: heights[i], pixels: decode_4bpp(slice, num_pixels) });
            assert(byte_len == img_bytes(d, n, i as int));
            offset = offset + byte_len;
            i = i + 1;
        }
        proof {
            assert(images_match(d, data@, images@));
            assert(frame == packed_frame(d, 22 + 4 * bmp_count(d))->Some_0);
            assert(decodes_to(frame.0, d.subrange(frame.2, frame.3), frame.1, data@)
                && images_match(d, data@, images@));
            assert(images_decoded(d, frame.0, d.subrange(frame.2, frame.3), frame.1, images@));
        }
        Ok(Bmp { width, height, images })
    }
}

} // verus!
