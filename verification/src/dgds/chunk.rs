//! DGDS chunk container primitives.
//!
//! A DGDS resource is a sequence of chunks. Each chunk header is a 4-byte tag whose
//! 4th byte is `':'`, followed by a little-endian `u32` size. The top bit of the size
//! (`0x8000_0000`) flags a *container* chunk that has no payload of its own.
use vstd::prelude::*;
use crate::dgds::decompress::{decompress, decodes_to, may_fail};
use crate::dgds::error::{DgdsError, malformed};
use crate::dgds::reader::{Reader, le_u32, text_of, string_from_utf8_lossy};

verus! {

/// A parsed chunk header.
#[derive(Debug, Clone, Copy, PartialEq, Eq)]
pub struct ChunkHeader {
    /// The raw 4-byte tag, e.g. `b"SCR:"`.
    pub tag: [u8; 4],
    /// Payload size in bytes (with the container bit cleared).
    pub size: u32,
    /// Whether this is a container chunk (no payload; children follow).
    pub container: bool,
}

impl ChunkHeader {
    /// Read and validate a chunk header at the reader's current position.
    pub fn read(r: &mut Reader) -> (res: Result<Self, DgdsError>)
        ensures
            final(r).data() == old(r).data(),
            ({
                let d = old(r).data();
                let p = old(r).pos();
                if p + 8 <= d.len() && d[p + 3] == 58 {
                    &&& res is Ok
                    &&& res->Ok_0.tag@ == d.subrange(p, p + 4)
                    &&& res->Ok_0.size == le_u32(d, p + 4) % 0x8000_0000
                    &&& res->Ok_0.container == (le_u32(d, p + 4) >= 0x8000_0000)
                    &&& final(r).pos() == p + 8
                } else {
                    &&& res is Err
                    &&& p + 4 <= d.len() && d[p + 3] != 58 ==> res->Err_0 is Malformed
                }
            }),
    {
        let ghost d = r.data();
        let ghost p = r.pos();
        let tag = match r.tag() {
            Ok(t) => t,
            Err(e) => return Err(e),
        };
        assert(p + 4 <= d.len());
        assert(tag@[3] == d.subrange(p, p + 4)[3]);
        assert(tag[3] == d[p + 3]);
        if tag[3] != 58u8 {
            return Err(malformed("invalid chunk tag (4th byte must be ':')"));
        }
        let raw = match r.u32() {
            Ok(v) => v,
            Err(e) => return Err(e),
        };
        let container = raw >= 0x8000_0000;
        let size = raw % 0x8000_0000;
        Ok(ChunkHeader { tag, size, container })
    }

    /// The 3-letter tag (without the trailing colon) as a string.
    pub fn name(&self) -> (s: String)
        ensures
            text_of(s@, self.tag@.take(3)),
    {
        let t = [self.tag[0], self.tag[1], self.tag[2]];
        assert(t@ =~= self.tag@.take(3));
        string_from_utf8_lossy(&t)
    }
}

/// The framing of a packed block at `p`: `(method, unpacked size, body start, body end)`,
/// or `None` when the bytes do not hold a complete frame.
pub open spec fn packed_frame(d: Seq<u8>, p: int) -> Option<(u8, int, int, int)> {
    if p + 9 > d.len() {
        None
    } else if le_u32(d, p) < 5 {
        None
    } else if p + 4 + le_u32(d, p) > d.len() {
        None
    } else {
        Some((d[p + 4], le_u32(d, p + 5), p + 9, p + 4 + le_u32(d, p)))
    }
}

/// Read a *packed block* and return its decompressed contents.
///
/// Layout: a `u32` total size, then a 1-byte compression method, a `u32` uncompressed
/// size, and `total - 5` bytes of compressed body.
pub fn read_packed_block(r: &mut Reader) -> (res: Result<Vec<u8>, DgdsError>)
    ensures
        final(r).data() == old(r).data(),
        match packed_frame(old(r).data(), old(r).pos()) {
            None => res is Err,
            Some((m, size, b, e)) => {
                &&& res is Ok ==> decodes_to(m, old(r).data().subrange(b, e), size, res->Ok_0@)
                    && final(r).pos() == e
                &&& res is Err ==> may_fail(m, old(r).data().subrange(b, e), size)
            },
        },
        old(r).pos() + 4 <= old(r).data().len() && le_u32(old(r).data(), old(r).pos()) < 5 ==> res is Err
            && res->Err_0 is Malformed,
{
    let total = r.u32()?;
    if total < 5 {
        return Err(malformed("packed block total size < 5"));
    }
    let method = r.u8()?;
    let unpacked_size = r.u32()?;
    let body = r.take((total - 5) as usize)?;
    decompress(method, body, unpacked_size as usize)
}

} // verus!
