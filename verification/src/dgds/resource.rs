//! The `RESOURCE.MAP` index and `RESOURCE.001` archive layout (Johnny Castaway).
//!
//! `RESOURCE.MAP` layout: 6 unknown bytes, a 13-byte NUL-terminated data file name,
//! a `u16` entry count, then per entry a `u32` decompressed length and a `u32` offset.
//!
//! Each entry in the data file starts with a 13-byte NUL-terminated resource name
//! (whose extension gives the type, e.g. `.ADS`) and a `u32` size, followed by the
//! chunked resource body.
use vstd::prelude::*;
use crate::dgds::error::DgdsError;
use crate::dgds::reader::{Reader, le_u16, le_u32, lossy_utf8, first_nul, text_of};

verus! {

/// A `(id, description)` entry of a `TAG:` table: a named entry point into bytecode.
#[derive(Debug, Clone, PartialEq, Eq)]
pub struct Tag {
    /// Tag identifier.
    pub id: u16,
    /// Human-readable description.
    pub description: String,
}

/// The `n` `(id, NUL-terminated text)` records starting at `p` (each text at most 40
/// bytes with its terminator), each as its id and the bytes of its text, and the
/// position after them; `None` when they do not fit.
pub open spec fn tag_list(d: Seq<u8>, p: int, n: int) -> Option<(Seq<(u16, Seq<u8>)>, int)>
    decreases n,
{
    if n <= 0 {
        Some((Seq::empty(), p))
    } else if p < 0 || p + 2 > d.len() {
        None
    } else {
        let rest = d.subrange(p + 2, d.len() as int);
        let k = first_nul(rest);
        if k >= rest.len() || k >= 40 {
            None
        } else {
            match tag_list(d, p + 3 + k, n - 1) {
                None => None,
                Some((t, q)) => Some((seq![(le_u16(d, p) as u16, rest.take(k))] + t, q)),
            }
        }
    }
}

/// `acc` followed by the records of `tail`, if any.
pub open spec fn prepend_tags(
    acc: Seq<(u16, Seq<u8>)>,
    tail: Option<(Seq<(u16, Seq<u8>)>, int)>,
) -> Option<(Seq<(u16, Seq<u8>)>, int)> {
    match tail {
        None => None,
        Some((t, q)) => Some((acc + t, q)),
    }
}

/// Whether `tags` are the records `t`, each text decoded from its bytes.
pub open spec fn tags_match(tags: Seq<Tag>, t: Seq<(u16, Seq<u8>)>) -> bool {
    &&& tags.len() == t.len()
    &&& forall|k: int|
        0 <= k < t.len() ==> (#[trigger] tags[k]).id == t[k].0 && text_of(tags[k].description@, t[k].1)
}

/// Read `n` `(u16 id, NUL-terminated text)` records.
pub fn read_tags(r: &mut Reader, n: usize) -> (res: Result<Vec<Tag>, DgdsError>)
    ensures
        final(r).data() == old(r).data(),
        match tag_list(old(r).data(), old(r).pos(), n as int) {
            None => res is Err,
            Some((t, q)) => res is Ok && tags_match(res->Ok_0@, t) && final(r).pos() == q,
        },
{
    let ghost d = r.data();
    let ghost p0 = r.pos();
    let mut tags: Vec<Tag> = Vec::new();
    let ghost mut acc: Seq<(u16, Seq<u8>)> = Seq::empty();
    let mut i: usize = 0;
    assert(acc + Seq::<(u16, Seq<u8>)>::empty() =~= acc);
    while i < n
        invariant
            r.data() == d,
            d == old(r).data(),
            p0 == old(r).pos(),
            i <= n,
            tags_match(tags@, acc),
            acc.len() == i,
            tag_list(d, p0, n as int) == prepend_tags(acc, tag_list(d, r.pos(), n - i)),
        decreases n - i,
    {
        let ghost p = r.pos();
        let id = match r.u16() {
            Ok(v) => v,
            Err(e) => {
                assert(tag_list(d, p, n - i) is None);
                return Err(e);
            },
        };
        let description = match r.cstr(40) {
            Ok(v) => v,
            Err(e) => {
                assert(tag_list(d, p, n - i) is None);
                return Err(e);
            },
        };
        proof {
            let rest = d.subrange(p + 2, d.len() as int);
            let k = first_nul(rest);
            let x = (le_u16(d, p) as u16, rest.take(k));
            assert(r.pos() == p + 3 + k);
            match tag_list(d, r.pos(), n - i - 1) {
                None => {},
                Some((t, q)) => {
                    assert(acc + (seq![x] + t) =~= acc.push(x) + t);
                },
            }
            acc = acc.push(x);
        }
        tags.push(Tag { id, description });
        i = i + 1;
    }
    proof {
        assert(acc + Seq::<(u16, Seq<u8>)>::empty() =~= acc);
    }
    Ok(tags)
}

/// One entry of the `RESOURCE.MAP` index.
#[derive(Debug, Clone, Copy, PartialEq, Eq)]
pub struct ResourceMapEntry {
    /// Decompressed length recorded in the index.
    pub length: u32,
    /// Byte offset of the entry within the data archive.
    pub offset: u32,
}

/// The parsed `RESOURCE.MAP` index.
#[derive(Debug, Clone, PartialEq, Eq)]
pub struct ResourceMap {
    /// Name of the archive that holds the resources (e.g. `RESOURCE.001`).
    pub data_file_name: String,
    /// All index entries, in file order.
    pub entries: Vec<ResourceMapEntry>,
}

/// The bytes of a NUL-terminated fixed field `d[p..p+n]`, up to its first NUL.
pub open spec fn field_bytes(d: Seq<u8>, p: int, n: int) -> Seq<u8> {
    d.subrange(p, p + n).take(first_nul(d.subrange(p, p + n)))
}

/// The text of a NUL-terminated fixed field `d[p..p+n]`.
pub open spec fn field_text(d: Seq<u8>, p: int, n: int) -> Seq<char> {
    lossy_utf8(field_bytes(d, p, n))
}

/// The number of entries a `RESOURCE.MAP` declares.
pub open spec fn map_count(d: Seq<u8>) -> int {
    le_u16(d, 19)
}

impl ResourceMap {
    /// Parse a `RESOURCE.MAP` byte buffer.
    pub fn parse(bytes: &[u8]) -> (res: Result<Self, DgdsError>)
        ensures
            ({
                let d = bytes@;
                if d.len() >= 21 && d.len() >= 21 + 8 * map_count(d) {
                    &&& res is Ok
                    &&& text_of(res->Ok_0.data_file_name@, field_bytes(d, 6, 13))
                    &&& res->Ok_0.entries@.len() == map_count(d)
                    &&& forall|k: int|
                        0 <= k < map_count(d) ==> {
                            &&& (#[trigger] res->Ok_0.entries@[k]).length == le_u32(d, 21 + 8 * k)
                            &&& res->Ok_0.entries@[k].offset == le_u32(d, 25 + 8 * k)
                        }
                } else {
                    res is Err
                }
            }),
    {
        let mut r = Reader::new(bytes);
        r.skip(6)?;
        let data_file_name = r.fixed_str(13)?;
        let count = r.u16()? as usize;
        let mut entries: Vec<ResourceMapEntry> = Vec::new();
        let mut i: usize = 0;
        while i < count
            invariant
                r.data() == bytes@,
                count == map_count(bytes@),
                i <= count,
                r.pos() == 21 + 8 * i,
                r.pos() <= bytes@.len(),
                entries@.len() == i,
                forall|k: int|
                    0 <= k < i ==> {
                        &&& (#[trigger] entries@[k]).length == le_u32(bytes@, 21 + 8 * k)
                        &&& entries@[k].offset == le_u32(bytes@, 25 + 8 * k)
                    },
            decreases count - i,
        {
            let length = r.u32()?;
            let offset = r.u32()?;
            entries.push(ResourceMapEntry { length, offset });
            i = i + 1;
        }
        Ok(ResourceMap { data_file_name, entries })
    }
}

/// The header of one resource inside the data archive.
#[derive(Debug, Clone, PartialEq, Eq)]
pub struct ResourceEntry {
    /// Resource name, e.g. `ACTIVITY.ADS`.
    pub name: String,
    /// Size field that follows the name.
    pub size: u32,
    /// Offset at which the resource body (chunks) begins.
    pub body_offset: usize,
}

/// Read the resource header located at `offset` within the data archive.
pub fn read_entry_header(archive: &[u8], offset: u32) -> (res: Result<ResourceEntry, DgdsError>)
    ensures
        offset + 17 <= archive@.len() ==> {
            &&& res is Ok
            &&& text_of(res->Ok_0.name@, field_bytes(archive@, offset as int, 13))
            &&& res->Ok_0.size == le_u32(archive@, offset + 13)
            &&& res->Ok_0.body_offset == offset + 17
        },
        offset + 17 > archive@.len() ==> res is Err && res->Err_0 is UnexpectedEof,
{
    let mut r = Reader::new(archive);
    r.seek(offset as usize)?;
    let name = r.fixed_str(13)?;
    let size = r.u32()?;
    Ok(ResourceEntry { name, size, body_offset: r.position() })
}

/// Index of the last `.` in `b`, or `-1`.
pub open spec fn last_dot(b: Seq<u8>) -> int
    decreases b.len(),
{
    if b.len() == 0 {
        -1
    } else if b.last() == 46 {
        b.len() - 1
    } else {
        last_dot(b.drop_last())
    }
}

/// Index of the last `.` in `b`, if any.
pub fn find_last_dot(b: &[u8]) -> (r: Option<usize>)
    ensures
        match r {
            Some(i) => i as int == last_dot(b@),
            None => last_dot(b@) == -1,
        },
{
    let mut i: usize = b.len();
    assert(b@.take(i as int) =~= b@);
    while i > 0
        invariant
            i <= b@.len(),
            last_dot(b@) == last_dot(b@.take(i as int)),
        decreases i,
    {
        if b[i - 1] == 46 {
            assert(b@.take(i as int).last() == 46);
            return Some(i - 1);
        }
        assert(b@.take(i as int).drop_last() =~= b@.take(i - 1));
        i = i - 1;
    }
    None
}

/// In valid UTF-8, the position of an ASCII byte (or the end) is a character boundary.
pub proof fn lemma_ascii_boundary(b: Seq<u8>, i: int)
    requires
        vstd::utf8::valid_utf8(b),
        0 <= i <= b.len(),
        i == b.len() || b[i] < 0x80,
    ensures
        vstd::utf8::is_char_boundary(b, i),
    decreases b.len(),
{
    if i == 0 {
    } else {
        let l = vstd::utf8::length_of_first_scalar(b);
        assert(b.len() > 0);
        if i < l {
            assert(vstd::utf8::is_continuation_byte(b[i]));
        }
        let rest = vstd::utf8::pop_first_scalar(b);
        assert(rest.len() == b.len() - l);
        if i < b.len() {
            assert(rest[i - l] == b[i]);
        }
        lemma_ascii_boundary(rest, i - l);
    }
}

/// Return the resource type extension (including the dot), e.g. `".ADS"`.
pub fn resource_extension(name: &str) -> (r: Option<&str>)
    ensures
        last_dot(vstd::utf8::encode_utf8(name@)) == -1 ==> r is None,
        last_dot(vstd::utf8::encode_utf8(name@)) >= 0 ==> r is Some && vstd::utf8::encode_utf8(
            r->Some_0@,
        ) == vstd::utf8::encode_utf8(name@).subrange(
            last_dot(vstd::utf8::encode_utf8(name@)),
            vstd::utf8::encode_utf8(name@).len() as int,
        ),
{
    let b = name.as_bytes();
    proof {
        assert(b@.take(b@.len() as int) =~= b@);
    }
    match find_last_dot(b) {
        Some(i) => {
            proof {
                lemma_last_dot_is_dot(b@);
                vstd::utf8::encode_utf8_valid_utf8(name@);
                lemma_ascii_boundary(b@, i as int);
            }
            let (_, ext) = name.split_at(i);
            Some(ext)
        },
        None => None,
    }
}

proof fn lemma_last_dot_is_dot(b: Seq<u8>)
    ensures
        last_dot(b) >= 0 ==> last_dot(b) < b.len() && b[last_dot(b)] == 46,
        last_dot(b) >= -1,
    decreases b.len(),
{
    if b.len() > 0 && b.last() != 46 {
        lemma_last_dot_is_dot(b.drop_last());
    }
}

} // verus!
