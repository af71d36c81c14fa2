//! Scene-sequencing script (`.ADS`) resources.
//!
//! Layout: `VER:` tag, `u32` size, 5-byte version string; `ADS:` tag, 4 unknown bytes;
//! `RES:` tag, `u32` size, `u16` count, then `(u16 id, NUL-terminated name)` mapping a slot
//! id to the `.TTM` file it drives; `SCR:` tag, packed block of ADS bytecode; `TAG:` tag,
//! `u32` size, `u16` count, then `(u16 id, NUL-terminated string)`.
use vstd::prelude::*;
use crate::dgds::chunk::{read_packed_block, packed_frame};
use crate::dgds::decompress::{decodes_to, may_fail};
use crate::dgds::error::{DgdsError, malformed};
use crate::dgds::reader::{Reader, le_u16};
use crate::dgds::resource::{Tag, read_tags, tag_list, tags_match, field_bytes};
use crate::dgds::reader::text_of;

verus! {

/// A `(id, name)` entry from the `RES:` table: a slot id and the `.TTM` file it refers to.
#[derive(Debug, Clone, PartialEq, Eq)]
pub struct AdsRes {
    /// Slot identifier referenced by the ADS bytecode.
    pub id: u16,
    /// Name of the `.TTM` resource this slot loads.
    pub name: String,
}

/// A parsed `.ADS` resource (scene-sequencing script).
#[derive(Debug, Clone, PartialEq, Eq)]
pub struct Ads {
    /// Version string (e.g. `"1.20"`).
    pub version: String,
    /// The slot→TTM resource table.
    pub resources: Vec<AdsRes>,
    /// Decompressed ADS bytecode (the `SCR:` block).
    pub bytecode: Vec<u8>,
    /// Named entry points ("sequences") into the bytecode.
    pub tags: Vec<Tag>,
}

/// Whether the fixed header of an `.ADS` (up to its resource table) is present in `d`.
pub open spec fn ads_header(d: Seq<u8>) -> bool {
    &&& d.len() >= 31
    &&& d.subrange(0, 4) == seq![86u8, 69, 82, 58]
    &&& d.subrange(13, 17) == seq![65u8, 68, 83, 58]
    &&& d.subrange(21, 25) == seq![82u8, 69, 83, 58]
}

/// Whether `res` are the records `t`.
pub open spec fn res_match(res: Seq<AdsRes>, t: Seq<(u16, Seq<u8>)>) -> bool {
    &&& res.len() == t.len()
    &&& forall|k: int| 0 <= k < t.len() ==> (#[trigger] res[k]).id == t[k].0 && text_of(res[k].name@, t[k].1)
}

/// Whether a `TAG:` header follows the bytecode at `e`.
pub open spec fn ads_trailer(d: Seq<u8>, e: int) -> bool {
    &&& e + 10 <= d.len()
    &&& d.subrange(e, e + 4) == seq![84u8, 65, 71, 58]
}

/// The `.ADS` layout after its resource table ends at `p1`: `Some((tags, frame))`
/// when the `SCR:` tag and packed frame are present.
pub open spec fn ads_after_res(d: Seq<u8>, p1: int) -> bool {
    &&& p1 + 4 <= d.len()
    &&& d.subrange(p1, p1 + 4) == seq![83u8, 67, 82, 58]
    &&& packed_frame(d, p1 + 4) is Some
}

/// Copies tag records into the resource-table form.
fn to_res(tags: Vec<Tag>) -> (res: Vec<AdsRes>)
    ensures
        res@.len() == tags@.len(),
        forall|k: int|
            0 <= k < tags@.len() ==> (#[trigger] res@[k]).id == tags@[k].id && res@[k].name@
                == tags@[k].description@,
{
    let mut res: Vec<AdsRes> = Vec::new();
    let mut i: usize = 0;
    while i < tags.len()
        invariant
            i <= tags@.len(),
            res@.len() == i,
            forall|k: int|
                0 <= k < i ==> (#[trigger] res@[k]).id == tags@[k].id && res@[k].name@
                    == tags@[k].description@,
        decreases tags.len() - i,
    {
        let t = &tags[i];
        res.push(AdsRes { id: t.id, name: t.description.clone() });
        i = i + 1;
    }
    res
}

/// What parsing an `.ADS` resource body `d` gives: an error where the header, the tables
/// or the packed data are broken, and otherwise the resource they describe.
pub open spec fn ads_parsed(d: Seq<u8>, res: Result<Ads, DgdsError>) -> bool {
    if !ads_header(d) {
        res is Err
    } else {
        match tag_list(d, 31, le_u16(d, 29)) {
            None => res is Err,
            Some((rt, p1)) => if !ads_after_res(d, p1) {
                res is Err
            } else {
                let (m, size, b, e) = packed_frame(d, p1 + 4)->Some_0;
                let tags = tag_list(d, e + 10, le_u16(d, e + 8));
                &&& res is Ok ==> {
                    &&& text_of(res->Ok_0.version@, field_bytes(d, 8, 5))
                    &&& res_match(res->Ok_0.resources@, rt)
                    &&& decodes_to(m, d.subrange(b, e), size, res->Ok_0.bytecode@)
                    &&& ads_trailer(d, e)
                    &&& tags is Some
                    &&& tags_match(res->Ok_0.tags@, tags->Some_0.0)
                }
                &&& res is Err ==> may_fail(m, d.subrange(b, e), size) || !ads_trailer(d, e)
                    || tags is None
                &&& (!ads_trailer(d, e) || tags is None) ==> res is Err
            },
        }
    }
}

impl Ads {
    /// Parse an `.ADS` resource body.
    pub fn parse(bytes: &[u8]) -> (res: Result<Self, DgdsError>)
        ensures
            ads_parsed(bytes@, res),
    {
        let mut r = Reader::new(bytes);
        proof {
            assert([86u8, 69, 82, 58]@ =~= seq![86u8, 69, 82, 58]);
            assert([65u8, 68, 83, 58]@ =~= seq![65u8, 68, 83, 58]);
            assert([82u8, 69, 83, 58]@ =~= seq![82u8, 69, 83, 58]);
            assert([83u8, 67, 82, 58]@ =~= seq![83u8, 67, 82, 58]);
            assert([84u8, 65, 71, 58]@ =~= seq![84u8, 65, 71, 58]);
        }
        r.expect_tag("ADS resource", &[86u8, 69, 82, 58])?;
        let _version_size = r.u32()?;
        let version = r.fixed_str(5)?;

        r.expect_tag("ADS resource", &[65u8, 68, 83, 58])?;
        r.skip(4)?;

        r.expect_tag("ADS resource", &[82u8, 69, 83, 58])?;
        let _res_size = r.u32()?;
        let num_res = r.u16()? as usize;
        let res_tags = read_tags(&mut r, num_res)?;
        let resources = to_res(res_tags);

        r.expect_tag("ADS resource", &[83u8, 67, 82, 58])?;
        let bytecode = read_packed_block(&mut r)?;

        r.expect_tag("ADS resource", &[84u8, 65, 71, 58])?;
        let _tag_size = r.u32()?;
        let num_tags = r.u16()? as usize;
        let tags = read_tags(&mut r, num_tags)?;

        Ok(Ads { version, resources, bytecode, tags })
    }
}

/// One decoded ADS instruction: an opcode (or a tag id) and its word arguments.
#[derive(Debug, Clone, PartialEq, Eq)]
pub struct AdsInstruction {
    /// The opcode; values below `0x100` are tag ids marking a sequence entry point.
    pub opcode: u16,
    /// The word arguments.
    pub args: Vec<u16>,
}

impl AdsInstruction {
    /// Whether this instruction is a tag (a sequence entry point) rather than an opcode.
    pub fn is_tag(&self) -> (b: bool)
        ensures
            b == (self.opcode < 0x100),
    {
        self.opcode < 0x100
    }
}

/// The number of word arguments of an ADS opcode; `None` for an unknown opcode. Tags
/// take none.
pub open spec fn ads_argc(op: u16) -> Option<nat> {
    if op < 0x100 {
        Some(0)
    } else if op == 0x1070 || op == 0x1330 || op == 0x1350 || op == 0x1360 || op == 0x1370 {
        Some(2)
    } else if op == 0x1420 || op == 0x1430 || op == 0x1510 || op == 0x2014 || op == 0x3010
        || op == 0x30FF || op == 0xF010 || op == 0xFFFF || op == 0xFFF0 {
        Some(0)
    } else if op == 0x1520 {
        Some(5)
    } else if op == 0x2005 {
        Some(4)
    } else if op == 0x2010 || op == 0x4000 {
        Some(3)
    } else if op == 0x3020 || op == 0xF200 {
        Some(1)
    } else {
        None
    }
}

/// The number of word arguments of an ADS opcode (`None` if unknown).
pub fn ads_arg_count(op: u16) -> (r: Option<usize>)
    ensures
        r matches Some(n) ==> ads_argc(op) == Some(n as nat),
        r is None ==> ads_argc(op) is None,
{
    if op < 0x100 {
        Some(0)
    } else if op == 0x1070 || op == 0x1330 || op == 0x1350 || op == 0x1360 || op == 0x1370 {
        Some(2)
    } else if op == 0x1420 || op == 0x1430 || op == 0x1510 || op == 0x2014 || op == 0x3010
        || op == 0x30FF || op == 0xF010 || op == 0xFFFF || op == 0xFFF0 {
        Some(0)
    } else if op == 0x1520 {
        Some(5)
    } else if op == 0x2005 {
        Some(4)
    } else if op == 0x2010 || op == 0x4000 {
        Some(3)
    } else if op == 0x3020 || op == 0xF200 {
        Some(1)
    } else {
        None
    }
}

/// Whether a whole, known instruction starts at `pos`.
pub open spec fn ads_ins_complete(s: Seq<u8>, pos: int) -> bool {
    &&& 0 <= pos
    &&& pos + 2 <= s.len()
    &&& ads_argc(le_u16(s, pos) as u16) matches Some(n) && pos + 2 + 2 * n <= s.len()
}

/// Where the instruction after the one at `pos` starts.
pub open spec fn ads_next(s: Seq<u8>, pos: int) -> int {
    match ads_argc(le_u16(s, pos) as u16) {
        Some(n) => pos + 2 + 2 * n,
        None => s.len() as int,
    }
}

/// Where instruction `i` starts.
pub open spec fn ads_pos(s: Seq<u8>, i: nat) -> int
    decreases i,
{
    if i == 0 { 0 } else { ads_next(s, ads_pos(s, (i - 1) as nat)) }
}

/// Whether `ins` is the instruction encoded at `pos`.
pub open spec fn ads_ins_at(ins: AdsInstruction, s: Seq<u8>, pos: int) -> bool {
    &&& ins.opcode == le_u16(s, pos)
    &&& ads_argc(ins.opcode) matches Some(n) && ins.args@ == Seq::new(
        n,
        |j: int| le_u16(s, pos + 2 + 2 * j) as u16,
    )
}

/// Whether instruction `n` is the first one that is unknown or cut short.
pub open spec fn ads_bad_at(code: Seq<u8>, n: nat) -> bool {
    &&& ads_pos(code, n) < code.len()
    &&& !ads_ins_complete(code, ads_pos(code, n))
    &&& forall|i: nat| #![trigger ads_pos(code, i)] i < n ==> ads_ins_complete(code, ads_pos(code, i))
}

/// Whether `r` is what decoding the ADS bytecode `code` gives.
pub open spec fn ads_decoded(code: Seq<u8>, r: Result<Vec<AdsInstruction>, DgdsError>) -> bool {
    &&& r matches Ok(v) ==> ads_decodes_to(code, v@)
    &&& r is Err ==> exists|n: nat| ads_bad_at(code, n)
}

/// Whether `v` is every instruction of `code`, in order, up to its end.
pub open spec fn ads_decodes_to(code: Seq<u8>, v: Seq<AdsInstruction>) -> bool {
    &&& ads_pos(code, v.len()) == code.len()
    &&& forall|i: int|
        0 <= i < v.len() ==> ads_ins_complete(code, ads_pos(code, i as nat))
            && #[trigger] ads_ins_at(v[i], code, ads_pos(code, i as nat))
}

/// Decode ADS bytecode into instructions: each a little-endian opcode (or tag id)
/// followed by its fixed number of words. Fails on an unknown opcode or a cut-short
/// instruction.
pub fn decode_ads(code: &[u8]) -> (r: Result<Vec<AdsInstruction>, DgdsError>)
    ensures
        ads_decoded(code@, r),
{
    let mut out: Vec<AdsInstruction> = Vec::new();
    let mut pos: usize = 0;
    let clen = code.len();
    while pos < code.len()
        invariant
            pos <= code@.len(),
            clen == code@.len(),
            pos == ads_pos(code@, out@.len()),
            forall|i: int|
                0 <= i < out@.len() ==> ads_ins_complete(code@, ads_pos(code@, i as nat))
                    && #[trigger] ads_ins_at(out@[i], code@, ads_pos(code@, i as nat)),
            forall|i: nat| #![trigger ads_pos(code@, i)] i < out@.len() ==> ads_ins_complete(code@, ads_pos(code@, i)),
        decreases code@.len() - pos,
    {
        let ghost n = out@.len();
        let ghost prev = out@;
        if code.len() - pos < 2 {
            proof {
                assert(ads_bad_at(code@, n));
            }
            return Err(DgdsError::eof("ADS opcode", pos.saturating_add(2), code.len()));
        }
        let op: u16 = code[pos] as u16 + (code[pos + 1] as u16) * 256;
        let cnt = match ads_arg_count(op) {
            Some(c) => c,
            None => {
                proof {
                    assert(ads_bad_at(code@, n));
                }
                return Err(malformed("unknown ADS opcode"));
            },
        };
        if code.len() - pos - 2 < 2 * cnt {
            proof {
                assert(ads_bad_at(code@, n));
            }
            return Err(DgdsError::eof("ADS arguments", (pos + 2).saturating_add(2 * cnt), code.len()));
        }
        let mut args: Vec<u16> = Vec::new();
        let mut j: usize = 0;
        while j < cnt
            invariant
                j <= cnt,
                clen == code@.len(),
                ads_argc(op) == Some(cnt as nat),
                pos + 2 + 2 * cnt <= code@.len(),
                args@ == Seq::new(j as nat, |q: int| le_u16(code@, pos + 2 + 2 * q) as u16),
            decreases cnt - j,
        {
            let at = pos + 2 + 2 * j;
            let w: u16 = code[at] as u16 + (code[at + 1] as u16) * 256;
            args.push(w);
            j = j + 1;
            assert(args@ =~= Seq::new(j as nat, |q: int| le_u16(code@, pos + 2 + 2 * q) as u16));
        }
        out.push(AdsInstruction { opcode: op, args });
        pos = pos + 2 + 2 * cnt;
        proof {
            assert(ads_pos(code@, out@.len()) == ads_next(code@, ads_pos(code@, n)));
            assert forall|i: int|
                0 <= i < out@.len() implies ads_ins_complete(code@, ads_pos(code@, i as nat))
                    && #[trigger] ads_ins_at(out@[i], code@, ads_pos(code@, i as nat)) by {
                if i < n {
                    assert(out@[i] == prev[i]);
                }
            }
        }
    }
    Ok(out)
}

} // verus!
