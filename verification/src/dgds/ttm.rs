//! Animation script (`.TTM`) resources.
//!
//! Layout: `VER:` tag, `u32` size, 5-byte version string; `PAG:` tag, `u32` page count,
//! 2 unknown bytes; `TT3:` tag, packed block of TTM bytecode; `TTI:` tag, 4 unknown bytes;
//! `TAG:` tag, `u32` size, `u16` tag count, then `(u16 id, NUL-terminated string)`.
use vstd::prelude::*;
use crate::dgds::chunk::{read_packed_block, packed_frame};
use crate::dgds::decompress::{decodes_to, may_fail};
use crate::dgds::error::DgdsError;
use crate::dgds::reader::{Reader, le_u16, le_u32, first_nul, find_nul, text_of, string_from_utf8_lossy};
use vstd::slice::slice_subrange;
use crate::dgds::resource::{Tag, read_tags, tag_list, tags_match, field_bytes};

verus! {

/// A parsed `.TTM` resource (animation script).
#[derive(Debug, Clone, PartialEq, Eq)]
pub struct Ttm {
    /// Version string (e.g. `"1.20"`).
    pub version: String,
    /// Page count recorded in the `PAG:` chunk.
    pub num_pages: u32,
    /// Decompressed TTM bytecode (the `TT3:` block).
    pub bytecode: Vec<u8>,
    /// Named entry points ("scenes") into the bytecode.
    pub tags: Vec<Tag>,
}

/// Whether the fixed header of a `.TTM` (up to its packed bytecode) is present in `d`.
pub open spec fn ttm_header(d: Seq<u8>) -> bool {
    &&& d.len() >= 27
    &&& d.subrange(0, 4) == seq![86u8, 69, 82, 58]
    &&& d.subrange(13, 17) == seq![80u8, 65, 71, 58]
    &&& d.subrange(23, 27) == seq![84u8, 84, 51, 58]
}

/// Whether the `TTI:`/`TAG:` trailer header that follows the bytecode at `e` is present.
pub open spec fn ttm_trailer(d: Seq<u8>, e: int) -> bool {
    &&& e + 18 <= d.len()
    &&& d.subrange(e, e + 4) == seq![84u8, 84, 73, 58]
    &&& d.subrange(e + 8, e + 12) == seq![84u8, 65, 71, 58]
}

/// What parsing a `.TTM` resource body `d` gives: an error where the header, the tables
/// or the packed data are broken, and otherwise the resource they describe.
pub open spec fn ttm_parsed(d: Seq<u8>, res: Result<Ttm, DgdsError>) -> bool {
    if !ttm_header(d) {
        res is Err
    } else {
        match packed_frame(d, 27) {
            None => res is Err,
            Some((m, size, b, e)) => {
                let tags = tag_list(d, e + 18, le_u16(d, e + 16));
                &&& res is Ok ==> {
                    &&& text_of(res->Ok_0.version@, field_bytes(d, 8, 5))
                    &&& res->Ok_0.num_pages == le_u32(d, 17)
                    &&& decodes_to(m, d.subrange(b, e), size, res->Ok_0.bytecode@)
                    &&& ttm_trailer(d, e)
                    &&& tags is Some
                    &&& tags_match(res->Ok_0.tags@, tags->Some_0.0)
                }
                &&& res is Err ==> may_fail(m, d.subrange(b, e), size) || !ttm_trailer(d, e)
                    || tags is None
                &&& (!ttm_trailer(d, e) || tags is None) ==> res is Err
            },
        }
    }
}

impl Ttm {
    /// Parse a `.TTM` resource body.
    pub fn parse(bytes: &[u8]) -> (res: Result<Self, DgdsError>)
        ensures
            ttm_parsed(bytes@, res),
    {
        let mut r = Reader::new(bytes);
        r.expect_tag("TTM resource", &[86u8, 69, 82, 58])?;
        let _version_size = r.u32()?;
        let version = r.fixed_str(5)?;
        r.expect_tag("TTM resource", &[80u8, 65, 71, 58])?;
        let num_pages = r.u32()?;
        let _pag_unknown1 = r.u8()?;
        let _pag_unknown2 = r.u8()?;
        r.expect_tag("TTM resource", &[84u8, 84, 51, 58])?;
        proof {
            assert([86u8, 69, 82, 58]@ =~= seq![86u8, 69, 82, 58]);
            assert([80u8, 65, 71, 58]@ =~= seq![80u8, 65, 71, 58]);
            assert([84u8, 84, 51, 58]@ =~= seq![84u8, 84, 51, 58]);
            assert([84u8, 84, 73, 58]@ =~= seq![84u8, 84, 73, 58]);
            assert([84u8, 65, 71, 58]@ =~= seq![84u8, 65, 71, 58]);
        }
        let bytecode = read_packed_block(&mut r)?;
        r.expect_tag("TTM resource", &[84u8, 84, 73, 58])?;
        r.skip(4)?;
        r.expect_tag("TTM resource", &[84u8, 65, 71, 58])?;
        let _tag_size = r.u32()?;
        let num_tags = r.u16()? as usize;
        let tags = read_tags(&mut r, num_tags)?;
        Ok(Ttm { version, num_pages, bytecode, tags })
    }
}

/// The arguments of one TTM instruction: words, or one string.
#[derive(Debug, Clone, PartialEq, Eq)]
pub enum TtmArgs {
    /// Little-endian 16-bit words.
    Words(Vec<u16>),
    /// A NUL-terminated string (resource names).
    Str(String),
}

/// One decoded TTM instruction.
#[derive(Debug, Clone, PartialEq, Eq)]
pub struct TtmInstruction {
    /// The opcode; its low nibble is the number of word arguments, or 15 for a string.
    pub opcode: u16,
    /// The arguments.
    pub args: TtmArgs,
}

impl TtmInstruction {
    /// Whether this instruction marks a scene entry point (`SET_SCENE` or `TAG`).
    pub open spec fn marks_tag(&self) -> bool {
        self.opcode == 0x1111 || self.opcode == 0x1101
    }
}

/// Whether the opcode at `pos` carries a string argument (low nibble 15).
pub open spec fn ttm_has_str(s: Seq<u8>, pos: int) -> bool {
    le_u16(s, pos) % 16 == 15
}

/// Length of the string argument of the instruction at `pos` (up to its NUL).
pub open spec fn ttm_str_len(s: Seq<u8>, pos: int) -> int {
    first_nul(s.subrange(pos + 2, s.len() as int))
}

/// Whether a whole instruction starts at `pos`: its opcode and all of its arguments
/// (a string must be NUL-terminated).
pub open spec fn ttm_ins_complete(s: Seq<u8>, pos: int) -> bool {
    &&& 0 <= pos
    &&& pos + 2 <= s.len()
    &&& if ttm_has_str(s, pos) {
        pos + 2 + ttm_str_len(s, pos) < s.len()
    } else {
        pos + 2 + 2 * (le_u16(s, pos) % 16) <= s.len()
    }
}

/// Where the instruction after the one at `pos` starts: strings are padded to an even
/// length (the pad byte may be missing at the very end).
pub open spec fn ttm_next(s: Seq<u8>, pos: int) -> int {
    if ttm_has_str(s, pos) {
        let n = ttm_str_len(s, pos) + 1;
        let e = pos + 2 + n + n % 2;
        if e <= s.len() { e } else { s.len() as int }
    } else {
        pos + 2 + 2 * (le_u16(s, pos) % 16)
    }
}

/// Where instruction `i` starts.
pub open spec fn ttm_pos(s: Seq<u8>, i: nat) -> int
    decreases i,
{
    if i == 0 { 0 } else { ttm_next(s, ttm_pos(s, (i - 1) as nat)) }
}

/// The `k` words after the opcode at `pos`.
pub open spec fn ttm_words(s: Seq<u8>, pos: int, k: int) -> Seq<u16> {
    Seq::new(k as nat, |j: int| le_u16(s, pos + 2 + 2 * j) as u16)
}

/// Whether `ins` is the instruction encoded at `pos`.
pub open spec fn ttm_ins_at(ins: TtmInstruction, s: Seq<u8>, pos: int) -> bool {
    &&& ins.opcode == le_u16(s, pos)
    &&& if ttm_has_str(s, pos) {
        ins.args matches TtmArgs::Str(t) && text_of(
            t@,
            s.subrange(pos + 2, pos + 2 + ttm_str_len(s, pos)),
        )
    } else {
        ins.args matches TtmArgs::Words(w) && w@ == ttm_words(s, pos, le_u16(s, pos) % 16)
    }
}

/// Whether `r` is what decoding `code` gives: every instruction in order, up to the
/// end of the code; or an error, when instruction `n` is cut short after `n` complete
/// ones.
pub open spec fn ttm_decoded(code: Seq<u8>, r: Result<Vec<TtmInstruction>, DgdsError>) -> bool {
    &&& r matches Ok(v) ==> {
        &&& ttm_pos(code, v@.len()) == code.len()
        &&& forall|i: int|
            0 <= i < v@.len() ==> ttm_ins_complete(code, ttm_pos(code, i as nat))
                && #[trigger] ttm_ins_at(v@[i], code, ttm_pos(code, i as nat))
    }
    &&& r is Err ==> exists|n: nat| ttm_cut_at(code, n)
}

/// Whether instruction `n` is the first one cut short.
pub open spec fn ttm_cut_at(code: Seq<u8>, n: nat) -> bool {
    &&& ttm_pos(code, n) < code.len()
    &&& !ttm_ins_complete(code, ttm_pos(code, n))
    &&& forall|i: nat| #![trigger ttm_pos(code, i)] i < n ==> ttm_ins_complete(code, ttm_pos(code, i))
}

/// Decode TTM bytecode into instructions: each a little-endian opcode followed by as
/// many words as its low nibble says, or (nibble 15) by a NUL-terminated string padded
/// to an even length. Fails when the last instruction is cut short.
pub fn decode_ttm(code: &[u8]) -> (r: Result<Vec<TtmInstruction>, DgdsError>)
    ensures
        ttm_decoded(code@, r),
{
    let mut out: Vec<TtmInstruction> = Vec::new();
    let mut pos: usize = 0;
    let clen = code.len();
    while pos < code.len()
        invariant
            pos <= code@.len(),
            clen == code@.len(),
            pos == ttm_pos(code@, out@.len()),
            forall|i: int|
                0 <= i < out@.len() ==> ttm_ins_complete(code@, ttm_pos(code@, i as nat))
                    && #[trigger] ttm_ins_at(out@[i], code@, ttm_pos(code@, i as nat)),
            forall|i: nat| #![trigger ttm_pos(code@, i)] i < out@.len() ==> ttm_ins_complete(code@, ttm_pos(code@, i)),
        decreases code@.len() - pos,
    {
        let ghost n = out@.len();
        let ghost prev = out@;
        if code.len() - pos < 2 {
            proof {
                assert(ttm_cut_at(code@, n));
            }
            return Err(DgdsError::eof("TTM opcode", pos.saturating_add(2), code.len()));
        }
        let op: u16 = code[pos] as u16 + (code[pos + 1] as u16) * 256;
        let nib = op % 16;
        if nib == 15 {
            let rest = slice_subrange(code, pos + 2, code.len());
            let k = find_nul(rest);
            if k >= rest.len() {
                proof {
                    assert(ttm_cut_at(code@, n));
                }
                return Err(DgdsError::eof("TTM string", code.len().saturating_add(1), code.len()));
            }
            let text = string_from_utf8_lossy(slice_subrange(rest, 0, k));
            proof {
                assert(rest@.subrange(0, k as int) =~= code@.subrange(pos + 2, pos + 2 + k));
            }
            out.push(TtmInstruction { opcode: op, args: TtmArgs::Str(text) });
            let len1 = k + 1;
            let base = pos + 2 + len1;
            pos = if len1 % 2 == 1 && base < code.len() { base + 1 } else { base };
        } else {
            let cnt = nib as usize;
            if code.len() - pos - 2 < 2 * cnt {
                proof {
                    assert(ttm_cut_at(code@, n));
                }
                return Err(DgdsError::eof("TTM arguments", (pos + 2).saturating_add(2 * cnt), code.len()));
            }
            let mut words: Vec<u16> = Vec::new();
            let mut j: usize = 0;
            while j < cnt
                invariant
                    j <= cnt,
                    clen == code@.len(),
                    cnt == le_u16(code@, pos as int) % 16,
                    pos + 2 + 2 * cnt <= code@.len(),
                    words@ == ttm_words(code@, pos as int, j as int),
                decreases cnt - j,
            {
                let at = pos + 2 + 2 * j;
                let w: u16 = code[at] as u16 + (code[at + 1] as u16) * 256;
                words.push(w);
                j = j + 1;
                assert(words@ =~= ttm_words(code@, pos as int, j as int));
            }
            out.push(TtmInstruction { opcode: op, args: TtmArgs::Words(words) });
            pos = pos + 2 + 2 * cnt;
        }
        proof {
            assert(ttm_pos(code@, out@.len()) == ttm_next(code@, ttm_pos(code@, n)));
            assert forall|i: int|
                0 <= i < out@.len() implies ttm_ins_complete(code@, ttm_pos(code@, i as nat))
                    && #[trigger] ttm_ins_at(out@[i], code@, ttm_pos(code@, i as nat)) by {
                if i < n {
                    assert(out@[i] == prev[i]);
                }
            }
        }
    }
    Ok(out)
}

impl Ttm {
    /// Decode this resource's bytecode into instructions.
    pub fn instructions(&self) -> (r: Result<Vec<TtmInstruction>, DgdsError>)
        ensures
            ttm_decoded(self.bytecode@, r),
    {
        decode_ttm(self.bytecode.as_slice())
    }
}

} // verus!
