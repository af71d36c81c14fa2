//! A small bounds-checked, little-endian cursor over a byte slice.
use vstd::prelude::*;
use vstd::slice::slice_subrange;
use crate::dgds::error::DgdsError;

verus! {

/// The little-endian `u16` stored at `i` in `s`.
pub open spec fn le_u16(s: Seq<u8>, i: int) -> int {
    s[i] + 256 * s[i + 1]
}

/// The little-endian `u32` stored at `i` in `s`.
pub open spec fn le_u32(s: Seq<u8>, i: int) -> int {
    s[i] + 256 * s[i + 1] + 65536 * s[i + 2] + 16777216 * s[i + 3]
}

/// Index of the first NUL byte in `s`, or `s.len()` when there is none.
pub open spec fn first_nul(s: Seq<u8>) -> int
    decreases s.len(),
{
    if s.len() == 0 {
        0
    } else if s[0] == 0 {
        0
    } else {
        1 + first_nul(s.drop_first())
    }
}

/// Whether `e` is an end-of-data error reporting `needed` and `available`.
pub open spec fn is_eof(e: DgdsError, needed: int, available: int) -> bool {
    e matches DgdsError::UnexpectedEof { needed: n, available: a, .. } && n == needed && a
        == available
}

/// The text that `String::from_utf8_lossy` makes of `bytes`.
pub uninterp spec fn lossy_utf8(bytes: Seq<u8>) -> Seq<char>;

/// Whether `t` is the text that lossy UTF-8 decoding makes of `b`: always the lossy
/// decoding, and, where `b` is valid UTF-8, exactly the characters it encodes.
pub open spec fn text_of(t: Seq<char>, b: Seq<u8>) -> bool {
    &&& t == lossy_utf8(b)
    &&& vstd::utf8::valid_utf8(b) ==> t == vstd::utf8::decode_utf8(b)
}

/// Wraps `String::from_utf8_lossy(..).into_owned()`: the contract says the result is
/// the lossy decoding of the bytes (a function of the bytes alone), and, as std documents,
/// that valid UTF-8 is decoded unchanged.
#[verifier::external_body]
pub fn string_from_utf8_lossy(bytes: &[u8]) -> (s: String)
    ensures
        s@ == lossy_utf8(bytes@),
        vstd::utf8::valid_utf8(bytes@) ==> s@ == vstd::utf8::decode_utf8(bytes@),
{
    String::from_utf8_lossy(bytes).into_owned()
}

/// The position of the first NUL byte in `bytes` (or its length).
pub fn find_nul(bytes: &[u8]) -> (i: usize)
    ensures
        i == first_nul(bytes@),
        i <= bytes@.len(),
        forall|j: int| 0 <= j < i ==> bytes@[j] != 0,
        i < bytes@.len() ==> bytes@[i as int] == 0,
{
    let mut i: usize = 0;
    assert(bytes@.subrange(0, bytes@.len() as int) =~= bytes@);
    while i < bytes.len()
        invariant
            i <= bytes@.len(),
            forall|j: int| 0 <= j < i ==> bytes@[j] != 0,
            first_nul(bytes@) == i + first_nul(bytes@.subrange(i as int, bytes@.len() as int)),
        ensures
            i <= bytes@.len(),
            forall|j: int| 0 <= j < i ==> bytes@[j] != 0,
            i < bytes@.len() ==> bytes@[i as int] == 0,
            first_nul(bytes@) == i,
        decreases bytes.len() - i,
    {
        if bytes[i] == 0 {
            assert(first_nul(bytes@.subrange(i as int, bytes@.len() as int)) == 0);
            break;
        }
        proof {
            let rest = bytes@.subrange(i as int, bytes@.len() as int);
            assert(rest.drop_first() =~= bytes@.subrange(i + 1, bytes@.len() as int));
        }
        i = i + 1;
    }
    i
}

/// A forward/seekable cursor that reads little-endian integers and fixed fields
/// from a byte slice, returning [`DgdsError::UnexpectedEof`] instead of panicking.
#[derive(Debug)]
pub struct Reader<'a> {
    data: &'a [u8],
    pos: usize,
}

impl<'a> Clone for Reader<'a> {
    fn clone(&self) -> (r: Self)
        ensures
            r.data() == self.data() && r.pos() == self.pos(),
    {
        proof { use_type_invariant(self); }
        Reader { data: self.data, pos: self.pos }
    }
}

impl<'a> Reader<'a> {
    /// The bytes being read.
    pub closed spec fn data(&self) -> Seq<u8> {
        self.data@
    }

    /// The current read position.
    pub closed spec fn pos_nat(&self) -> nat {
        self.pos as nat
    }

    /// The current read position, as an integer.
    pub open spec fn pos(&self) -> int {
        self.pos_nat() as int
    }

    #[verifier::type_invariant]
    pub closed spec fn inv(&self) -> bool {
        self.pos <= self.data@.len()
    }

    /// The invariant keeps the position within the data.
    pub proof fn lemma_inv(&self)
        requires
            self.inv(),
        ensures
            self.pos() <= self.data().len(),
    {
    }

    /// Create a reader positioned at the start of `data`.
    pub fn new(data: &'a [u8]) -> (r: Self)
        ensures
            r.data() == data@,
            r.pos() == 0,
    {
        Reader { data, pos: 0 }
    }

    /// Current read position (byte offset).
    pub fn position(&self) -> (p: usize)
        ensures
            p == self.pos(),
            p <= self.data().len(),
    {
        proof { use_type_invariant(self); }
        self.pos
    }

    /// Number of bytes left to read.
    pub fn remaining(&self) -> (n: usize)
        ensures
            n == self.data().len() - self.pos(),
    {
        proof { use_type_invariant(self); }
        self.data.len() - self.pos
    }

    /// Whether the cursor is at end-of-data.
    pub fn is_empty(&self) -> (b: bool)
        ensures
            b == (self.pos() >= self.data().len()),
    {
        self.pos >= self.data.len()
    }

    /// Move the cursor to an absolute position.
    pub fn seek(&mut self, pos: usize) -> (r: Result<(), DgdsError>)
        ensures
            final(self).data() == old(self).data(),
            pos <= old(self).data().len() ==> r is Ok && final(self).pos() == pos,
            pos > old(self).data().len() ==> r is Err && is_eof(r->Err_0, pos as int, old(self).data().len() as int)
                && final(self).pos() == old(self).pos(),
    {
        if pos > self.data.len() {
            return Err(DgdsError::eof("seek", pos, self.data.len()));
        }
        self.pos = pos;
        Ok(())
    }

    /// Advance the cursor by `n` bytes.
    pub fn skip(&mut self, n: usize) -> (r: Result<(), DgdsError>)
        ensures
            final(self).data() == old(self).data(),
            old(self).pos() + n <= old(self).data().len() ==> r is Ok && final(self).pos()
                == old(self).pos() + n,
            old(self).pos() + n > old(self).data().len() ==> r is Err && r->Err_0 is UnexpectedEof
                && final(self).pos() == old(self).pos(),
    {
        match self.take(n) {
            Ok(_) => Ok(()),
            Err(e) => Err(e),
        }
    }

    /// Borrow the next `n` bytes and advance.
    pub fn take(&mut self, n: usize) -> (r: Result<&'a [u8], DgdsError>)
        ensures
            final(self).data() == old(self).data(),
            old(self).pos() + n <= old(self).data().len() ==> {
                &&& r is Ok
                &&& r->Ok_0@ == old(self).data().subrange(old(self).pos(), old(self).pos() + n)
                &&& final(self).pos() == old(self).pos() + n
            },
            old(self).pos() + n > old(self).data().len() ==> {
                &&& r is Err
                &&& is_eof(
                    r->Err_0,
                    if old(self).pos() + n > usize::MAX {
                        usize::MAX as int
                    } else {
                        old(self).pos() + n
                    },
                    old(self).data().len() as int,
                )
                &&& final(self).pos() == old(self).pos()
            },
    {
        proof { use_type_invariant(&*self); }
        let end = match self.pos.checked_add(n) {
            Some(e) => e,
            None => return Err(DgdsError::eof("take", usize::MAX, self.data.len())),
        };
        if end > self.data.len() {
            return Err(DgdsError::eof("take", end, self.data.len()));
        }
        let slice = slice_subrange(self.data, self.pos, end);
        self.pos = end;
        Ok(slice)
    }

    /// Read one byte.
    pub fn u8(&mut self) -> (r: Result<u8, DgdsError>)
        ensures
            final(self).data() == old(self).data(),
            old(self).pos() + 1 <= old(self).data().len() ==> r == Ok::<u8, DgdsError>(
                old(self).data()[old(self).pos()],
            ) && final(self).pos() == old(self).pos() + 1,
            old(self).pos() + 1 > old(self).data().len() ==> r is Err && r->Err_0 is UnexpectedEof
                && final(self).pos() == old(self).pos(),
    {
        let b = self.take(1)?;
        Ok(b[0])
    }

    /// Read a little-endian `u16`.
    pub fn u16(&mut self) -> (r: Result<u16, DgdsError>)
        ensures
            final(self).data() == old(self).data(),
            old(self).pos() + 2 <= old(self).data().len() ==> r is Ok && r->Ok_0 == le_u16(
                old(self).data(),
                old(self).pos(),
            ) && final(self).pos() == old(self).pos() + 2,
            old(self).pos() + 2 > old(self).data().len() ==> r is Err && r->Err_0 is UnexpectedEof
                && final(self).pos() == old(self).pos(),
    {
        let b = self.take(2)?;
        Ok(b[0] as u16 + (b[1] as u16) * 256)
    }

    /// Read a little-endian `u32`.
    pub fn u32(&mut self) -> (r: Result<u32, DgdsError>)
        ensures
            final(self).data() == old(self).data(),
            old(self).pos() + 4 <= old(self).data().len() ==> r is Ok && r->Ok_0 == le_u32(
                old(self).data(),
                old(self).pos(),
            ) && final(self).pos() == old(self).pos() + 4,
            old(self).pos() + 4 > old(self).data().len() ==> r is Err && r->Err_0 is UnexpectedEof
                && final(self).pos() == old(self).pos(),
    {
        let b = self.take(4)?;
        Ok(b[0] as u32 + (b[1] as u32) * 256 + (b[2] as u32) * 65536 + (b[3] as u32) * 16777216)
    }

    /// Read a 4-byte tag (e.g. `b"SCR:"`).
    pub fn tag(&mut self) -> (r: Result<[u8; 4], DgdsError>)
        ensures
            final(self).data() == old(self).data(),
            old(self).pos() + 4 <= old(self).data().len() ==> r is Ok && r->Ok_0@
                == old(self).data().subrange(old(self).pos(), old(self).pos() + 4)
                && final(self).pos() == old(self).pos() + 4,
            old(self).pos() + 4 > old(self).data().len() ==> r is Err && r->Err_0 is UnexpectedEof
                && final(self).pos() == old(self).pos(),
    {
        let b = self.take(4)?;
        let t = [b[0], b[1], b[2], b[3]];
        assert(t@ =~= b@);
        Ok(t)
    }

    /// Read a 4-byte tag and verify it matches `expected`.
    pub fn expect_tag(&mut self, context: &'static str, expected: &[u8; 4]) -> (r: Result<(), DgdsError>)
        ensures
            final(self).data() == old(self).data(),
            old(self).pos() + 4 <= old(self).data().len() ==> {
                let found = old(self).data().subrange(old(self).pos(), old(self).pos() + 4);
                &&& final(self).pos() == old(self).pos() + 4
                &&& (r is Ok <==> found == expected@)
                &&& r is Err ==> (r->Err_0 matches DgdsError::BadTag { context: c, expected: e, found: f }
                    && c == context && e == *expected && f@ == found)
            },
            old(self).pos() + 4 > old(self).data().len() ==> r is Err && r->Err_0 is UnexpectedEof
                && final(self).pos() == old(self).pos(),
    {
        let found = self.tag()?;
        if found[0] == expected[0] && found[1] == expected[1] && found[2] == expected[2]
            && found[3] == expected[3] {
            assert(found@ =~= expected@);
            Ok(())
        } else {
            Err(DgdsError::BadTag { context, expected: *expected, found })
        }
    }

    /// Read a fixed-width field of `n` bytes and decode it as an ASCII/UTF-8 string,
    /// stopping at the first NUL byte (DGDS uses NUL-terminated fixed fields).
    pub fn fixed_str(&mut self, n: usize) -> (r: Result<String, DgdsError>)
        ensures
            final(self).data() == old(self).data(),
            old(self).pos() + n <= old(self).data().len() ==> {
                let field = old(self).data().subrange(old(self).pos(), old(self).pos() + n);
                &&& r is Ok
                &&& text_of(r->Ok_0@, field.take(first_nul(field)))
                &&& final(self).pos() == old(self).pos() + n
            },
            old(self).pos() + n > old(self).data().len() ==> r is Err && r->Err_0 is UnexpectedEof
                && final(self).pos() == old(self).pos(),
    {
        let bytes = self.take(n)?;
        let end = find_nul(bytes);
        let prefix = slice_subrange(bytes, 0, end);
        assert(prefix@ =~= bytes@.take(end as int));
        Ok(string_from_utf8_lossy(prefix))
    }

    /// Read a NUL-terminated string of at most `max` bytes (the terminator included),
    /// advancing past the terminator.
    pub fn cstr(&mut self, max: usize) -> (r: Result<String, DgdsError>)
        ensures
            final(self).data() == old(self).data(),
            ({
                let rest = old(self).data().subrange(old(self).pos(), old(self).data().len() as int);
                let k = first_nul(rest);
                if k < rest.len() && k < max {
                    &&& r is Ok
                    &&& text_of(r->Ok_0@, rest.take(k))
                    &&& final(self).pos() == old(self).pos() + k + 1
                } else {
                    r is Err
                }
            }),
    {
        proof { use_type_invariant(&*self); }
        let rest = slice_subrange(self.data, self.pos, self.data.len());
        let k = find_nul(rest);
        if k >= rest.len() {
            return Err(DgdsError::eof("string terminator", self.data.len().saturating_add(1), self.data.len()));
        }
        if k >= max {
            return Err(crate::dgds::error::malformed("string longer than its field"));
        }
        let prefix = slice_subrange(rest, 0, k);
        assert(prefix@ =~= rest@.take(k as int));
        let s = string_from_utf8_lossy(prefix);
        self.pos = self.pos + k + 1;
        Ok(s)
    }
}

} // verus!
