//! High-level loader tying `RESOURCE.MAP` to the resources in `RESOURCE.001`.
//!
//! Parses every entry of the index, reads its header from the archive and decodes it
//! into the appropriate typed resource. Unknown types (e.g. `FILES.VIN`) are recorded in
//! [`Archive::skipped`] rather than failing.
use vstd::prelude::*;
use vstd::slice::slice_subrange;
use crate::dgds::ads::{Ads, ads_parsed};
use crate::dgds::bmp::{Bmp, bmp_parsed};
use crate::dgds::error::DgdsError;
use crate::dgds::pal::{Palette, is_palette, vga_channel, pal_parsed};
use crate::dgds::reader::le_u32;
use crate::dgds::resource::{ResourceMap, read_entry_header, field_text, field_bytes, map_count, last_dot, find_last_dot};
use crate::dgds::reader::text_of;
use crate::dgds::scr::{Scr, scr_parsed};
use crate::dgds::ttm::{Ttm, ttm_parsed};

verus! {

broadcast use vstd::utf8::group_utf8_lib;

/// Resource kinds an archive entry can have, by file extension.
pub open spec fn kind_other() -> u8 { 0 }

/// The kind of an `.ADS` entry.
pub open spec fn kind_ads() -> u8 { 1 }

/// The kind of a `.BMP` entry.
pub open spec fn kind_bmp() -> u8 { 2 }

/// The kind of a `.PAL` entry.
pub open spec fn kind_pal() -> u8 { 3 }

/// The kind of an `.SCR` entry.
pub open spec fn kind_scr() -> u8 { 4 }

/// The kind of a `.TTM` entry.
pub open spec fn kind_ttm() -> u8 { 5 }

/// ASCII upper-casing of one byte.
pub open spec fn upper(c: u8) -> u8 {
    if 97 <= c <= 122 { (c - 32) as u8 } else { c }
}

/// Whether the extension of the name with bytes `b` (from its last `.`, upper-cased)
/// is `.` followed by `ext`.
pub open spec fn ext_is(b: Seq<u8>, ext: Seq<u8>) -> bool {
    let i = last_dot(b);
    &&& i >= 0
    &&& b.len() == i + 1 + ext.len()
    &&& forall|k: int| 0 <= k < ext.len() ==> upper(#[trigger] b[i + 1 + k]) == ext[k]
}

/// The resource kind of a name with bytes `b`.
pub open spec fn kind_of(b: Seq<u8>) -> u8 {
    if ext_is(b, seq![65u8, 68, 83]) {
        kind_ads()
    } else if ext_is(b, seq![66u8, 77, 80]) {
        kind_bmp()
    } else if ext_is(b, seq![80u8, 65, 76]) {
        kind_pal()
    } else if ext_is(b, seq![83u8, 67, 82]) {
        kind_scr()
    } else if ext_is(b, seq![84u8, 84, 77]) {
        kind_ttm()
    } else {
        kind_other()
    }
}

/// The archive offset of index entry `k`.
pub open spec fn entry_offset(m: Seq<u8>, k: int) -> int {
    le_u32(m, 25 + 8 * k)
}

/// The name of the resource index entry `k` points at.
pub open spec fn entry_name(m: Seq<u8>, a: Seq<u8>, k: int) -> Seq<char> {
    field_text(a, entry_offset(m, k), 13)
}

/// The kind of the resource index entry `k` points at.
pub open spec fn entry_kind(m: Seq<u8>, a: Seq<u8>, k: int) -> u8 {
    kind_of(vstd::utf8::encode_utf8(entry_name(m, a, k)))
}

/// The names of the first `n` entries of kind `kind`, in index order.
pub open spec fn names_of(m: Seq<u8>, a: Seq<u8>, n: int, kind: u8) -> Seq<Seq<char>>
    decreases n,
{
    if n <= 0 {
        Seq::empty()
    } else if entry_kind(m, a, n - 1) == kind {
        names_of(m, a, n - 1, kind).push(entry_name(m, a, n - 1))
    } else {
        names_of(m, a, n - 1, kind)
    }
}

/// Every index entry goes to exactly one list: the names of the first `n` entries,
/// split by kind, add up to `n`.
pub proof fn lemma_kinds_partition(m: Seq<u8>, a: Seq<u8>, n: int)
    requires
        n >= 0,
    ensures
        names_of(m, a, n, kind_ads()).len() + names_of(m, a, n, kind_bmp()).len() + names_of(
            m,
            a,
            n,
            kind_pal(),
        ).len() + names_of(m, a, n, kind_scr()).len() + names_of(m, a, n, kind_ttm()).len()
            + names_of(m, a, n, kind_other()).len() == n,
    decreases n,
{
    if n > 0 {
        lemma_kinds_partition(m, a, n - 1);
        let k = entry_kind(m, a, n - 1);
        assert(k == kind_ads() || k == kind_bmp() || k == kind_pal() || k == kind_scr() || k
            == kind_ttm() || k == kind_other());
    }
}

/// The body of index entry `k`: the archive bytes after its 17-byte header.
pub open spec fn entry_body(m: Seq<u8>, a: Seq<u8>, k: int) -> Seq<u8> {
    a.subrange(entry_offset(m, k) + 17, a.len() as int)
}

/// The bodies of the first `n` entries of kind `kind`, in index order.
pub open spec fn bodies_of(m: Seq<u8>, a: Seq<u8>, n: int, kind: u8) -> Seq<Seq<u8>>
    decreases n,
{
    if n <= 0 {
        Seq::empty()
    } else if entry_kind(m, a, n - 1) == kind {
        bodies_of(m, a, n - 1, kind).push(entry_body(m, a, n - 1))
    } else {
        bodies_of(m, a, n - 1, kind)
    }
}

/// Whether index entry `k` can make the parse fail: its header runs past the end of
/// the archive, or its body may be refused by the parser of its kind.
pub open spec fn entry_fails(m: Seq<u8>, a: Seq<u8>, k: int) -> bool {
    if entry_offset(m, k) + 17 > a.len() {
        true
    } else {
        let d = entry_body(m, a, k);
        let kind = entry_kind(m, a, k);
        if kind == kind_ads() {
            exists|e: DgdsError| #[trigger] ads_parsed(d, Err(e))
        } else if kind == kind_bmp() {
            exists|e: DgdsError| #[trigger] bmp_parsed(d, Err(e))
        } else if kind == kind_pal() {
            !is_palette(d)
        } else if kind == kind_scr() {
            exists|e: DgdsError| #[trigger] scr_parsed(d, Err(e))
        } else if kind == kind_ttm() {
            exists|e: DgdsError| #[trigger] ttm_parsed(d, Err(e))
        } else {
            false
        }
    }
}

/// Whether `b` (the bytes of a name) ends in `.` and the extension `ext` (ignoring case).
fn ext_matches(b: &[u8], dot: usize, ext: &[u8; 3]) -> (r: bool)
    requires
        dot as int == last_dot(b@),
    ensures
        r == ext_is(b@, ext@),
{
    if b.len() < 4 || dot != b.len() - 4 {
        return false;
    }
    let mut k: usize = 0;
    while k < 3
        invariant
            k <= 3,
            dot + 4 == b.len(),
            forall|j: int| 0 <= j < k ==> upper(#[trigger] b@[dot + 1 + j]) == ext@[j],
        decreases 3 - k,
    {
        let c = b[dot + 1 + k];
        let u = if 97 <= c && c <= 122 { c - 32 } else { c };
        if u != ext[k] {
            return false;
        }
        k = k + 1;
    }
    true
}

/// The resource kind of a name.
pub fn classify(name: &str) -> (k: u8)
    ensures
        k == kind_of(vstd::utf8::encode_utf8(name@)),
{
    let b = name.as_bytes();
    proof {
        assert(b@.take(b@.len() as int) =~= b@);
    }
    let dot = match find_last_dot(b) {
        Some(d) => d,
        None => return 0,
    };
    proof {
        assert([65u8, 68, 83]@ =~= seq![65u8, 68, 83]);
        assert([66u8, 77, 80]@ =~= seq![66u8, 77, 80]);
        assert([80u8, 65, 76]@ =~= seq![80u8, 65, 76]);
        assert([83u8, 67, 82]@ =~= seq![83u8, 67, 82]);
        assert([84u8, 84, 77]@ =~= seq![84u8, 84, 77]);
    }
    if ext_matches(b, dot, &[65u8, 68, 83]) {
        1
    } else if ext_matches(b, dot, &[66u8, 77, 80]) {
        2
    } else if ext_matches(b, dot, &[80u8, 65, 76]) {
        3
    } else if ext_matches(b, dot, &[83u8, 67, 82]) {
        4
    } else if ext_matches(b, dot, &[84u8, 84, 77]) {
        5
    } else {
        0
    }
}

/// Whether two strings are equal (compared by their bytes).
pub fn str_eq(a: &str, b: &str) -> (r: bool)
    ensures
        r == (a@ == b@),
{
    let x = a.as_bytes();
    let y = b.as_bytes();
    assert(x@ == vstd::utf8::encode_utf8(a@));
    assert(y@ == vstd::utf8::encode_utf8(b@));
    if x.len() != y.len() {
        proof {
            if a@ == b@ {
                assert(x@ == y@);
            }
        }
        return false;
    }
    let mut i: usize = 0;
    while i < x.len()
        invariant
            i <= x@.len(),
            x@.len() == y@.len(),
            x@ == vstd::utf8::encode_utf8(a@),
            y@ == vstd::utf8::encode_utf8(b@),
            forall|j: int| 0 <= j < i ==> x@[j] == y@[j],
        decreases x.len() - i,
    {
        if x[i] != y[i] {
            proof {
                assert(x@ == vstd::utf8::encode_utf8(a@));
                assert(y@ == vstd::utf8::encode_utf8(b@));
            }
            return false;
        }
        i = i + 1;
    }
    proof {
        assert(x@ == vstd::utf8::encode_utf8(a@));
        assert(y@ == vstd::utf8::encode_utf8(b@));
        assert(x@ =~= y@);
        vstd::utf8::encode_utf8_decode_utf8(a@);
        vstd::utf8::encode_utf8_decode_utf8(b@);
    }
    true
}

/// All resources decoded from a `RESOURCE.MAP` + archive pair.
#[derive(Debug)]
pub struct Archive {
    /// Name of the archive file referenced by the index (e.g. `RESOURCE.001`).
    pub data_file_name: String,
    /// Palette resources, as `(name, palette)`.
    pub palettes: Vec<(String, Palette)>,
    /// Bitmap sheets, as `(name, bmp)`.
    pub bitmaps: Vec<(String, Bmp)>,
    /// Full-screen images, as `(name, scr)`.
    pub screens: Vec<(String, Scr)>,
    /// Animation scripts, as `(name, ttm)`.
    pub ttms: Vec<(String, Ttm)>,
    /// Scene-sequencing scripts, as `(name, ads)`.
    pub ads: Vec<(String, Ads)>,
    /// Names of resources that were recognised but not decoded (e.g. `.VIN`).
    pub skipped: Vec<String>,
}

impl Default for Archive {
    fn default() -> (a: Self)
        ensures
            a.data_file_name@.len() == 0,
            a.palettes@.len() == 0,
            a.bitmaps@.len() == 0,
            a.screens@.len() == 0,
            a.ttms@.len() == 0,
            a.ads@.len() == 0,
            a.skipped@.len() == 0,
    {
        Archive {
            data_file_name: String::new(),
            palettes: Vec::new(),
            bitmaps: Vec::new(),
            screens: Vec::new(),
            ttms: Vec::new(),
            ads: Vec::new(),
            skipped: Vec::new(),
        }
    }
}

/// The names of a list of named resources.
pub open spec fn names<T>(v: Seq<(String, T)>) -> Seq<Seq<char>> {
    Seq::new(v.len(), |i: int| v[i].0@)
}

/// Index of the first entry of `v` named `name`, if any.
pub open spec fn first_named<T>(v: Seq<(String, T)>, name: Seq<char>) -> Option<int> {
    if exists|i: int| 0 <= i < v.len() && v[i].0@ == name {
        Some(choose|i: int|
            0 <= i < v.len() && v[i].0@ == name && forall|j: int| 0 <= j < i ==> v[j].0@ != name)
    } else {
        None
    }
}

/// The first entry of `v` named `name`.
fn find_named<'a, T>(v: &'a Vec<(String, T)>, name: &str) -> (r: Option<&'a T>)
    ensures
        match r {
            Some(x) => exists|i: int|
                0 <= i < v@.len() && v@[i].0@ == name@ && *x == v@[i].1 && forall|j: int|
                    0 <= j < i ==> v@[j].0@ != name@,
            None => forall|i: int| 0 <= i < v@.len() ==> v@[i].0@ != name@,
        },
{
    let mut i: usize = 0;
    while i < v.len()
        invariant
            i <= v@.len(),
            forall|j: int| 0 <= j < i ==> v@[j].0@ != name@,
        decreases v.len() - i,
    {
        if str_eq(v[i].0.as_str(), name) {
            return Some(&v[i].1);
        }
        i = i + 1;
    }
    None
}

impl Archive {
    /// Parse the index (`map_bytes`) and decode every resource from `archive_bytes`.
    pub fn parse(map_bytes: &[u8], archive_bytes: &[u8]) -> (res: Result<Self, DgdsError>)
        ensures
            ({
                let m = map_bytes@;
                let a = archive_bytes@;
                let n = map_count(m);
                &&& !(m.len() >= 21 && m.len() >= 21 + 8 * n) ==> res is Err
                &&& (exists|k: int| 0 <= k < n && #[trigger] entry_offset(m, k) + 17 > a.len()) ==> res is Err
                &&& res is Ok ==> {
                    &&& text_of(res->Ok_0.data_file_name@, field_bytes(m, 6, 13))
                    &&& forall|k: int| 0 <= k < n ==> text_of(
                        #[trigger] entry_name(m, a, k),
                        field_bytes(a, entry_offset(m, k), 13),
                    )
                    &&& names(res->Ok_0.palettes@) == names_of(m, a, n, kind_pal())
                    &&& names(res->Ok_0.bitmaps@) == names_of(m, a, n, kind_bmp())
                    &&& names(res->Ok_0.screens@) == names_of(m, a, n, kind_scr())
                    &&& names(res->Ok_0.ttms@) == names_of(m, a, n, kind_ttm())
                    &&& names(res->Ok_0.ads@) == names_of(m, a, n, kind_ads())
                    &&& Seq::new(res->Ok_0.skipped@.len(), |i: int| res->Ok_0.skipped@[i]@)
                        == names_of(m, a, n, kind_other())
                    &&& res->Ok_0.ads@.len() + res->Ok_0.bitmaps@.len() + res->Ok_0.palettes@.len()
                        + res->Ok_0.screens@.len() + res->Ok_0.ttms@.len() + res->Ok_0.skipped@.len() == n
                    &&& forall|j: int| 0 <= j < res->Ok_0.ads@.len() ==> #[trigger] ads_parsed(
                        bodies_of(m, a, n, kind_ads())[j],
                        Ok(res->Ok_0.ads@[j].1),
                    )
                    &&& forall|j: int| 0 <= j < res->Ok_0.bitmaps@.len() ==> #[trigger] bmp_parsed(
                        bodies_of(m, a, n, kind_bmp())[j],
                        Ok(res->Ok_0.bitmaps@[j].1),
                    )
                    &&& forall|j: int| 0 <= j < res->Ok_0.palettes@.len() ==> #[trigger] pal_parsed(
                        bodies_of(m, a, n, kind_pal())[j],
                        Ok(res->Ok_0.palettes@[j].1),
                    )
                    &&& forall|j: int| 0 <= j < res->Ok_0.screens@.len() ==> #[trigger] scr_parsed(
                        bodies_of(m, a, n, kind_scr())[j],
                        Ok(res->Ok_0.screens@[j].1),
                    )
                    &&& forall|j: int| 0 <= j < res->Ok_0.ttms@.len() ==> #[trigger] ttm_parsed(
                        bodies_of(m, a, n, kind_ttm())[j],
                        Ok(res->Ok_0.ttms@[j].1),
                    )
                }
                &&& res is Err ==> !(m.len() >= 21 && m.len() >= 21 + 8 * n) || exists|k: int|
                    0 <= k < n && #[trigger] entry_fails(m, a, k)
            }),
    {
        let ghost m = map_bytes@;
        let ghost a = archive_bytes@;
        let map = match ResourceMap::parse(map_bytes) {
            Ok(mp) => mp,
            Err(e) => return Err(e),
        };
        let ghost n = map_count(m);
        let mut archive = Archive::default();
        archive.data_file_name = map.data_file_name.clone();
        let mut i: usize = 0;
        while i < map.entries.len()
            invariant
                m == map_bytes@,
                a == archive_bytes@,
                n == map.entries@.len(),
                n == map_count(m),
                forall|k: int| 0 <= k < n ==> (#[trigger] map.entries@[k]).offset == entry_offset(m, k),
                i <= n,
                forall|k: int| 0 <= k < i ==> #[trigger] entry_offset(m, k) + 17 <= a.len(),
                text_of(archive.data_file_name@, field_bytes(m, 6, 13)),
                forall|k: int| 0 <= k < i ==> text_of(
                    #[trigger] entry_name(m, a, k),
                    field_bytes(a, entry_offset(m, k), 13),
                ),
                names(archive.palettes@) == names_of(m, a, i as int, kind_pal()),
                names(archive.bitmaps@) == names_of(m, a, i as int, kind_bmp()),
                names(archive.screens@) == names_of(m, a, i as int, kind_scr()),
                names(archive.ttms@) == names_of(m, a, i as int, kind_ttm()),
                names(archive.ads@) == names_of(m, a, i as int, kind_ads()),
                Seq::new(archive.skipped@.len(), |j: int| archive.skipped@[j]@)
                    == names_of(m, a, i as int, kind_other()),
                forall|j: int| 0 <= j < archive.ads@.len() ==> #[trigger] ads_parsed(
                    bodies_of(m, a, i as int, kind_ads())[j],
                    Ok(archive.ads@[j].1),
                ),
                forall|j: int| 0 <= j < archive.bitmaps@.len() ==> #[trigger] bmp_parsed(
                    bodies_of(m, a, i as int, kind_bmp())[j],
                    Ok(archive.bitmaps@[j].1),
                ),
                forall|j: int| 0 <= j < archive.palettes@.len() ==> #[trigger] pal_parsed(
                    bodies_of(m, a, i as int, kind_pal())[j],
                    Ok(archive.palettes@[j].1),
                ),
                forall|j: int| 0 <= j < archive.screens@.len() ==> #[trigger] scr_parsed(
                    bodies_of(m, a, i as int, kind_scr())[j],
                    Ok(archive.screens@[j].1),
                ),
                forall|j: int| 0 <= j < archive.ttms@.len() ==> #[trigger] ttm_parsed(
                    bodies_of(m, a, i as int, kind_ttm())[j],
                    Ok(archive.ttms@[j].1),
                ),
                archive.ads@.len() == bodies_of(m, a, i as int, kind_ads()).len(),
                archive.bitmaps@.len() == bodies_of(m, a, i as int, kind_bmp()).len(),
                archive.palettes@.len() == bodies_of(m, a, i as int, kind_pal()).len(),
                archive.screens@.len() == bodies_of(m, a, i as int, kind_scr()).len(),
                archive.ttms@.len() == bodies_of(m, a, i as int, kind_ttm()).len(),
            decreases n - i,
        {
            let offset = map.entries[i].offset;
            let header = match read_entry_header(archive_bytes, offset) {
                Ok(h) => h,
                Err(e) => {
                    assert(entry_offset(m, i as int) + 17 > a.len());
                    assert(entry_fails(m, a, i as int));
                    return Err(e);
                },
            };
            let body = slice_subrange(archive_bytes, header.body_offset, archive_bytes.len());
            let name = header.name;
            let kind = classify(name.as_str());
            let ghost k = i as int;
            assert(name@ == entry_name(m, a, k));
            assert(kind == entry_kind(m, a, k));
            assert(body@ == entry_body(m, a, k));
            if kind == 1 {
                let v = match Ads::parse(body) {
                    Ok(v) => v,
                    Err(e) => {
                        assert(ads_parsed(body@, Err(e)));
                        assert(entry_fails(m, a, k));
                        return Err(e);
                    },
                };
                archive.ads.push((name, v));
            } else if kind == 2 {
                let v = match Bmp::parse(body) {
                    Ok(v) => v,
                    Err(e) => {
                        assert(bmp_parsed(body@, Err(e)));
                        assert(entry_fails(m, a, k));
                        return Err(e);
                    },
                };
                archive.bitmaps.push((name, v));
            } else if kind == 3 {
                let v = match Palette::parse(body) {
                    Ok(v) => v,
                    Err(e) => {
                        assert(entry_fails(m, a, k));
                        return Err(e);
                    },
                };
                archive.palettes.push((name, v));
            } else if kind == 4 {
                let v = match Scr::parse(body) {
                    Ok(v) => v,
                    Err(e) => {
                        assert(scr_parsed(body@, Err(e)));
                        assert(entry_fails(m, a, k));
                        return Err(e);
                    },
                };
                archive.screens.push((name, v));
            } else if kind == 5 {
                let v = match Ttm::parse(body) {
                    Ok(v) => v,
                    Err(e) => {
                        assert(ttm_parsed(body@, Err(e)));
                        assert(entry_fails(m, a, k));
                        return Err(e);
                    },
                };
                archive.ttms.push((name, v));
            } else {
                archive.skipped.push(name);
            }
            proof {
                assert(names(archive.palettes@) =~= names_of(m, a, k + 1, kind_pal()));
                assert(names(archive.bitmaps@) =~= names_of(m, a, k + 1, kind_bmp()));
                assert(names(archive.screens@) =~= names_of(m, a, k + 1, kind_scr()));
                assert(names(archive.ttms@) =~= names_of(m, a, k + 1, kind_ttm()));
                assert(names(archive.ads@) =~= names_of(m, a, k + 1, kind_ads()));
                assert(Seq::new(archive.skipped@.len(), |j: int| archive.skipped@[j]@)
                    =~= names_of(m, a, k + 1, kind_other()));
            }
            i = i + 1;
        }
        proof {
            lemma_kinds_partition(m, a, n);
            assert(names(archive.ads@).len() == archive.ads@.len());
            assert(names(archive.bitmaps@).len() == archive.bitmaps@.len());
            assert(names(archive.palettes@).len() == archive.palettes@.len());
            assert(names(archive.screens@).len() == archive.screens@.len());
            assert(names(archive.ttms@).len() == archive.ttms@.len());
        }
        Ok(archive)
    }

    /// Find an `.ADS` resource by name (case-sensitive, e.g. `"FISHING.ADS"`).
    pub fn ads(&self, name: &str) -> (r: Option<&Ads>)
        ensures
            match first_named(self.ads@, name@) {
                Some(i) => r == Some(&self.ads@[i].1),
                None => r is None,
            },
    {
        let r = find_named(&self.ads, name);
        proof { lemma_first_named(self.ads@, name@, r); }
        r
    }

    /// Find a `.TTM` resource by name.
    pub fn ttm(&self, name: &str) -> (r: Option<&Ttm>)
        ensures
            match first_named(self.ttms@, name@) {
                Some(i) => r == Some(&self.ttms@[i].1),
                None => r is None,
            },
    {
        let r = find_named(&self.ttms, name);
        proof { lemma_first_named(self.ttms@, name@, r); }
        r
    }

    /// Find a `.BMP` resource by name.
    pub fn bmp(&self, name: &str) -> (r: Option<&Bmp>)
        ensures
            match first_named(self.bitmaps@, name@) {
                Some(i) => r == Some(&self.bitmaps@[i].1),
                None => r is None,
            },
    {
        let r = find_named(&self.bitmaps, name);
        proof { lemma_first_named(self.bitmaps@, name@, r); }
        r
    }

    /// Find a `.SCR` resource by name.
    pub fn scr(&self, name: &str) -> (r: Option<&Scr>)
        ensures
            match first_named(self.screens@, name@) {
                Some(i) => r == Some(&self.screens@[i].1),
                None => r is None,
            },
    {
        let r = find_named(&self.screens, name);
        proof { lemma_first_named(self.screens@, name@, r); }
        r
    }

    /// The first (global) palette, if any.
    pub fn palette(&self) -> (r: Option<&Palette>)
        ensures
            self.palettes@.len() > 0 ==> r == Some(&self.palettes@[0].1),
            self.palettes@.len() == 0 ==> r is None,
    {
        if self.palettes.len() > 0 {
            Some(&self.palettes[0].1)
        } else {
            None
        }
    }
}

proof fn lemma_first_named<T>(v: Seq<(String, T)>, name: Seq<char>, r: Option<&T>)
    requires
        match r {
            Some(x) => exists|i: int|
                0 <= i < v.len() && v[i].0@ == name && *x == v[i].1 && forall|j: int|
                    0 <= j < i ==> v[j].0@ != name,
            None => forall|i: int| 0 <= i < v.len() ==> v[i].0@ != name,
        },
    ensures
        match first_named(v, name) {
            Some(i) => r == Some(&v[i].1),
            None => r is None,
        },
{
    match r {
        Some(x) => {
            let i = choose|i: int|
                0 <= i < v.len() && v[i].0@ == name && *x == v[i].1 && forall|j: int|
                    0 <= j < i ==> v[j].0@ != name;
            let c = first_named(v, name)->Some_0;
            if c < i {
                assert(v[c].0@ != name);
            } else if c > i {
                assert(v[i].0@ != name);
            }
        },
        None => {},
    }
}

/// An entry named `name` at `k` means there is a first one.
proof fn lemma_has_first<T>(v: Seq<(String, T)>, name: Seq<char>, k: int)
    requires
        0 <= k < v.len(),
        v[k].0@ == name,
    ensures
        exists|i: int|
            0 <= i < v.len() && v[i].0@ == name && forall|j: int| 0 <= j < i ==> v[j].0@ != name,
    decreases k,
{
    if exists|j: int| 0 <= j < k && v[j].0@ == name {
        let j = choose|j: int| 0 <= j < k && v[j].0@ == name;
        lemma_has_first(v, name, j);
    } else {
        assert(forall|j: int| 0 <= j < k ==> v[j].0@ != name);
    }
}

/// The index that [`first_named`] gives is that of the first entry named `name`.
pub proof fn lemma_first_named_index<T>(v: Seq<(String, T)>, name: Seq<char>)
    ensures
        first_named(v, name) matches Some(i) ==> 0 <= i < v.len() && v[i].0@ == name
            && forall|j: int| 0 <= j < i ==> v[j].0@ != name,
        first_named(v, name) is None ==> forall|i: int| 0 <= i < v.len() ==> v[i].0@ != name,
{
    if exists|i: int| 0 <= i < v.len() && v[i].0@ == name {
        let k = choose|i: int| 0 <= i < v.len() && v[i].0@ == name;
        lemma_has_first(v, name, k);
    }
}

} // verus!
