//! Locating the original Johnny Castaway data: the candidate places to look, in priority
//! order, how a zip is recognised, and which answer the search gives. The file-system
//! probing itself (reading, extracting, decompressing the installer) lives in the app.
use vstd::prelude::*;
use vstd::string::StringExecFns;
use crate::host::verbs::chars_of;

verus! {

/// The message shown when no usable data source is found.
pub const NEED_DATA_MSG: &'static str = "Wilson Reborn needs the original Johnny Castaway data (RESOURCE.MAP + RESOURCE.001). Pass --data <dir-or-zip>, set WILSON_DATA_DIR, or place the files (or the Internet Archive scrantic-run.zip) in the current directory or next to the executable. Get them at https://archive.org/download/johnny-castaway-screensaver/scrantic-run.zip";

/// `rel` appended to the path `base` (a `/` between them unless `base` is empty or already
/// ends with one); an absolute `rel` replaces `base`.
pub open spec fn joined(base: Seq<char>, rel: Seq<char>) -> Seq<char> {
    if rel.len() > 0 && rel[0] == '/' {
        rel
    } else if base.len() == 0 || base.last() == '/' {
        base + rel
    } else {
        base + seq!['/'] + rel
    }
}

/// Append the relative or absolute path `rel` to `base` (see [`joined`]).
pub fn join_path(base: &str, rel: &str) -> (p: String)
    ensures
        p@ == joined(base@, rel@),
{
    let r = chars_of(rel);
    let b = chars_of(base);
    let mut p = String::new();
    if r.len() > 0 && r[0] == '/' {
        p.append(rel);
        proof {
            assert(p@ =~= rel@);
        }
        return p;
    }
    p.append(base);
    if !(b.len() == 0 || b[b.len() - 1] == '/') {
        p.append("/");
        proof {
            reveal_strlit("/");
        }
    }
    p.append(rel);
    proof {
        if base@.len() == 0 || base@.last() == '/' {
            assert(p@ =~= base@ + rel@);
        } else {
            assert(p@ =~= base@ + seq!['/'] + rel@);
        }
    }
    p
}

/// The places searched for the data, from the base directories in priority order: each
/// base and then its `data/` subdirectory; after all of those, the Internet Archive zips
/// `scrantic-run.zip` and `scrantic-installer.zip` next to each of them.
pub open spec fn candidates_of(bases: Seq<Seq<char>>) -> Seq<Seq<char>> {
    let dirs = Seq::new(2 * bases.len(), |k: int| if k % 2 == 0 {
        bases[k / 2]
    } else {
        joined(bases[k / 2], "data"@)
    });
    let zips = Seq::new(2 * dirs.len(), |k: int| if k % 2 == 0 {
        joined(dirs[k / 2], "scrantic-run.zip"@)
    } else {
        joined(dirs[k / 2], "scrantic-installer.zip"@)
    });
    dirs + zips
}

pub open spec fn texts(v: Seq<String>) -> Seq<Seq<char>> {
    Seq::new(v.len(), |i: int| v[i]@)
}

/// The candidate data paths for the base directories `bases` (see [`candidates_of`]).
pub fn data_candidates(bases: &Vec<String>) -> (c: Vec<String>)
    requires
        4 * bases@.len() <= usize::MAX,
    ensures
        texts(c@) == candidates_of(texts(bases@)),
{
    let ghost want = candidates_of(texts(bases@));
    let ghost bs = texts(bases@);
    let mut dirs: Vec<String> = Vec::new();
    let mut i: usize = 0;
    while i < bases.len()
        invariant
            i <= bases@.len(),
            bs == texts(bases@),
            dirs@.len() == 2 * i,
            forall|k: int|
                0 <= k < 2 * i ==> (#[trigger] dirs@[k])@ == if k % 2 == 0 {
                    bs[k / 2]
                } else {
                    joined(bs[k / 2], "data"@)
                },
        decreases bases@.len() - i,
    {
        let b = bases[i].as_str();
        dirs.push(String::from_str(b));
        dirs.push(join_path(b, "data"));
        i = i + 1;
    }
    let ghost ds = texts(dirs@);
    proof {
        assert(ds =~= Seq::new(2 * bs.len(), |k: int| if k % 2 == 0 {
            bs[k / 2]
        } else {
            joined(bs[k / 2], "data"@)
        }));
    }
    let mut out: Vec<String> = Vec::new();
    let mut j: usize = 0;
    while j < dirs.len()
        invariant
            j <= dirs@.len(),
            ds == texts(dirs@),
            out@.len() == j,
            forall|k: int| 0 <= k < j ==> (#[trigger] out@[k])@ == ds[k],
        decreases dirs@.len() - j,
    {
        out.push(String::from_str(dirs[j].as_str()));
        j = j + 1;
    }
    let mut j: usize = 0;
    while j < dirs.len()
        invariant
            j <= dirs@.len(),
            ds == texts(dirs@),
            dirs@.len() == 2 * bs.len(),
            4 * bs.len() <= usize::MAX,
            out@.len() == dirs@.len() + 2 * j,
            forall|k: int| 0 <= k < dirs@.len() ==> (#[trigger] out@[k])@ == ds[k],
            forall|k: int|
                0 <= k < 2 * j ==> (#[trigger] out@[dirs@.len() + k])@ == if k % 2 == 0 {
                    joined(ds[k / 2], "scrantic-run.zip"@)
                } else {
                    joined(ds[k / 2], "scrantic-installer.zip"@)
                },
        decreases dirs@.len() - j,
    {
        let d = dirs[j].as_str();
        out.push(join_path(d, "scrantic-run.zip"));
        out.push(join_path(d, "scrantic-installer.zip"));
        proof {
            assert forall|k: int|
                0 <= k < 2 * (j + 1) implies (#[trigger] out@[dirs@.len() + k])@ == if k % 2 == 0 {
                    joined(ds[k / 2], "scrantic-run.zip"@)
                } else {
                    joined(ds[k / 2], "scrantic-installer.zip"@)
                } by {
                if k >= 2 * j {
                    assert(k / 2 == j);
                }
            }
        }
        j = j + 1;
    }
    proof {
        assert(texts(out@) =~= want) by {
            assert forall|k: int| 0 <= k < out@.len() implies #[trigger] texts(out@)[k] == want[k] by {
                if k >= dirs@.len() {
                    let m = k - dirs@.len();
                    assert(out@[dirs@.len() + m] == out@[k]);
                }
            }
        }
    }
    out
}

/// Whether `head`, the first bytes of a file, start with the zip magic `PK\x03\x04`.
pub fn has_zip_magic(head: &[u8]) -> (r: bool)
    ensures
        r == (head@.len() >= 4 && head@[0] == 0x50 && head@[1] == 0x4B && head@[2] == 3 && head@[3]
            == 4),
{
    head.len() >= 4 && head[0] == 0x50 && head[1] == 0x4B && head[2] == 3 && head[3] == 4
}

/// What probing one candidate path gave.
#[derive(Debug, Clone, PartialEq, Eq)]
pub enum Prepared {
    /// A ready data directory.
    Ready(String),
    /// Not a data source; keep looking.
    Skip,
    /// Recognised but unusable (such as the installer's data that failed to unpack), with
    /// the reason.
    Unusable(String),
}

/// The search over the candidates, in order: the first ready directory wins; otherwise
/// the first reason a candidate was unusable, or else [`NEED_DATA_MSG`], is reported.
pub struct DataSearch {
    /// The first reason seen so far.
    pub reason: Option<String>,
}

impl DataSearch {
    /// A search that has seen nothing yet.
    pub fn new() -> (s: DataSearch)
        ensures
            s.reason is None,
    {
        DataSearch { reason: None }
    }

    /// Take the result of probing the next candidate; `Some(dir)` ends the search.
    pub fn offer(&mut self, p: Prepared) -> (done: Option<String>)
        ensures
            match p {
                Prepared::Ready(d) => done == Some(d) && final(self).reason == old(self).reason,
                Prepared::Skip => done is None && final(self).reason == old(self).reason,
                Prepared::Unusable(e) => done is None && final(self).reason == if old(self).reason is Some {
                    old(self).reason
                } else {
                    Some(e)
                },
            },
    {
        match p {
            Prepared::Ready(d) => Some(d),
            Prepared::Skip => None,
            Prepared::Unusable(e) => {
                if self.reason.is_none() {
                    self.reason = Some(e);
                }
                None
            },
        }
    }

    /// The error when no candidate was ready.
    pub fn finish(self) -> (msg: String)
        ensures
            msg@ == match self.reason {
                Some(r) => r@,
                None => NEED_DATA_MSG@,
            },
    {
        match self.reason {
            Some(r) => r,
            None => String::from_str(NEED_DATA_MSG),
        }
    }
}

} // verus!
