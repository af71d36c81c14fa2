//! Extract the original digital sound effects embedded as WAV/RIFF chunks in the
//! original `SCRANTIC.EXE` / `SCRANTIC.SCR`.
//!
//! The 23 effects are ids `0..=24` (the originals skip 11 and 13). They are not stored in
//! id order, but each effect's PCM `data` length is unique, so each extracted chunk is
//! mapped to its id by that length.
use vstd::prelude::*;
use vstd::slice::{slice_subrange, slice_to_vec};
use crate::dgds::reader::le_u32;

verus! {

/// The sound id whose PCM `data` chunk is `len` bytes long, if any.
pub open spec fn sound_id(len: int) -> Option<u16> {
    if len == 10262 { Some(0u16) }
    else if len == 11072 { Some(1u16) }
    else if len == 1488 { Some(2u16) }
    else if len == 7392 { Some(3u16) }
    else if len == 4992 { Some(4u16) }
    else if len == 2816 { Some(5u16) }
    else if len == 15744 { Some(6u16) }
    else if len == 14976 { Some(7u16) }
    else if len == 2304 { Some(8u16) }
    else if len == 3040 { Some(9u16) }
    else if len == 20224 { Some(10u16) }
    else if len == 5438 { Some(12u16) }
    else if len == 11328 { Some(14u16) }
    else if len == 2838 { Some(15u16) }
    else if len == 7604 { Some(16u16) }
    else if len == 4253 { Some(17u16) }
    else if len == 13943 { Some(18u16) }
    else if len == 3288 { Some(19u16) }
    else if len == 7215 { Some(20u16) }
    else if len == 4838 { Some(21u16) }
    else if len == 1292 { Some(22u16) }
    else if len == 1515 { Some(23u16) }
    else if len == 9672 { Some(24u16) }
    else { None }
}

fn sound_id_for_len(len: usize) -> (r: Option<u16>)
    ensures
        r == sound_id(len as int),
{
    match len {
        10262 => Some(0),
        11072 => Some(1),
        1488 => Some(2),
        7392 => Some(3),
        4992 => Some(4),
        2816 => Some(5),
        15744 => Some(6),
        14976 => Some(7),
        2304 => Some(8),
        3040 => Some(9),
        20224 => Some(10),
        5438 => Some(12),
        11328 => Some(14),
        2838 => Some(15),
        7604 => Some(16),
        4253 => Some(17),
        13943 => Some(18),
        3288 => Some(19),
        7215 => Some(20),
        4838 => Some(21),
        1292 => Some(22),
        1515 => Some(23),
        9672 => Some(24),
        _ => None,
    }
}

/// The length of the `data` sub-chunk found by walking the RIFF sub-chunks of `w`
/// from `p` (each chunk is word-aligned).
pub open spec fn wav_data_from(w: Seq<u8>, p: int) -> Option<int>
    decreases w.len() - p,
{
    if p < 0 || p + 8 > w.len() {
        None
    } else if w.subrange(p, p + 4) == seq![100u8, 97, 116, 97] {
        Some(le_u32(w, p + 4))
    } else if p + 8 + le_u32(w, p + 4) + le_u32(w, p + 4) % 2 > w.len() {
        None
    } else {
        wav_data_from(w, p + 8 + le_u32(w, p + 4) + le_u32(w, p + 4) % 2)
    }
}

/// The length of a WAV's `data` sub-chunk (the PCM payload), or `None` if absent.
pub fn wav_data_len(wav: &[u8]) -> (r: Option<usize>)
    ensures
        match wav_data_from(wav@, 12) {
            Some(n) => r is Some && r->Some_0 == n && n <= u32::MAX,
            None => r is None,
        },
{
    let mut p: usize = 12;
    while p <= wav.len() && 8 <= wav.len() - p
        invariant
            p >= 12,
            wav_data_from(wav@, 12) == wav_data_from(wav@, p as int),
        decreases wav@.len() - p,
    {
        let size = wav[p + 4] as u64 + (wav[p + 5] as u64) * 256 + (wav[p + 6] as u64) * 65536
            + (wav[p + 7] as u64) * 16777216;
        assert(size == le_u32(wav@, p + 4));
        if wav[p] == 100 && wav[p + 1] == 97 && wav[p + 2] == 116 && wav[p + 3] == 97 {
            assert(wav@.subrange(p as int, p + 4) =~= seq![100u8, 97, 116, 97]);
            return Some(size as usize);
        }
        assert(wav@.subrange(p as int, p + 4) != seq![100u8, 97, 116, 97]) by {
            if wav@.subrange(p as int, p + 4) == seq![100u8, 97, 116, 97] {
                assert(wav@.subrange(p as int, p + 4)[0] == wav@[p as int]);
                assert(wav@.subrange(p as int, p + 4)[1] == wav@[p + 1]);
                assert(wav@.subrange(p as int, p + 4)[2] == wav@[p + 2]);
                assert(wav@.subrange(p as int, p + 4)[3] == wav@[p + 3]);
            }
        }
        let step = 8 + size + size % 2;
        if step > (wav.len() - p) as u64 {
            return None;
        }
        p = p + step as usize;
    }
    None
}

/// Whether `exe[i..]` starts a `RIFF`...`WAVE` header.
pub open spec fn riff_at(exe: Seq<u8>, i: int) -> bool {
    &&& 0 <= i
    &&& i + 12 <= exe.len()
    &&& exe.subrange(i, i + 4) == seq![82u8, 73, 70, 70]
    &&& exe.subrange(i + 8, i + 12) == seq![87u8, 65, 86, 69]
}

/// The sound table after scanning `exe` from `i`, starting from table `out`: each
/// complete embedded WAV whose `data` length names an id fills that id's slot if it is
/// still empty, and the scan resumes after the WAV.
pub open spec fn scan_sounds(exe: Seq<u8>, i: int, out: Seq<Option<Seq<u8>>>) -> Seq<Option<Seq<u8>>>
    decreases exe.len() - i,
{
    if i < 0 || i + 12 > exe.len() {
        out
    } else if riff_at(exe, i) && i + le_u32(exe, i + 4) + 8 <= exe.len() {
        let end = i + le_u32(exe, i + 4) + 8;
        let wav = exe.subrange(i, end);
        let next = match wav_data_from(wav, 12) {
            Some(dlen) => match sound_id(dlen) {
                Some(id) => if (id as int) < out.len() && out[id as int] is None {
                    out.update(id as int, Some(wav))
                } else {
                    out
                },
                None => out,
            },
            None => out,
        };
        scan_sounds(exe, end, next)
    } else {
        scan_sounds(exe, i + 1, out)
    }
}

/// Whether `w` is a whole `RIFF`...`WAVE` chunk embedded in `exe` whose `data` length is
/// the one that names sound `k`.
pub open spec fn embedded_sound(exe: Seq<u8>, k: int, w: Seq<u8>) -> bool {
    exists|i: int|
        #[trigger] riff_at(exe, i) && i + le_u32(exe, i + 4) + 8 <= exe.len() && w == exe.subrange(
            i,
            i + le_u32(exe, i + 4) + 8,
        ) && match wav_data_from(w, 12) {
            Some(d) => sound_id(d) == Some(k as u16),
            None => false,
        }
}

/// Whether every filled slot `k` of a 25-slot sound table is an embedded sound `k`,
/// and the slots of the missing ids 11 and 13 are empty.
pub open spec fn sounds_sound(exe: Seq<u8>, t: Seq<Option<Seq<u8>>>) -> bool {
    &&& t.len() == 25
    &&& t[11] is None
    &&& t[13] is None
    &&& forall|k: int| 0 <= k < 25 && (#[trigger] t[k]) is Some ==> embedded_sound(exe, k, t[k]->Some_0)
}

/// Scanning on from `i` keeps every filled slot an embedded sound of its id.
proof fn lemma_scan_sound(exe: Seq<u8>, i: int, t: Seq<Option<Seq<u8>>>)
    requires
        sounds_sound(exe, t),
    ensures
        sounds_sound(exe, scan_sounds(exe, i, t)),
    decreases exe.len() - i,
{
    if i < 0 || i + 12 > exe.len() {
    } else if riff_at(exe, i) && i + le_u32(exe, i + 4) + 8 <= exe.len() {
        let end = i + le_u32(exe, i + 4) + 8;
        let wav = exe.subrange(i, end);
        match wav_data_from(wav, 12) {
            Some(dlen) => match sound_id(dlen) {
                Some(id) => {
                    if (id as int) < t.len() && t[id as int] is None {
                        let n = t.update(id as int, Some(wav));
                        assert(id != 11 && id != 13);
                        assert(embedded_sound(exe, id as int, wav));
                        assert forall|k: int| 0 <= k < 25 && (#[trigger] n[k]) is Some implies embedded_sound(
                            exe,
                            k,
                            n[k]->Some_0,
                        ) by {
                            if k != id {
                                assert(n[k] == t[k]);
                            }
                        }
                        lemma_scan_sound(exe, end, n);
                    } else {
                        lemma_scan_sound(exe, end, t);
                    }
                },
                None => lemma_scan_sound(exe, end, t),
            },
            None => lemma_scan_sound(exe, end, t),
        }
    } else {
        lemma_scan_sound(exe, i + 1, t);
    }
}

/// Every sound found in an executable is a whole `RIFF`...`WAVE` chunk of it whose PCM
/// length is the unique one of its id, and ids 11 and 13 are never filled; so bytes that
/// embed no such chunk give no sound at all.
pub proof fn lemma_found_sounds_are_embedded(exe: Seq<u8>)
    ensures
        ({
            let t = scan_sounds(exe, 0, Seq::new(25, |k: int| None::<Seq<u8>>));
            &&& sounds_sound(exe, t)
            &&& forall|k: int|
                0 <= k < 25 && (#[trigger] t[k]) is Some ==> {
                    &&& t[k]->Some_0.subrange(0, 4) == seq![82u8, 73, 70, 70]
                    &&& t[k]->Some_0.subrange(8, 12) == seq![87u8, 65, 86, 69]
                }
        }),
{
    let t0 = Seq::new(25, |k: int| None::<Seq<u8>>);
    lemma_scan_sound(exe, 0, t0);
    let t = scan_sounds(exe, 0, t0);
    assert forall|k: int| 0 <= k < 25 && (#[trigger] t[k]) is Some implies {
        &&& t[k]->Some_0.subrange(0, 4) == seq![82u8, 73, 70, 70]
        &&& t[k]->Some_0.subrange(8, 12) == seq![87u8, 65, 86, 69]
    } by {
        let w = t[k]->Some_0;
        assert(embedded_sound(exe, k, w));
        let i = choose|i: int|
            #[trigger] riff_at(exe, i) && i + le_u32(exe, i + 4) + 8 <= exe.len() && w == exe.subrange(
                i,
                i + le_u32(exe, i + 4) + 8,
            ) && match wav_data_from(w, 12) {
                Some(d) => sound_id(d) == Some(k as u16),
                None => false,
            };
        assert(w.subrange(0, 4) =~= exe.subrange(i, i + 4));
        assert(w.subrange(8, 12) =~= exe.subrange(i + 8, i + 12));
    }
}

/// Scan `exe` (the bytes of `SCRANTIC.EXE`/`.SCR`) for the embedded WAV sound effects and
/// return them indexed by sound id (`0..=24`; absent ids, including 11 and 13, are `None`).
pub fn sounds_from_scrantic_exe(exe: &[u8]) -> (out: Vec<Option<Vec<u8>>>)
    ensures
        out@.len() == 25,
        out@[11] is None,
        out@[13] is None,
        forall|k: int|
            0 <= k < 25 && (#[trigger] out@[k]) is Some ==> {
                &&& embedded_sound(exe@, k, out@[k]->Some_0@)
                &&& out@[k]->Some_0@.subrange(0, 4) == seq![82u8, 73, 70, 70]
                &&& out@[k]->Some_0@.subrange(8, 12) == seq![87u8, 65, 86, 69]
            },
        ({
            let table = scan_sounds(exe@, 0, Seq::new(25, |k: int| None::<Seq<u8>>));
            forall|k: int|
                0 <= k < 25 ==> match #[trigger] table[k] {
                    Some(w) => out@[k] is Some && out@[k]->Some_0@ == w,
                    None => out@[k] is None,
                }
        }),
{
    let mut out: Vec<Option<Vec<u8>>> = Vec::new();
    let mut j: usize = 0;
    while j < 25
        invariant
            j <= 25,
            out@.len() == j,
            forall|k: int| 0 <= k < j ==> out@[k] is None,
        decreases 25 - j,
    {
        out.push(None);
        j = j + 1;
    }
    let ghost mut table: Seq<Option<Seq<u8>>> = Seq::new(25, |k: int| None::<Seq<u8>>);
    let mut i: usize = 0;
    while i <= exe.len() && 12 <= exe.len() - i
        invariant
            out@.len() == 25,
            table.len() == 25,
            forall|k: int|
                0 <= k < 25 ==> match #[trigger] table[k] {
                    Some(w) => out@[k] is Some && out@[k]->Some_0@ == w,
                    None => out@[k] is None,
                },
            scan_sounds(exe@, 0, Seq::new(25, |k: int| None::<Seq<u8>>)) == scan_sounds(exe@, i as int, table),
        decreases exe@.len() - i,
    {
        let is_riff = exe[i] == 82 && exe[i + 1] == 73 && exe[i + 2] == 70 && exe[i + 3] == 70
            && exe[i + 8] == 87 && exe[i + 9] == 65 && exe[i + 10] == 86 && exe[i + 11] == 69;
        proof {
            let s1 = exe@.subrange(i as int, i + 4);
            let s2 = exe@.subrange(i + 8, i + 12);
            if is_riff {
                assert(s1 =~= seq![82u8, 73, 70, 70]);
                assert(s2 =~= seq![87u8, 65, 86, 69]);
            } else if riff_at(exe@, i as int) {
                assert(s1[0] == exe@[i as int] && s1[1] == exe@[i + 1] && s1[2] == exe@[i + 2] && s1[3] == exe@[i + 3]);
                assert(s2[0] == exe@[i + 8] && s2[1] == exe@[i + 9] && s2[2] == exe@[i + 10] && s2[3] == exe@[i + 11]);
            }
        }
        if is_riff {
            let riff_size = exe[i + 4] as u64 + (exe[i + 5] as u64) * 256 + (exe[i + 6] as u64)
                * 65536 + (exe[i + 7] as u64) * 16777216 + 8;
            assert(riff_size == le_u32(exe@, i + 4) + 8);
            if riff_size <= (exe.len() - i) as u64 {
                let end = i + riff_size as usize;
                let wav = slice_subrange(exe, i, end);
                let ghost old_table = table;
                match wav_data_len(wav) {
                    Some(dlen) => match sound_id_for_len(dlen) {
                        Some(id) => {
                            let slot = id as usize;
                            proof {
                                if slot < 25 {
                                    let _ = table[slot as int];
                                }
                            }
                            if slot < out.len() && out[slot].is_none() {
                                assert(old_table[slot as int] is None);
                                out.set(slot, Some(slice_to_vec(wav)));
                                proof { table = table.update(slot as int, Some(wav@)); }
                            } else {
                                assert(!((id as int) < old_table.len() && old_table[id as int] is None));
                            }
                        },
                        None => {},
                    },
                    None => {},
                }
                assert(wav@ == exe@.subrange(i as int, end as int));
                proof {
                    assert(riff_at(exe@, i as int));
                    assert(end == i + le_u32(exe@, i + 4) + 8);
                    let next = match wav_data_from(wav@, 12) {
                        Some(dlen) => match sound_id(dlen) {
                            Some(id) => if (id as int) < old_table.len() && old_table[id as int] is None {
                                old_table.update(id as int, Some(wav@))
                            } else {
                                old_table
                            },
                            None => old_table,
                        },
                        None => old_table,
                    };
                    match wav_data_from(wav@, 12) {
                        Some(dl) => {
                            assert(dl <= u32::MAX);
                            match sound_id(dl) {
                                Some(id) => {
                                    assert(next == table);
                                },
                                None => {
                                    assert(next == table);
                                },
                            }
                        },
                        None => {
                            assert(next == table);
                        },
                    }
                }
                assert(scan_sounds(exe@, i as int, old_table) == scan_sounds(exe@, end as int, table));
                i = end;
                continue;
            }
        }
        i = i + 1;
    }
    proof {
        lemma_found_sounds_are_embedded(exe@);
        let t = scan_sounds(exe@, 0, Seq::new(25, |k: int| None::<Seq<u8>>));
        assert(t[11] is None && t[13] is None);
        assert forall|k: int| 0 <= k < 25 && (#[trigger] out@[k]) is Some implies {
            &&& embedded_sound(exe@, k, out@[k]->Some_0@)
            &&& out@[k]->Some_0@.subrange(0, 4) == seq![82u8, 73, 70, 70]
            &&& out@[k]->Some_0@.subrange(8, 12) == seq![87u8, 65, 86, 69]
        } by {
            assert(t[k] is Some);
        }
    }
    out
}

} // verus!
