//! Sound-effect bookkeeping: the effect file names, how many effects are loaded, what a
//! playback attempt reports, and the one-line audio summary shown under `--debug`. The
//! device and decoding live in the app.
use vstd::prelude::*;
use vstd::string::StringExecFns;
use crate::host::text::{decimal, push_decimal};

verus! {

/// The number of sound-effect slots (`sound0.wav` … `sound24.wav`).
pub const NUM_SOUNDS: usize = 25;

/// The result of a playback attempt, for `--debug` diagnostics.
#[derive(Debug, Clone, Copy, PartialEq, Eq, Structural)]
pub enum PlayOutcome {
    /// No backend: muted, no audio device, or built without audio.
    Unavailable,
    /// No sound is loaded for this id.
    NotLoaded,
    /// Could not create a playback sink on the device.
    SinkFailed,
    /// The WAV bytes failed to decode.
    DecodeFailed,
    /// Queued for playback.
    Played,
}

/// The on-disk file name of sound effect `id`: `sound<id>.wav`.
pub fn sound_filename(id: u16) -> (s: String)
    ensures
        s@ == "sound"@ + decimal(id as nat) + ".wav"@,
{
    let mut s = String::new();
    s.append("sound");
    push_decimal(&mut s, id as u64);
    s.append(".wav");
    s
}

/// The number of populated slots in `sounds`.
pub open spec fn loaded_count(sounds: Seq<Option<Vec<u8>>>) -> nat
    decreases sounds.len(),
{
    if sounds.len() == 0 {
        0
    } else {
        loaded_count(sounds.drop_last()) + if sounds.last() is Some {
            1nat
        } else {
            0nat
        }
    }
}

/// How many sound slots are populated.
pub fn count_loaded(sounds: &Vec<Option<Vec<u8>>>) -> (n: usize)
    ensures
        n == loaded_count(sounds@),
{
    let mut n: usize = 0;
    let mut i: usize = 0;
    while i < sounds.len()
        invariant
            i <= sounds@.len(),
            n == loaded_count(sounds@.take(i as int)),
            n <= i,
        decreases sounds@.len() - i,
    {
        proof {
            assert(sounds@.take(i + 1).drop_last() =~= sounds@.take(i as int));
        }
        if sounds[i].is_some() {
            n = n + 1;
        }
        i = i + 1;
    }
    proof {
        assert(sounds@.take(sounds@.len() as int) =~= sounds@);
    }
    n
}

/// The sound loaded for effect `id`, if any; a missing slot or id plays nothing.
pub fn loaded_sound(sounds: &Vec<Option<Vec<u8>>>, id: u16) -> (r: Option<&Vec<u8>>)
    ensures
        r is Some <==> (id < sounds@.len() && sounds@[id as int] is Some),
        r is Some ==> *r->Some_0 == sounds@[id as int]->Some_0,
{
    let i = id as usize;
    if i < sounds.len() {
        match &sounds[i] {
            Some(b) => Some(b),
            None => None,
        }
    } else {
        None
    }
}

pub open spec fn flag_text(b: bool) -> Seq<char> {
    if b {
        "true"@
    } else {
        "false"@
    }
}

fn flag_str(b: bool) -> (s: &'static str)
    ensures
        s@ == flag_text(b),
{
    if b {
        "true"
    } else {
        "false"
    }
}

/// The one-line audio state for the `--debug` log: whether audio is built in, muted,
/// whether an output device opened, and how many effects are loaded.
pub fn audio_summary(feature: bool, muted: bool, device_open: bool, sounds_loaded: usize) -> (s: String)
    ensures
        s@ == "feature="@ + flag_text(feature) + " muted="@ + flag_text(muted) + " device_open="@
            + flag_text(device_open) + " sounds_loaded="@ + decimal(sounds_loaded as nat),
{
    let mut s = String::new();
    s.append("feature=");
    s.append(flag_str(feature));
    s.append(" muted=");
    s.append(flag_str(muted));
    s.append(" device_open=");
    s.append(flag_str(device_open));
    s.append(" sounds_loaded=");
    push_decimal(&mut s, sounds_loaded as u64);
    proof {
        assert(s@ =~= "feature="@ + flag_text(feature) + " muted="@ + flag_text(muted) + " device_open="@
            + flag_text(device_open) + " sounds_loaded="@ + decimal(sounds_loaded as nat));
    }
    s
}

} // verus!
