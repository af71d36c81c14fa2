//! The macOS screensaver bundle's side of the runtime: the fixed frame size it pulls, the
//! directories it searches for the original data, and the delay it suggests per frame.
use vstd::prelude::*;
use vstd::string::StringExecFns;
use crate::host::assets::{joined, join_path};

verus! {

/// The frame width the engine renders; the caller scales it to the view (4:3 letterbox).
pub const WILSON_WIDTH: u32 = 640;
/// The frame height the engine renders.
pub const WILSON_HEIGHT: u32 = 480;
/// The bytes of one RGBA frame.
pub const FRAME_BYTES: usize = 1_228_800;

/// The directories searched for the original data, in order: `$WILSON_DATA_DIR` when
/// set, then `Library/Application Support/WilsonReborn` under the home directory.
pub open spec fn data_dirs_spec(data_env: Option<Seq<char>>, home: Option<Seq<char>>) -> Seq<Seq<char>> {
    let first: Seq<Seq<char>> = match data_env {
        Some(d) => seq![d],
        None => Seq::empty(),
    };
    let second: Seq<Seq<char>> = match home {
        Some(h) => seq![joined(h, "Library/Application Support/WilsonReborn"@)],
        None => Seq::empty(),
    };
    first + second
}

pub open spec fn opt_text(o: Option<String>) -> Option<Seq<char>> {
    match o {
        Some(s) => Some(s@),
        None => None,
    }
}

/// Build the ordered list of directories to search for the original data.
pub fn data_dirs_from(data_env: Option<String>, home: Option<String>) -> (dirs: Vec<String>)
    ensures
        crate::host::assets::texts(dirs@) == data_dirs_spec(opt_text(data_env), opt_text(home)),
{
    let mut dirs: Vec<String> = Vec::new();
    match data_env {
        Some(d) => {
            dirs.push(d);
        },
        None => {},
    }
    match home {
        Some(h) => {
            dirs.push(join_path(h.as_str(), "Library/Application Support/WilsonReborn"));
        },
        None => {},
    }
    proof {
        assert(crate::host::assets::texts(dirs@) =~= data_dirs_spec(opt_text(data_env), opt_text(home)));
    }
    dirs
}

/// The suggested delay after a frame held for `delay_ticks` engine ticks, in
/// milliseconds (20 ms per tick).
pub fn frame_delay_ms(delay_ticks: u16) -> (ms: u32)
    ensures
        ms == delay_ticks * 20,
{
    delay_ticks as u32 * 20
}

} // verus!
