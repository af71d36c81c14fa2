use std::collections::HashSet;

use wilson::dgds::ads::{Ads, AdsRes};
use wilson::dgds::archive::Archive;
use wilson::dgds::bmp::{Bmp, BmpImage};
use wilson::dgds::pal::Palette;
use wilson::dgds::resource::Tag;
use wilson::dgds::scr::Scr;
use wilson::dgds::ttm::Ttm;
use wilson::engine::clock::Clock;
use wilson::engine::show::{Show, INTRO_TICKS};
use wilson::engine::story::Director;
use wilson::engine::surface::Surface;
use wilson::MS_PER_TICK;

fn op(c: u16) -> [u8; 2] {
    c.to_le_bytes()
}

fn solid_bmp(count: usize, value: u8) -> Bmp {
    Bmp {
        width: 2,
        height: 2,
        images: (0..count)
            .map(|_| BmpImage {
                width: 2,
                height: 2,
                pixels: vec![value; 4],
            })
            .collect(),
    }
}

/// A TTM that draws one pixel and yields a frame, then ends.
fn one_frame_ttm() -> Ttm {
    let mut code = Vec::new();
    code.extend_from_slice(&op(0x1111)); // TAG 1
    code.extend_from_slice(&1u16.to_le_bytes());
    code.extend_from_slice(&op(0x1021)); // SET_DELAY 6
    code.extend_from_slice(&6u16.to_le_bytes());
    code.extend_from_slice(&op(0xA002)); // DRAW_PIXEL 5 5
    code.extend_from_slice(&5u16.to_le_bytes());
    code.extend_from_slice(&5u16.to_le_bytes());
    code.extend_from_slice(&op(0x0FF0)); // UPDATE
    Ttm {
        version: "1.20".into(),
        num_pages: 1,
        bytecode: code,
        tags: vec![Tag {
            id: 1,
            description: "s".into(),
        }],
    }
}

/// A minimal ADS that adds the one-frame TTM (slot 1) once.
fn minimal_ads() -> Ads {
    let mut code = Vec::new();
    code.extend_from_slice(&op(0x0001)); // tag 1
    code.extend_from_slice(&op(0x2005)); // ADD_SCENE slot1 tag1 0 0
    for v in [1u16, 1, 0, 0] {
        code.extend_from_slice(&v.to_le_bytes());
    }
    code.extend_from_slice(&op(0x1510)); // PLAY_SCENE
    code.extend_from_slice(&op(0xFFFF)); // END
    Ads {
        version: "1.20".into(),
        resources: vec![AdsRes {
            id: 1,
            name: "J.TTM".into(),
        }],
        bytecode: code,
        tags: vec![Tag {
            id: 1,
            description: "s".into(),
        }],
    }
}

fn full_archive() -> Archive {
    let ads_names = [
        "ACTIVITY.ADS",
        "BUILDING.ADS",
        "FISHING.ADS",
        "JOHNNY.ADS",
        "MARY.ADS",
        "MISCGAG.ADS",
        "STAND.ADS",
        "SUZY.ADS",
        "VISITOR.ADS",
        "WALKSTUF.ADS",
    ];
    let mut a = Archive::default();
    a.bitmaps = vec![
        ("BACKGRND.BMP".to_string(), solid_bmp(42, 1)),
        ("MRAFT.BMP".to_string(), solid_bmp(5, 9)),
        ("HOLIDAY.BMP".to_string(), solid_bmp(4, 5)),
        ("JOHNWALK.BMP".to_string(), solid_bmp(64, 8)),
    ];
    a.screens = (0..3)
        .map(|i| {
            (
                format!("OCEAN0{i}.SCR"),
                Scr {
                    width: 640,
                    height: 480,
                    pixels: vec![3; 640 * 480],
                },
            )
        })
        .chain(std::iter::once((
            "NIGHT.SCR".to_string(),
            Scr {
                width: 640,
                height: 480,
                pixels: vec![2; 640 * 480],
            },
        )))
        .collect();
    a.ttms = vec![("J.TTM".to_string(), one_frame_ttm())];
    a.ads = ads_names
        .iter()
        .map(|n| (n.to_string(), minimal_ads()))
        .collect();
    a
}

fn grey() -> Palette {
    Palette {
        colors: [[1u8; 3]; 256],
    }
}

fn clock(yday: i32, month: u8, day: u8) -> Clock {
    Clock {
        yday,
        hour: 12,
        month,
        day,
    }
}

#[test]
fn produces_frames_across_runs() {
    let arch = full_archive();
    let pal = grey();
    let director = Director::new(5, 200);
    let mut show = Show::new(&arch, &pal, 640, 480, director, clock(200, 6, 14), 42);
    for _ in 0..400 {
        let f = show.next_frame(&arch);
        assert_eq!(f.surface.width, 640);
        assert_eq!(f.surface.height, 480);
        assert!(f.delay_ticks > 0);
    }
}

#[test]
fn dissolve_transition_is_woven_in_at_run_boundaries() {
    let arch = full_archive();
    let pal = grey();
    let count_short = |dissolve: bool| {
        let mut show = Show::new(&arch, &pal, 640, 480, Director::new(5, 200), clock(200, 6, 14), 42);
        if dissolve {
            show.enable_dissolve();
        }
        let mut short = 0u32;
        for _ in 0..1500 {
            let f = show.next_frame(&arch);
            assert_eq!((f.surface.width, f.surface.height), (640, 480));
            assert!(f.delay_ticks > 0);
            if f.delay_ticks == 1 {
                short += 1;
            }
        }
        short
    };
    let off = count_short(false);
    let on = count_short(true);
    assert!(
        on > off,
        "dissolve should add short transition frames (on={on}, off={off})"
    );
}

#[test]
fn intro_is_shown_once_when_enabled() {
    let mut arch = full_archive();
    arch.screens.push((
        "INTRO.SCR".to_string(),
        Scr {
            width: 640,
            height: 480,
            pixels: vec![7; 640 * 480],
        },
    ));
    let pal = grey();
    let mut show = Show::new(&arch, &pal, 640, 480, Director::new(5, 200), clock(200, 6, 14), 42);
    show.enable_intro(&arch);
    assert!(show.intro_pending());
    let f0 = show.next_frame(&arch);
    assert_eq!(f0.delay_ticks, INTRO_TICKS);
    assert_eq!(f0.surface.get(10, 10), Some(7));
    assert!(!show.intro_pending(), "intro is shown only once");
}

#[test]
fn intro_missing_is_graceful() {
    let arch = full_archive();
    let pal = grey();
    let mut show = Show::new(&arch, &pal, 640, 480, Director::new(5, 200), clock(200, 6, 14), 42);
    show.enable_intro(&arch);
    assert!(!show.intro_pending());
}

#[test]
fn holiday_prop_is_composited_on_top() {
    let arch = full_archive();
    let pal = grey();
    let count_holiday_pixels = |month: u8, day: u8| {
        let director = Director::new(5, 100);
        let mut show = Show::new(&arch, &pal, 640, 480, director, clock(100, month, day), 7);
        let mut total = 0usize;
        for _ in 0..800 {
            let f = show.next_frame(&arch);
            total += f.surface.pixels.iter().filter(|&&p| p == 5).count();
        }
        total
    };
    let xmas = count_holiday_pixels(12, 24);
    let plain = count_holiday_pixels(6, 14);
    assert!(
        xmas > plain,
        "holiday prop should appear on top (xmas={xmas}, plain={plain})"
    );
}

#[test]
fn day_beat_emits_transition_sound() {
    let arch = full_archive();
    let pal = grey();
    let heard = (0..64u64).any(|seed| {
        let director = Director::new(5, 100);
        let mut show = Show::new(&arch, &pal, 640, 480, director, clock(100, 6, 14), seed);
        (0..4000).any(|_| show.next_frame(&arch).sounds.contains(&0))
    });
    assert!(heard, "expected the day-beat transition sound (0)");
}

#[test]
fn day_advances_and_is_observable_for_persistence() {
    let arch = full_archive();
    let pal = grey();
    let director = Director::new(5, 200);
    let mut show = Show::new(&arch, &pal, 640, 480, director, clock(200, 6, 14), 42);
    assert_eq!(show.day_state(), (5, 200));
    show.set_clock(clock(201, 6, 15));
    for _ in 0..2000 {
        show.next_frame(&arch);
        if show.day_state() == (6, 201) {
            break;
        }
    }
    assert_eq!(show.day_state(), (6, 201));
}

#[test]
fn missing_ads_degrades_to_blank_without_hang() {
    let mut arch = Archive::default();
    arch.screens = (0..3)
        .map(|i| {
            (
                format!("OCEAN0{i}.SCR"),
                Scr {
                    width: 64,
                    height: 64,
                    pixels: vec![3; 64 * 64],
                },
            )
        })
        .collect();
    arch.bitmaps = vec![
        ("BACKGRND.BMP".to_string(), solid_bmp(42, 1)),
        ("MRAFT.BMP".to_string(), solid_bmp(5, 9)),
    ];
    let pal = Palette {
        colors: [[0u8; 3]; 256],
    };
    let director = Director::new(1, 0);
    let c = Clock {
        yday: 0,
        hour: 0,
        month: 1,
        day: 1,
    };
    let mut show = Show::new(&arch, &pal, 64, 64, director, c, 7);
    for _ in 0..10 {
        let f = show.next_frame(&arch);
        assert_eq!(f.surface.width, 64);
    }
}

/// A TTM that draws a single distinctive pixel at `(x, y)`, then yields a frame.
fn marker_ttm(x: u16, y: u16, color: u8) -> Ttm {
    let mut code = Vec::new();
    code.extend_from_slice(&op(0x1111)); // TAG 1
    code.extend_from_slice(&1u16.to_le_bytes());
    code.extend_from_slice(&op(0x1021)); // SET_DELAY 6
    code.extend_from_slice(&6u16.to_le_bytes());
    code.extend_from_slice(&op(0x2002)); // SET_COLOR fg=color bg=color
    code.extend_from_slice(&u16::from(color).to_le_bytes());
    code.extend_from_slice(&u16::from(color).to_le_bytes());
    code.extend_from_slice(&op(0xA002)); // DRAW_PIXEL x y
    code.extend_from_slice(&x.to_le_bytes());
    code.extend_from_slice(&y.to_le_bytes());
    code.extend_from_slice(&op(0x0FF0)); // UPDATE
    Ttm {
        version: "1.20".into(),
        num_pages: 1,
        bytecode: code,
        tags: vec![Tag {
            id: 1,
            description: "s".into(),
        }],
    }
}

#[test]
fn ads_animation_follows_island_drift() {
    const MX: u16 = 320;
    const MY: u16 = 240;
    const MARK: u8 = 0x2A;
    let mut arch = full_archive();
    arch.ttms = vec![("J.TTM".to_string(), marker_ttm(MX, MY, MARK))];
    let pal = grey();
    let mut found_drifted = false;
    'seeds: for seed in 0..128u64 {
        let director = Director::new(5, 100);
        let mut show = Show::new(&arch, &pal, 640, 480, director, clock(100, 6, 14), seed);
        for _ in 0..400 {
            let f = show.next_frame(&arch);
            let Some((dx, dy)) = show.island_offset() else {
                continue;
            };
            let at_offset = f.surface.get(MX as i32 + dx, MY as i32 + dy) == Some(MARK);
            if dx != 0 || dy != 0 {
                if f.surface.get(MX as i32, MY as i32) == Some(MARK) {
                    panic!("ADS sprite drawn at un-offset origin (island offset ignored)");
                }
                if at_offset {
                    found_drifted = true;
                    break 'seeds;
                }
            }
        }
    }
    assert!(
        found_drifted,
        "expected a drifted island scene whose ADS sprite is drawn at the offset"
    );
}

/// FNV-1a hash of a surface's pixels, a cheap frame fingerprint.
fn frame_hash(s: &Surface) -> u64 {
    let mut h = 0xcbf2_9ce4_8422_2325u64;
    for &p in &s.pixels {
        h ^= u64::from(p);
        h = h.wrapping_mul(0x0000_0100_0000_01b3);
    }
    h
}

#[test]
fn engine_run_stays_live_and_paced() {
    let arch = full_archive();
    let pal = grey();
    let mut show = Show::new(&arch, &pal, 640, 480, Director::new(1, 0), clock(0, 6, 14), 9);
    const N: u32 = 4000;
    let mut total_ticks = 0u64;
    let mut all = HashSet::new();
    let mut window = HashSet::new();
    for i in 0..N {
        let f = show.next_frame(&arch);
        assert_eq!(
            (f.surface.width, f.surface.height),
            (640, 480),
            "frame {i} has wrong dimensions"
        );
        total_ticks += u64::from(f.delay_ticks);
        let h = frame_hash(&f.surface);
        all.insert(h);
        window.insert(h);
        if i % 500 == 499 {
            assert!(window.len() >= 2, "run appears frozen near frame {i}");
            window.clear();
        }
    }
    let avg_ms = total_ticks as f64 * MS_PER_TICK as f64 / f64::from(N);
    assert!(avg_ms >= 40.0, "fixture pace too fast: {avg_ms:.0} ms/frame");
    assert!(
        all.len() >= 20,
        "run not animating (only {} distinct frames)",
        all.len()
    );
}

#[test]
fn missing_intro_leaves_the_frames_unchanged() {
    let arch = full_archive();
    let pal = grey();
    let mut a = Show::new(&arch, &pal, 640, 480, Director::new(5, 200), clock(200, 6, 14), 42);
    let mut b = Show::new(&arch, &pal, 640, 480, Director::new(5, 200), clock(200, 6, 14), 42);
    b.enable_intro(&arch);
    for _ in 0..50 {
        let fa = a.next_frame(&arch);
        let fb = b.next_frame(&arch);
        assert_eq!(fa.surface, fb.surface);
        assert_eq!(fa.delay_ticks, fb.delay_ticks);
        assert_eq!(fa.sounds, fb.sounds);
    }
}
