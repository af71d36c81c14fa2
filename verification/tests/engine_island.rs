use wilson::dgds::archive::Archive;
use wilson::dgds::bmp::{Bmp, BmpImage};
use wilson::dgds::pal::Palette;
use wilson::dgds::scr::Scr;
use wilson::engine::error::EngineError;
use wilson::engine::island::Island;
use wilson::engine::rng::Rng;
use wilson::engine::story::{Holiday, IslandState};
use wilson::engine::surface::TRANSPARENT;

fn solid_bmp(count: usize, value: u8) -> Bmp {
    Bmp {
        width: 2,
        height: 2,
        images: (0..count)
            .map(|_| BmpImage {
                width: 2,
                height: 2,
                pixels: vec![value; 4],
            })
            .collect(),
    }
}

fn archive() -> Archive {
    let island_sheet = {
        let mut b = solid_bmp(42, 1);
        b.images[0] = BmpImage {
            width: 2,
            height: 2,
            pixels: vec![7; 4],
        };
        b
    };
    let mut a = Archive::default();
    a.bitmaps = vec![
        ("BACKGRND.BMP".to_string(), island_sheet),
        ("MRAFT.BMP".to_string(), solid_bmp(5, 9)),
        ("HOLIDAY.BMP".to_string(), solid_bmp(4, 5)),
    ];
    a.screens = (0..3)
        .map(|i| {
            (
                format!("OCEAN0{i}.SCR"),
                Scr {
                    width: 640,
                    height: 480,
                    pixels: vec![3; 640 * 480],
                },
            )
        })
        .collect();
    a
}

fn state(low_tide: bool, raft: u8, holiday: Holiday) -> IslandState {
    IslandState {
        low_tide,
        night: false,
        raft,
        holiday,
        x_pos: 0,
        y_pos: 0,
    }
}

fn black() -> Palette {
    Palette {
        colors: [[0u8; 3]; 256],
    }
}

#[test]
fn builds_background_with_island_and_raft() {
    let arch = archive();
    let pal = black();
    let mut rng = Rng::new(5);
    let isl = Island::build(&arch, &state(false, 5, Holiday::NoHoliday), &pal, 640, 480, &mut rng)
        .unwrap();
    let bg = isl.background();
    assert_eq!(bg.get(600, 400), Some(3));
    assert_eq!(bg.get(288, 279), Some(7));
    assert_eq!(bg.get(512, 266), Some(9));
    assert!(isl.holiday_layer().is_none());
}

#[test]
fn low_tide_and_animation_do_not_panic() {
    let arch = archive();
    let pal = black();
    let mut rng = Rng::new(9);
    let mut isl =
        Island::build(&arch, &state(true, 3, Holiday::NoHoliday), &pal, 640, 480, &mut rng)
            .unwrap();
    for _ in 0..30 {
        isl.animate_waves();
    }
}

#[test]
fn holiday_layer_present() {
    let arch = archive();
    let pal = black();
    let mut rng = Rng::new(1);
    let isl = Island::build(&arch, &state(false, 1, Holiday::Christmas), &pal, 640, 480, &mut rng)
        .unwrap();
    let layer = isl.holiday_layer().expect("holiday layer");
    assert_eq!(layer.get(404, 267), Some(5));
    assert_eq!(layer.get(0, 0), Some(TRANSPARENT));
}

#[test]
fn night_scene_needs_the_night_screen() {
    let arch = archive();
    let pal = black();
    let mut rng = Rng::new(1);
    let mut st = state(false, 1, Holiday::NoHoliday);
    st.night = true;
    let err = Island::build(&arch, &st, &pal, 640, 480, &mut rng).unwrap_err();
    assert_eq!(err, EngineError::ResourceNotFound("NIGHT.SCR".to_string()));
}

#[test]
fn island_offset_moves_the_scenery() {
    let arch = archive();
    let pal = black();
    let mut rng = Rng::new(2);
    let mut st = state(false, 0, Holiday::NoHoliday);
    st.x_pos = -100;
    st.y_pos = 10;
    let isl = Island::build(&arch, &st, &pal, 640, 480, &mut rng).unwrap();
    assert_eq!(isl.offset(), (-100, 10));
    assert_eq!(isl.background().get(188, 289), Some(7));
}
