use wilson::dgds::ads::{ads_arg_count, decode_ads, Ads, AdsRes};
use wilson::dgds::archive::Archive;
use wilson::dgds::bmp::{Bmp, BmpImage};
use wilson::dgds::pal::Palette;
use wilson::dgds::scr::Scr;
use wilson::dgds::ttm::Ttm;
use wilson::engine::ads_vm::{AdsVm, MAX_TTM_THREADS};
use wilson::engine::error::EngineError;

fn palette() -> Palette {
    let mut colors = [[0u8; 3]; 256];
    colors[5] = [168, 0, 168];
    Palette { colors }
}

fn op(code: u16) -> [u8; 2] {
    code.to_le_bytes()
}

fn anim_ttm() -> Ttm {
    let mut code = Vec::new();
    code.extend_from_slice(&op(0x1111));
    code.extend_from_slice(&1u16.to_le_bytes());
    code.extend_from_slice(&op(0xF01F));
    code.extend_from_slice(b"BG.SCR\0\0");
    code.extend_from_slice(&op(0x1051));
    code.extend_from_slice(&0u16.to_le_bytes());
    code.extend_from_slice(&op(0xF02F));
    code.extend_from_slice(b"S.BMP\0");
    code.extend_from_slice(&op(0xA504));
    for v in [0u16, 0, 0, 0] {
        code.extend_from_slice(&v.to_le_bytes());
    }
    code.extend_from_slice(&op(0x0FF0));
    Ttm {
        version: "1.20".to_string(),
        num_pages: 1,
        bytecode: code,
        tags: Vec::new(),
    }
}

fn archive() -> Archive {
    let mut a = Archive::default();
    a.bitmaps = vec![(
        "S.BMP".to_string(),
        Bmp {
            width: 2,
            height: 2,
            images: vec![BmpImage {
                width: 2,
                height: 2,
                pixels: vec![1, 5, 2, 5],
            }],
        },
    )];
    a.screens = vec![(
        "BG.SCR".to_string(),
        Scr {
            width: 2,
            height: 2,
            pixels: vec![3, 3, 3, 3],
        },
    )];
    a.ttms = vec![("A.TTM".to_string(), anim_ttm())];
    a
}

fn ads(bytecode: Vec<u8>) -> Ads {
    Ads {
        version: "1.20".to_string(),
        resources: vec![AdsRes {
            id: 1,
            name: "A.TTM".to_string(),
        }],
        bytecode,
        tags: Vec::new(),
    }
}

#[test]
fn plays_single_scene() {
    let mut code = Vec::new();
    code.extend_from_slice(&op(0x0001));
    code.extend_from_slice(&op(0x2005));
    for v in [1u16, 1, 0, 0] {
        code.extend_from_slice(&v.to_le_bytes());
    }
    code.extend_from_slice(&op(0x1510));
    code.extend_from_slice(&op(0xFFFF));

    let arch = archive();
    let pal = palette();
    let mut vm = AdsVm::new(&ads(code), 1, &arch, &pal, 2, 2, 12345).unwrap();
    assert_eq!(vm.active_threads(), 1);

    let frame = vm.next_frame(&arch).unwrap().expect("a frame");
    assert_eq!(frame.surface.pixels, vec![1, 3, 2, 3]);
    assert_eq!(frame.delay_ticks, 4);

    let mut guard = 0;
    while vm.next_frame(&arch).unwrap().is_some() {
        guard += 1;
        assert!(guard < 100, "scene did not terminate");
    }
    assert_eq!(vm.active_threads(), 0);
}

#[test]
fn random_block_picks_one_scene() {
    let mut code = Vec::new();
    code.extend_from_slice(&op(0x0001));
    code.extend_from_slice(&op(0x3010));
    code.extend_from_slice(&op(0x2005));
    for v in [1u16, 1, 0, 1] {
        code.extend_from_slice(&v.to_le_bytes());
    }
    code.extend_from_slice(&op(0x2005));
    for v in [1u16, 2, 0, 1] {
        code.extend_from_slice(&v.to_le_bytes());
    }
    code.extend_from_slice(&op(0x30FF));
    code.extend_from_slice(&op(0x1510));

    let arch = archive();
    let pal = palette();
    let vm = AdsVm::new(&ads(code), 1, &arch, &pal, 2, 2, 999).unwrap();
    assert_eq!(vm.active_threads(), 1);
}

#[test]
fn missing_ttm_is_reported() {
    let mut code = Vec::new();
    code.extend_from_slice(&op(0x0001));
    let arch = Archive::default();
    let pal = palette();
    let err = AdsVm::new(&ads(code), 1, &arch, &pal, 2, 2, 1).unwrap_err();
    assert_eq!(err, EngineError::ResourceNotFound("A.TTM".to_string()));
    assert_eq!(err.message(), "resource not found: A.TTM");
}

#[test]
fn empty_scene_yields_no_frame() {
    let mut code = Vec::new();
    code.extend_from_slice(&op(0x0001));
    code.extend_from_slice(&op(0x1510));
    let arch = archive();
    let pal = palette();
    let mut vm = AdsVm::new(&ads(code), 1, &arch, &pal, 2, 2, 1).unwrap();
    assert_eq!(vm.active_threads(), 0);
    assert!(vm.next_frame(&arch).unwrap().is_none());
}

#[test]
fn never_more_threads_than_the_table_holds() {
    let mut code = Vec::new();
    code.extend_from_slice(&op(0x0001));
    for tag in 1u16..=14 {
        code.extend_from_slice(&op(0x2005));
        for v in [1u16, tag, 0, 0] {
            code.extend_from_slice(&v.to_le_bytes());
        }
    }
    code.extend_from_slice(&op(0x1510));
    let arch = archive();
    let pal = palette();
    let vm = AdsVm::new(&ads(code), 1, &arch, &pal, 2, 2, 1).unwrap();
    assert_eq!(vm.active_threads(), MAX_TTM_THREADS);
}

#[test]
fn decode_ads_reads_tags_and_fixed_arguments() {
    let mut code = Vec::new();
    code.extend_from_slice(&op(0x0003));
    code.extend_from_slice(&op(0x2005));
    for v in [1u16, 2, 3, 4] {
        code.extend_from_slice(&v.to_le_bytes());
    }
    code.extend_from_slice(&op(0xFFFF));
    let ins = decode_ads(&code).unwrap();
    assert_eq!(ins.len(), 3);
    assert!(ins[0].is_tag());
    assert_eq!(ins[1].args, vec![1, 2, 3, 4]);
    assert!(!ins[2].is_tag());
    assert!(decode_ads(&op(0x7777)).is_err());
    assert!(decode_ads(&[0x05, 0x20, 1, 0]).is_err());
    assert_eq!(ads_arg_count(0x1520), Some(5));
    assert_eq!(ads_arg_count(0x1234), None);
}
