use wilson::dgds::archive::Archive;
use wilson::dgds::bmp::{Bmp, BmpImage};
use wilson::dgds::pal::Palette;
use wilson::dgds::scr::Scr;
use wilson::dgds::ttm::{decode_ttm, Ttm, TtmArgs};
use wilson::engine::error::EngineError;
use wilson::engine::surface::TRANSPARENT;
use wilson::engine::ttm_exec::{detect_transparent, TtmSlot};
use wilson::engine::ttm_vm::{TtmStep, TtmVm};

fn palette_with_magenta() -> Palette {
    let mut colors = [[0u8; 3]; 256];
    colors[1] = [10, 20, 30];
    colors[2] = [40, 50, 60];
    colors[3] = [70, 80, 90];
    colors[5] = [168, 0, 168];
    Palette { colors }
}

fn archive_with_sprite_and_bg() -> Archive {
    let bmp = Bmp {
        width: 2,
        height: 2,
        images: vec![BmpImage {
            width: 2,
            height: 2,
            pixels: vec![1, 5, 2, 5],
        }],
    };
    let scr = Scr {
        width: 2,
        height: 2,
        pixels: vec![3, 3, 3, 3],
    };
    let mut a = Archive::default();
    a.bitmaps = vec![("S.BMP".to_string(), bmp)];
    a.screens = vec![("BG.SCR".to_string(), scr)];
    a
}

fn ttm(bytecode: Vec<u8>) -> Ttm {
    Ttm {
        version: "1.20".to_string(),
        num_pages: 1,
        bytecode,
        tags: Vec::new(),
    }
}

fn op(code: u16) -> [u8; 2] {
    code.to_le_bytes()
}

#[test]
fn runs_load_draw_update() {
    let mut code = Vec::new();
    code.extend_from_slice(&op(0xF01F));
    code.extend_from_slice(b"BG.SCR\0\0");
    code.extend_from_slice(&op(0x1051));
    code.extend_from_slice(&0u16.to_le_bytes());
    code.extend_from_slice(&op(0xF02F));
    code.extend_from_slice(b"S.BMP\0");
    code.extend_from_slice(&op(0xA504));
    for v in [0u16, 0, 0, 0] {
        code.extend_from_slice(&v.to_le_bytes());
    }
    code.extend_from_slice(&op(0xC051));
    code.extend_from_slice(&3u16.to_le_bytes());
    code.extend_from_slice(&op(0x0FF0));

    let pal = palette_with_magenta();
    let archive = archive_with_sprite_and_bg();
    let mut vm = TtmVm::new(&ttm(code), 0, &pal, 2, 2).unwrap();

    let step = vm.step(&archive).unwrap();
    assert_eq!(
        step,
        TtmStep::Frame {
            delay_ticks: 4,
            sounds: vec![3]
        }
    );
    assert_eq!(vm.layer().pixels, vec![1, TRANSPARENT, 2, TRANSPARENT]);
    assert_eq!(vm.frame().pixels, vec![1, 3, 2, 3]);
    assert_eq!(vm.step(&archive).unwrap(), TtmStep::Finished);
}

#[test]
fn set_colors_and_rect_and_delay() {
    let mut code = Vec::new();
    code.extend_from_slice(&op(0x1021));
    code.extend_from_slice(&9u16.to_le_bytes());
    code.extend_from_slice(&op(0x2002));
    code.extend_from_slice(&7u16.to_le_bytes());
    code.extend_from_slice(&0u16.to_le_bytes());
    code.extend_from_slice(&op(0xA104));
    for v in [0u16, 0, 2, 1] {
        code.extend_from_slice(&v.to_le_bytes());
    }
    code.extend_from_slice(&op(0x0FF0));

    let pal = palette_with_magenta();
    let archive = Archive::default();
    let mut vm = TtmVm::new(&ttm(code), 0, &pal, 2, 2).unwrap();

    let step = vm.step(&archive).unwrap();
    assert_eq!(
        step,
        TtmStep::Frame {
            delay_ticks: 9,
            sounds: vec![]
        }
    );
    assert_eq!(vm.layer().pixels, vec![7, 7, TRANSPARENT, TRANSPARENT]);
}

#[test]
fn set_delay_and_timer_reset_the_timer() {
    let pal = palette_with_magenta();
    let archive = Archive::default();

    let mut code = Vec::new();
    code.extend_from_slice(&op(0x1021));
    code.extend_from_slice(&10u16.to_le_bytes());
    code.extend_from_slice(&op(0x0FF0));
    let mut vm = TtmVm::new(&ttm(code), 0, &pal, 2, 2).unwrap();
    vm.thread.timer = 4;
    vm.step(&archive).unwrap();
    assert_eq!(vm.thread.delay, 10);
    assert_eq!(vm.thread.timer, 10, "SET_DELAY must reset timer = delay");

    let mut code = Vec::new();
    code.extend_from_slice(&op(0x2022));
    code.extend_from_slice(&8u16.to_le_bytes());
    code.extend_from_slice(&12u16.to_le_bytes());
    code.extend_from_slice(&op(0x0FF0));
    let mut vm = TtmVm::new(&ttm(code), 0, &pal, 2, 2).unwrap();
    vm.thread.timer = 4;
    vm.step(&archive).unwrap();
    assert_eq!(vm.thread.delay, 10);
    assert_eq!(vm.thread.timer, 10, "TIMER must reset timer = delay");
}

#[test]
fn missing_resource_errors() {
    let mut code = Vec::new();
    code.extend_from_slice(&op(0xF01F));
    code.extend_from_slice(b"NOPE.SCR\0\0");
    let pal = palette_with_magenta();
    let archive = Archive::default();
    let mut vm = TtmVm::new(&ttm(code), 0, &pal, 2, 2).unwrap();
    assert_eq!(
        vm.step(&archive),
        Err(EngineError::ResourceNotFound("NOPE.SCR".to_string()))
    );
}

#[test]
fn copy_zone_to_bg_persists_after_clear() {
    let mut code = Vec::new();
    code.extend_from_slice(&op(0x2002));
    for v in [2u16, 0] {
        code.extend_from_slice(&v.to_le_bytes());
    }
    code.extend_from_slice(&op(0xA002));
    for v in [5u16, 5] {
        code.extend_from_slice(&v.to_le_bytes());
    }
    code.extend_from_slice(&op(0x4204));
    for v in [4u16, 4, 4, 4] {
        code.extend_from_slice(&v.to_le_bytes());
    }
    code.extend_from_slice(&op(0xA601));
    code.extend_from_slice(&0u16.to_le_bytes());
    code.extend_from_slice(&op(0x0FF0));

    let pal = palette_with_magenta();
    let archive = Archive::default();
    let mut vm = TtmVm::new(&ttm(code), 0, &pal, 16, 16).unwrap();
    vm.step(&archive).unwrap();
    assert_eq!(vm.layer().get(5, 5), Some(TRANSPARENT));
    assert_eq!(vm.frame().get(5, 5), Some(2));
}

#[test]
fn restore_zone_releases_saved_zones() {
    let mut code = Vec::new();
    code.extend_from_slice(&op(0x2002));
    for v in [2u16, 0] {
        code.extend_from_slice(&v.to_le_bytes());
    }
    code.extend_from_slice(&op(0xA002));
    for v in [5u16, 5] {
        code.extend_from_slice(&v.to_le_bytes());
    }
    code.extend_from_slice(&op(0x4204));
    for v in [4u16, 4, 4, 4] {
        code.extend_from_slice(&v.to_le_bytes());
    }
    code.extend_from_slice(&op(0xA064));
    for v in [0u16, 0, 0, 0] {
        code.extend_from_slice(&v.to_le_bytes());
    }
    code.extend_from_slice(&op(0xA601));
    code.extend_from_slice(&0u16.to_le_bytes());
    code.extend_from_slice(&op(0x0FF0));

    let pal = palette_with_magenta();
    let archive = Archive::default();
    let mut vm = TtmVm::new(&ttm(code), 0, &pal, 16, 16).unwrap();
    vm.step(&archive).unwrap();
    assert_eq!(vm.frame().get(5, 5), Some(0));
}

#[test]
fn decode_ttm_reads_words_and_padded_strings() {
    let mut code = Vec::new();
    code.extend_from_slice(&op(0xF01F));
    code.extend_from_slice(b"AB.SCR\0\0");
    code.extend_from_slice(&op(0x2002));
    code.extend_from_slice(&7u16.to_le_bytes());
    code.extend_from_slice(&0xFFFEu16.to_le_bytes());
    code.extend_from_slice(&op(0x0FF0));
    let ins = decode_ttm(&code).unwrap();
    assert_eq!(ins.len(), 3);
    assert_eq!(ins[0].opcode, 0xF01F);
    assert_eq!(ins[0].args, TtmArgs::Str("AB.SCR".to_string()));
    assert_eq!(ins[1].args, TtmArgs::Words(vec![7, 0xFFFE]));
    assert_eq!(ins[2].args, TtmArgs::Words(vec![]));
}

#[test]
fn decode_ttm_rejects_cut_short_instructions() {
    let mut code = Vec::new();
    code.extend_from_slice(&op(0x2002));
    code.extend_from_slice(&7u16.to_le_bytes());
    assert!(decode_ttm(&code).is_err());
    assert!(decode_ttm(&[0x0F]).is_err());
    assert!(decode_ttm(&[0x1F, 0xF0, b'A', b'B']).is_err());
    assert_eq!(decode_ttm(&[]).unwrap().len(), 0);
}

#[test]
fn slot_tags_map_the_last_entry_point() {
    let mut code = Vec::new();
    code.extend_from_slice(&op(0x1111));
    code.extend_from_slice(&4u16.to_le_bytes());
    code.extend_from_slice(&op(0x0FF0));
    code.extend_from_slice(&op(0x1101));
    code.extend_from_slice(&4u16.to_le_bytes());
    let slot = TtmSlot::load(&ttm(code)).unwrap();
    assert_eq!(slot.find_tag(4), 2);
    assert_eq!(slot.find_tag(9), 0);
}

#[test]
fn transparent_key_is_the_first_magenta() {
    assert_eq!(detect_transparent(&palette_with_magenta()), Some(5));
    let plain = Palette { colors: [[0u8; 3]; 256] };
    assert_eq!(detect_transparent(&plain), None);
}

#[test]
fn purge_ends_a_thread_without_budget() {
    let mut code = Vec::new();
    code.extend_from_slice(&op(0x1111));
    code.extend_from_slice(&1u16.to_le_bytes());
    code.extend_from_slice(&op(0x0110));
    let pal = palette_with_magenta();
    let archive = Archive::default();
    let mut vm = TtmVm::new(&ttm(code), 1, &pal, 2, 2).unwrap();
    assert_eq!(vm.step(&archive).unwrap(), TtmStep::Finished);
    assert_eq!(vm.thread.running, 2);
    vm.thread.running = 1;
    vm.thread.scene_timer = 5;
    vm.thread.ip = 0;
    assert_eq!(
        vm.step(&archive).unwrap(),
        TtmStep::Frame {
            delay_ticks: 4,
            sounds: vec![]
        }
    );
    assert_eq!(vm.thread.next_goto, Some(0));
}
