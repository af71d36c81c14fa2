use wilson::dgds::installer::{decompress_installer, explode, is_installer_compressed, litlen, Huff};
use wilson::dgds::pal::Palette;
use wilson::engine::rng::Rng;
use wilson::engine::surface::{Rect, Surface, TRANSPARENT};
use wilson::MS_PER_TICK;

#[test]
fn rejects_non_installer_bytes() {
    assert!(decompress_installer(&[0u8; 64]).is_none());
    assert!(!is_installer_compressed(b"PK\x03\x04"));
    assert!(is_installer_compressed(&[0x65, 0x5d, 0x13, 0x8c, 0, 0]));
}

#[test]
fn huff_table_builds() {
    let h = Huff::new(&litlen());
    assert_eq!(h.symbol.len(), 256);
}

#[test]
fn explode_rejects_bad_headers() {
    assert!(explode(&[]).is_none());
    assert!(explode(&[0]).is_none());
    assert!(explode(&[2, 6, 0xff]).is_none());
    assert!(explode(&[0, 3, 0xff]).is_none());
    assert!(explode(&[0, 7, 0xff]).is_none());
}

#[test]
fn explode_rejects_a_stream_without_an_end_marker() {
    // A valid header followed by two uncoded literals and nothing else.
    assert!(explode(&[0, 4]).is_none());
    assert!(explode(&[0, 4, 0xd0, 0xd2, 0x00]).is_none());
}

#[test]
fn installer_header_is_checked_before_the_payload() {
    let mut buf = vec![0u8; 40];
    buf[0..4].copy_from_slice(&[0x65, 0x5d, 0x13, 0x8c]);
    buf[28] = 200; // the stored name runs past the end
    assert!(decompress_installer(&buf).is_none());
    buf[28] = 0;
    buf[30] = 3; // payload header: literal flag 3 is invalid
    buf[31] = 4;
    buf[14] = 10;
    assert!(decompress_installer(&buf).is_none());
}

#[test]
fn deterministic() {
    let mut a = Rng::new(42);
    let mut b = Rng::new(42);
    for _ in 0..1000 {
        assert_eq!(a.next_u32(), b.next_u32());
    }
}

#[test]
fn bounded() {
    let mut r = Rng::new(7);
    for _ in 0..1000 {
        assert!(r.below(7) < 7);
    }
    assert_eq!(r.below(0), 0);
}

#[test]
fn small_seeds_give_a_varied_first_draw() {
    let firsts: std::collections::HashSet<u32> =
        (0..64u64).map(|s| Rng::new(s).next_u32()).collect();
    assert!(
        firsts.len() > 50,
        "first draws not varied: {} distinct",
        firsts.len()
    );
    assert!(firsts.iter().any(|&v| v != 0), "first draw is always 0");
}

#[test]
fn tick_is_16ms_the_original_rate() {
    assert_eq!(MS_PER_TICK, 16);
}

#[test]
fn put_and_get_bounds() {
    let mut s = Surface::new(3, 2, 0);
    s.put_pixel(1, 1, 7);
    assert_eq!(s.get(1, 1), Some(7));
    s.put_pixel(-1, 0, 9);
    s.put_pixel(3, 0, 9);
    assert_eq!(s.get(3, 0), None);
    assert_eq!(s.pixels, vec![0, 0, 0, 0, 7, 0]);
}

#[test]
fn fill_rect_with_clip() {
    let mut s = Surface::new(4, 4, 0);
    let clip = Rect {
        x: 1,
        y: 1,
        w: 2,
        h: 2,
    };
    s.fill_rect(0, 0, 4, 4, 5, Some(clip));
    assert_eq!(s.get(0, 0), Some(0));
    assert_eq!(s.get(1, 1), Some(5));
    assert_eq!(s.get(2, 2), Some(5));
    assert_eq!(s.get(3, 3), Some(0));
}

#[test]
fn blit_with_transparency_and_flip() {
    let mut s = Surface::new(4, 2, 0);
    let sprite = [1u8, TRANSPARENT, 2, 3];
    s.blit(2, 2, &sprite, 0, 0, Some(TRANSPARENT), false, None);
    assert_eq!(s.get(0, 0), Some(1));
    assert_eq!(s.get(1, 0), Some(0));
    assert_eq!(s.get(0, 1), Some(2));
    assert_eq!(s.get(1, 1), Some(3));

    let mut f = Surface::new(2, 2, 0);
    f.blit(2, 2, &sprite, 0, 0, Some(TRANSPARENT), true, None);
    assert_eq!(f.get(0, 0), Some(0));
    assert_eq!(f.get(1, 0), Some(1));
    assert_eq!(f.get(0, 1), Some(3));
    assert_eq!(f.get(1, 1), Some(2));
}

#[test]
fn compose_over_layers() {
    let bg = Surface::new(2, 1, 9);
    let mut top = Surface::new(2, 1, TRANSPARENT);
    top.put_pixel(0, 0, 4);
    let out = bg.compose_over(&top);
    assert_eq!(out.pixels, vec![4, 9]);
}

#[test]
fn to_rgba_uses_palette_and_transparency() {
    let mut colors = [[0u8; 3]; 256];
    colors[1] = [10, 20, 30];
    let pal = Palette { colors };
    let mut s = Surface::new(2, 1, 1);
    s.put_pixel(1, 0, TRANSPARENT);
    assert_eq!(s.to_rgba(&pal), vec![10, 20, 30, 255, 0, 0, 0, 0]);
}

#[test]
fn draw_line_horizontal() {
    let mut s = Surface::new(5, 1, 0);
    s.draw_line(0, 0, 4, 0, 7);
    assert_eq!(s.pixels, vec![7, 7, 7, 7, 0]);
}

#[test]
fn rect_contains_is_half_open() {
    let r = Rect {
        x: 1,
        y: 1,
        w: 2,
        h: 2,
    };
    assert!(r.contains(1, 1));
    assert!(r.contains(2, 2));
    assert!(!r.contains(3, 1));
    assert!(!r.contains(0, 1));
}

#[test]
fn blit_zone_copies_only_opaque_pixels_inside_the_zone() {
    let mut src = Surface::new(3, 1, TRANSPARENT);
    src.put_pixel(0, 0, 4);
    src.put_pixel(2, 0, 6);
    let mut dst = Surface::new(3, 1, 1);
    dst.blit_zone(&src, 0, 0, 2, 1);
    assert_eq!(dst.pixels, vec![4, 1, 1]);
}

#[test]
fn circle_only_paints_its_box_in_its_two_colours() {
    let mut s = Surface::new(40, 30, 2);
    s.draw_circle(10, 5, 12, 12, 7, 9);
    let mut fg = 0;
    let mut bg = 0;
    for y in 0..30 {
        for x in 0..40 {
            let p = s.get(x, y).unwrap();
            if p != 2 {
                assert!((10..22).contains(&x) && (5..17).contains(&y), "pixel ({x}, {y}) outside the box");
                assert!(p == 7 || p == 9);
            }
            if p == 7 {
                fg += 1;
            }
            if p == 9 {
                bg += 1;
            }
        }
    }
    assert!(fg > 0 && bg > 0);
    // An odd or non-square box draws nothing.
    let mut t = Surface::new(40, 30, 2);
    t.draw_circle(10, 5, 11, 11, 7, 9);
    t.draw_circle(10, 5, 12, 10, 7, 9);
    assert!(t.pixels.iter().all(|&p| p == 2));
}
