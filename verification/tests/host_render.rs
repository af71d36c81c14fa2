use wilson::engine::upscale::{dedither, xbr2x};
use wilson::host::font::{draw_text, fill_rect, line_height, text_width};
use wilson::host::scale::scale_rgba_to_argb_fit;

#[test]
fn draws_within_bounds_and_sets_pixels() {
    let (dw, dh) = (80usize, 16usize);
    let mut buf = vec![0u32; dw * dh];
    draw_text(&mut buf, dw, dh, 1, 1, "AB12", 1, 0x00FF_FFFF);
    assert!(buf.contains(&0x00FF_FFFF));
    draw_text(&mut buf, dw, dh, dw - 2, dh - 2, "WW", 3, 0x00FF_FFFF);
}

#[test]
fn unknown_chars_are_blank() {
    let (dw, dh) = (24usize, 8usize);
    let mut buf = vec![0u32; dw * dh];
    draw_text(&mut buf, dw, dh, 0, 0, "~~", 1, 0x00FF_FFFF);
    assert!(buf.iter().all(|&p| p == 0), "unknown glyphs must be blank");
}

#[test]
fn glyph_pixels_land_where_the_bits_are() {
    let (dw, dh) = (12usize, 8usize);
    let mut buf = vec![0u32; dw * dh];
    // '1' row 0 is 0b00100: only column 2 is lit; row 6 is 0b01110.
    draw_text(&mut buf, dw, dh, 0, 0, "1", 1, 7);
    assert_eq!(buf[2], 7);
    assert_eq!(buf[0], 0);
    assert_eq!(buf[1], 0);
    assert_eq!(buf[3], 0);
    assert_eq!(buf[6 * dw + 1], 7);
    assert_eq!(buf[6 * dw + 3], 7);
    assert_eq!(buf[6 * dw], 0);
}

#[test]
fn lower_case_is_drawn_upper_case_and_scaled() {
    let (dw, dh) = (16usize, 16usize);
    let mut a = vec![0u32; dw * dh];
    let mut b = vec![0u32; dw * dh];
    draw_text(&mut a, dw, dh, 1, 1, "e", 2, 9);
    draw_text(&mut b, dw, dh, 1, 1, "E", 2, 9);
    assert_eq!(a, b);
    // 'E' row 0 is 0b11111 at scale 2: a 10×2 bar from (1,1).
    for y in 1..3 {
        for x in 1..11 {
            assert_eq!(a[y * dw + x], 9);
        }
    }
    assert_eq!(a[dw + 11], 0);
}

#[test]
fn text_metrics() {
    assert_eq!(text_width("AB12", 2), 48);
    assert_eq!(text_width("", 3), 0);
    assert_eq!(line_height(2), 14);
}

#[test]
fn fill_rect_is_clipped() {
    let (dw, dh) = (4usize, 3usize);
    let mut buf = vec![1u32; dw * dh];
    fill_rect(&mut buf, dw, dh, 2, 1, 10, 10, 5);
    assert_eq!(buf, vec![1, 1, 1, 1, 1, 1, 5, 5, 1, 1, 5, 5]);
}

#[test]
fn fit_exact_aspect_fills_fully() {
    let src = [255u8, 0, 0, 255];
    let mut dst = [0u32; 9];
    scale_rgba_to_argb_fit(&src, 1, 1, &mut dst, 3, 3);
    assert!(dst.iter().all(|&p| p == 0x00FF_0000));
}

#[test]
fn fit_letterboxes_wide_target() {
    let src = [
        255, 0, 0, 255, 0, 255, 0, 255, //
        0, 0, 255, 255, 255, 255, 0, 255,
    ];
    let mut dst = [123u32; 12];
    scale_rgba_to_argb_fit(&src, 2, 2, &mut dst, 6, 2);
    assert_eq!(dst[0], 0);
    assert_eq!(dst[1], 0);
    assert_eq!(dst[2], 0x00FF_0000);
    assert_eq!(dst[3], 0x0000_FF00);
    assert_eq!(dst[4], 0);
    assert_eq!(dst[5], 0);
    assert_eq!(dst[8], 0x0000_00FF);
    assert_eq!(dst[9], 0x00FF_FF00);
}

#[test]
fn zero_dims_are_safe() {
    let src = [0u8; 4];
    let mut dst = [0u32; 0];
    scale_rgba_to_argb_fit(&src, 1, 1, &mut dst, 0, 0);
}

#[test]
fn fit_letterboxes_tall_target() {
    // 1x1 white into 2x4: a 2x2 square centred vertically (oy = 1).
    let src = [255u8, 255, 255, 255];
    let mut dst = [7u32; 8];
    scale_rgba_to_argb_fit(&src, 1, 1, &mut dst, 2, 4);
    assert_eq!(dst, [0, 0, 0x00FF_FFFF, 0x00FF_FFFF, 0x00FF_FFFF, 0x00FF_FFFF, 0, 0]);
}

#[test]
fn upscale_doubles_the_dimensions() {
    let src = vec![0u8; 3 * 2 * 4];
    let out = xbr2x(&src, 3, 2);
    assert_eq!(out.len(), 6 * 4 * 4);
}

#[test]
fn upscale_flat_image_is_unchanged() {
    let mut src = Vec::new();
    for _ in 0..(4 * 4) {
        src.extend_from_slice(&[40, 80, 120, 255]);
    }
    let out = xbr2x(&src, 4, 4);
    assert!(out.chunks_exact(4).all(|p| p == [40, 80, 120, 255]));
}

#[test]
fn upscale_straight_edge_stays_hard() {
    let a = [10u8, 10, 200];
    let b = [220u8, 30, 30];
    let (w, h) = (6usize, 6usize);
    let mut src = Vec::new();
    for _y in 0..h {
        for x in 0..w {
            let c = if x < w / 2 { a } else { b };
            src.extend_from_slice(&[c[0], c[1], c[2], 255]);
        }
    }
    let out = xbr2x(&src, w, h);
    assert!(
        out.chunks_exact(4).all(|p| p[0..3] == a || p[0..3] == b),
        "a straight edge must stay hard (no blended colours)"
    );
}

#[test]
fn upscale_diagonal_edge_is_antialiased() {
    let (w, h) = (8usize, 8usize);
    let mut src = Vec::new();
    for y in 0..h {
        for x in 0..w {
            let c = if x as i32 > y as i32 { 255u8 } else { 0u8 };
            src.extend_from_slice(&[c, c, c, 255]);
        }
    }
    let out = xbr2x(&src, w, h);
    let has_grey = out
        .chunks_exact(4)
        .any(|p| (1..=254).contains(&p[0]) && p[0] == p[1] && p[1] == p[2]);
    assert!(has_grey, "xBR must anti-alias the diagonal into grey midtones");
}

#[test]
fn upscale_output_is_fully_opaque() {
    let mut src = Vec::new();
    for i in 0..(5 * 5) {
        let v = (i * 9) as u8;
        src.extend_from_slice(&[v, 255 - v, v / 2, 200]);
    }
    let out = xbr2x(&src, 5, 5);
    assert!(out.chunks_exact(4).all(|p| p[3] == 255));
}

#[test]
fn upscale_of_nothing_is_empty() {
    assert!(xbr2x(&[], 0, 7).is_empty());
    assert!(xbr2x(&[], 3, 0).is_empty());
}

#[test]
fn upscale_single_pixel_repeats_it() {
    let out = xbr2x(&[9, 8, 7, 0], 1, 1);
    assert_eq!(out, vec![9, 8, 7, 255, 9, 8, 7, 255, 9, 8, 7, 255, 9, 8, 7, 255]);
}

#[test]
fn dedither_leaves_flat_areas_untouched() {
    let mut src = Vec::new();
    for _ in 0..16 {
        src.extend_from_slice(&[40, 80, 120, 255]);
    }
    let out = dedither(&src, 4, 4);
    assert!(out.chunks_exact(4).all(|p| p == [40, 80, 120, 255]));
}

#[test]
fn dedither_smooths_a_dither_checkerboard() {
    let a = [0u8, 0, 255, 255];
    let b = [120u8, 160, 255, 255];
    let mut src = Vec::new();
    for y in 0..6 {
        for x in 0..6 {
            src.extend_from_slice(if (x + y) % 2 == 0 { &a } else { &b });
        }
    }
    let out = dedither(&src, 6, 6);
    let i = (3 * 6 + 3) * 4;
    assert_eq!(
        &out[i..i + 3],
        &[60, 80, 255],
        "checkerboard should collapse to the blended mid-tone"
    );
}

#[test]
fn dedither_preserves_a_hard_edge() {
    let blk = [0u8, 0, 0, 255];
    let wht = [255u8, 255, 255, 255];
    let mut src = Vec::new();
    for _y in 0..4 {
        for x in 0..4 {
            src.extend_from_slice(if x < 2 { &blk } else { &wht });
        }
    }
    let out = dedither(&src, 4, 4);
    assert!(
        out.chunks_exact(4).all(|p| p == blk || p == wht),
        "a hard edge must stay hard (no grey bleed)"
    );
}

#[test]
fn dedither_keeps_trailing_bytes_and_alpha() {
    let a = [0u8, 0, 255, 17];
    let b = [120u8, 160, 255, 17];
    let mut src = Vec::new();
    for y in 0..3 {
        for x in 0..3 {
            src.extend_from_slice(if (x + y) % 2 == 0 { &a } else { &b });
        }
    }
    src.extend_from_slice(&[1, 2, 3]);
    let out = dedither(&src, 3, 3);
    assert_eq!(out.len(), src.len());
    assert_eq!(&out[36..], &[1, 2, 3]);
    let i = (1 * 3 + 1) * 4;
    assert_eq!(&out[i..i + 4], &[60, 80, 255, 17]);
}
