use noto_sans_mono_bitmap::{get_raster, FontWeight, RasterHeight};
use ros_kernel::framebuffer::{color_bytes, write_pixel, FbInfo, PixelLayout, Writer};

fn info(width: usize, height: usize, format: PixelLayout, bpp: usize) -> FbInfo {
    FbInfo { byte_len: width * height * bpp, width, height, format, bytes_per_pixel: bpp, stride: width }
}

fn glyph(c: char) -> Vec<Vec<u8>> {
    let g = get_raster(c, FontWeight::Regular, RasterHeight::Size16).unwrap();
    g.raster().iter().map(|r| r.to_vec()).collect()
}

/// The framebuffer a glyph drawn at (x0, y0) on a blank screen gives.
fn expected(inf: &FbInfo, rows: &[Vec<u8>], x0: usize, y0: usize) -> Vec<u8> {
    let mut fb = vec![0u8; inf.byte_len];
    for (y, row) in rows.iter().enumerate() {
        for (x, v) in row.iter().enumerate() {
            let off = ((y0 + y) * inf.stride + x0 + x) * inf.bytes_per_pixel;
            let c = color_bytes(inf.format, *v);
            fb[off..off + inf.bytes_per_pixel].copy_from_slice(&c[..inf.bytes_per_pixel]);
        }
    }
    fb
}

#[test]
fn framebuffer_new_clears_and_homes() {
    let inf = info(40, 40, PixelLayout::Rgb, 4);
    let mut fb = vec![7u8; inf.byte_len];
    let w = Writer::new(&mut fb, inf);
    assert!(fb.iter().all(|b| *b == 0));
    assert_eq!((w.x_pos(), w.y_pos()), (1, 1));
    assert_eq!((w.width(), w.height()), (40, 40));
}

#[test]
fn framebuffer_draws_a_character_at_the_cursor() {
    let inf = info(40, 40, PixelLayout::Bgr, 4);
    let mut fb = vec![0u8; inf.byte_len];
    let mut w = Writer::new(&mut fb, inf);
    assert!(w.can_write(fb.len(), 'A'));
    w.write_char(&mut fb, 'A');
    assert_eq!(fb, expected(&inf, &glyph('A'), 1, 1));
    assert_eq!((w.x_pos(), w.y_pos()), (8, 1));
}

#[test]
fn framebuffer_missing_glyph_uses_replacement() {
    let inf = info(40, 40, PixelLayout::Other, 4);
    let mut fb = vec![0u8; inf.byte_len];
    let mut w = Writer::new(&mut fb, inf);
    w.write_char(&mut fb, 'é');
    assert_eq!(fb, expected(&inf, &glyph('\u{fffd}'), 1, 1));
}

#[test]
fn framebuffer_newline_wraps_and_clears() {
    let inf = info(20, 40, PixelLayout::U8, 1);
    let mut fb = vec![0u8; inf.byte_len];
    let mut w = Writer::new(&mut fb, inf);
    w.write_char(&mut fb, 'a');
    w.write_char(&mut fb, '\r');
    assert_eq!((w.x_pos(), w.y_pos()), (1, 1));
    w.write_char(&mut fb, '\n');
    assert_eq!((w.x_pos(), w.y_pos()), (1, 19));
    // 19 + 16 + 1 >= 40 is false: drawn on the second line
    w.write_char(&mut fb, 'b');
    assert_eq!((w.x_pos(), w.y_pos()), (8, 19));
    // 8 + 7 < 20: same line
    w.write_char(&mut fb, 'c');
    assert_eq!((w.x_pos(), w.y_pos()), (15, 19));
    // 15 + 7 >= 20: next line at 37, and 37 + 17 >= 40: the screen is cleared
    w.write_char(&mut fb, 'd');
    assert_eq!((w.x_pos(), w.y_pos()), (8, 1));
    assert_eq!(fb, expected(&inf, &glyph('d'), 1, 1));
}

#[test]
fn framebuffer_pixel_formats() {
    assert_eq!(color_bytes(PixelLayout::Rgb, 200), [200, 200, 100, 0]);
    assert_eq!(color_bytes(PixelLayout::Bgr, 201), [100, 201, 201, 0]);
    assert_eq!(color_bytes(PixelLayout::U8, 201), [0xf, 0, 0, 0]);
    assert_eq!(color_bytes(PixelLayout::U8, 200), [0, 0, 0, 0]);
    assert_eq!(color_bytes(PixelLayout::Other, 9), [9, 9, 9, 9]);
    let inf = FbInfo { byte_len: 24, width: 2, height: 2, format: PixelLayout::Rgb, bytes_per_pixel: 3, stride: 4 };
    let mut fb = vec![0u8; 24];
    write_pixel(&mut fb, &inf, 1, 1, 10);
    assert_eq!(&fb[15..18], &[10, 10, 5]);
    assert_eq!(fb.iter().filter(|b| **b != 0).count(), 3);
}

#[test]
fn framebuffer_refuses_writes_past_the_buffer() {
    let inf = info(40, 40, PixelLayout::Rgb, 4);
    let mut fb = vec![0u8; inf.byte_len];
    let w = Writer::new(&mut fb, inf);
    assert!(w.can_write(fb.len(), 'x'));
    assert!(!w.can_write(100, 'x'));
    assert!(w.can_write(0, '\n'));
    assert!(w.can_write(0, '\r'));
    let wide = FbInfo { bytes_per_pixel: 5, ..inf };
    let w = Writer::new(&mut fb, wide);
    assert!(!w.can_write(fb.len(), 'x'));
}
