use dmd_render::raster::{RasterImage, Rgba8};
use dmd_render::rgb565::{get_dmd_buffer_size, image2dmdimage, rgb888_to_rgb565};
use dmd_render::TextAlign;

fn solid(width: u32, height: u32, r: u8, g: u8, b: u8, a: u8) -> RasterImage {
    let mut img = RasterImage::blank(width, height);
    for y in 0..height {
        for x in 0..width {
            img.put_px(x, y, Rgba8 { r, g, b, a });
        }
    }
    img
}

#[test]
fn rgb565_packs_fields() {
    // 5 bits of red at the top, 6 of green in the middle, 5 of blue below.
    assert_eq!(rgb888_to_rgb565(255, 0, 0), 0xF800);
    assert_eq!(rgb888_to_rgb565(0, 255, 0), 0x07E0);
    assert_eq!(rgb888_to_rgb565(0, 0, 255), 0x001F);
    assert_eq!(rgb888_to_rgb565(0, 0, 0), 0x0000);
    assert_eq!(rgb888_to_rgb565(255, 255, 255), 0xFFFF);
    let v = rgb888_to_rgb565(200, 100, 50);
    assert_eq!(v >> 11, 200 >> 3);
    assert_eq!((v >> 5) & 0x3F, 100 >> 2);
    assert_eq!(v & 0x1F, 50 >> 3);
    assert_eq!(v, (25 << 11) | (25 << 5) | 6);
}

#[test]
fn rgb565_round_trip_error_bounds() {
    for &(r, g, b) in &[(0u8, 0u8, 0u8), (255, 255, 255), (123, 45, 67), (7, 3, 7), (8, 4, 8)] {
        let v = rgb888_to_rgb565(r, g, b);
        let r2 = ((v >> 11) << 3) as u8;
        let g2 = (((v >> 5) & 0x3F) << 2) as u8;
        let b2 = ((v & 0x1F) << 3) as u8;
        assert!(r2 <= r && r - r2 <= 7);
        assert!(g2 <= g && g - g2 <= 3);
        assert!(b2 <= b && b - b2 <= 7);
    }
}

#[test]
fn buffer_size_uses_three_bytes_per_pixel() {
    // The header field keeps the historical x3 formula.
    assert_eq!(get_dmd_buffer_size(128, 32), 128 * 32 * 3);
    assert_eq!(get_dmd_buffer_size(256, 64), 256 * 64 * 3);
}

#[test]
fn encode_output_length_is_two_bytes_per_pixel() {
    for &(sw, sh, dw, dh) in &[(3u32, 5u32, 7u32, 4u32), (1, 1, 128, 32), (10, 10, 10, 10)] {
        let img = solid(sw, sh, 9, 9, 9, 255);
        let frame = image2dmdimage(&img, &TextAlign::CENTER, dw, dh).unwrap();
        assert_eq!(frame.len(), (dw * dh * 2) as usize);
    }
}

#[test]
fn encode_upscales_single_pixel_to_full_frame() {
    // A 1x1 red source fills the whole 2x2 display after resampling.
    let img = solid(1, 1, 255, 0, 0, 255);
    let frame = image2dmdimage(&img, &TextAlign::CENTER, 2, 2).unwrap();
    assert_eq!(frame, vec![0xF8, 0x00, 0xF8, 0x00, 0xF8, 0x00, 0xF8, 0x00]);
}

#[test]
fn encode_same_size_packs_pixels_in_place() {
    let mut img = RasterImage::blank(2, 1);
    img.put_px(0, 0, Rgba8 { r: 255, g: 0, b: 0, a: 255 });
    img.put_px(1, 0, Rgba8 { r: 0, g: 0, b: 255, a: 255 });
    let frame = image2dmdimage(&img, &TextAlign::CENTER, 2, 1).unwrap();
    assert_eq!(frame, vec![0xF8, 0x00, 0x00, 0x1F]);
}

#[test]
fn encode_letterboxes_narrow_source() {
    // A 1x2 white source inside a 4x2 display: scaled to 1x2, centered
    // horizontally per CENTER alignment at column 1, the rest dark.
    let img = solid(1, 2, 255, 255, 255, 255);
    let frame = image2dmdimage(&img, &TextAlign::LEFT, 4, 2).unwrap();
    assert_eq!(frame.len(), 16);
    // LEFT alignment: ink in column 0, all other columns zero.
    assert_eq!(&frame[0..2], &[0xFF, 0xFF]);
    assert_eq!(&frame[2..8], &[0, 0, 0, 0, 0, 0]);
    assert_eq!(&frame[8..10], &[0xFF, 0xFF]);
    assert_eq!(&frame[10..16], &[0, 0, 0, 0, 0, 0]);
}
