use dmd_render::compose::section_height;
use dmd_render::glyphs::chars_of_str;
use dmd_render::gradient::apply_gradient;
use dmd_render::raster::{copy_image, RasterImage, Rgba8};
use dmd_render::resizefit::resize_image_to_fit;
use dmd_render::textimage::{crop_width_right, split_text};
use dmd_render::TextAlign;

fn px(r: u8, g: u8, b: u8, a: u8) -> Rgba8 {
    Rgba8 { r, g, b, a }
}

#[test]
fn fit_returns_equal_size_unchanged() {
    let mut img = RasterImage::blank(4, 4);
    img.put_px(2, 1, px(10, 20, 30, 40));
    let (out, start, width) = resize_image_to_fit(&img, 4, 4, &TextAlign::RIGHT);
    assert_eq!((out.width, out.height), (4, 4));
    assert_eq!((start, width), (0, 4));
    assert_eq!(out.pixels, img.pixels);
}

#[test]
fn fit_narrow_source_places_by_alignment() {
    // A 2x4 source in a 4x4 box is height-bound: scaled to 2x4.
    let img = RasterImage::blank(2, 4);
    let (_, start, width) = resize_image_to_fit(&img, 4, 4, &TextAlign::CENTER);
    assert_eq!((start, width), (1, 2));
    let (_, start, width) = resize_image_to_fit(&img, 4, 4, &TextAlign::LEFT);
    assert_eq!((start, width), (0, 2));
    let (_, start, width) = resize_image_to_fit(&img, 4, 4, &TextAlign::RIGHT);
    assert_eq!((start, width), (2, 2));
}

#[test]
fn fit_preserves_aspect_within_rounding() {
    // 8x4 into 5x5: width-bound, expected height floor(4*5/8) = 2.
    let img = RasterImage::blank(8, 4);
    let (out, start, width) = resize_image_to_fit(&img, 5, 5, &TextAlign::CENTER);
    assert_eq!((out.width, out.height), (5, 5));
    assert_eq!((start, width), (0, 5));
    // 3x9 into 6x6: height-bound, expected width floor(3*6/9) = 2.
    let img = RasterImage::blank(3, 9);
    let (_, start, width) = resize_image_to_fit(&img, 6, 6, &TextAlign::LEFT);
    assert_eq!((start, width), (0, 2));
}

#[test]
fn copy_image_pastes_with_offsets() {
    let mut src = RasterImage::blank(2, 2);
    src.put_px(0, 0, px(1, 2, 3, 4));
    src.put_px(1, 1, px(5, 6, 7, 8));
    let mut dst = RasterImage::blank(3, 3);
    copy_image(&src, &mut dst, 1, 1);
    assert_eq!(dst.get_px(1, 1), px(1, 2, 3, 4));
    assert_eq!(dst.get_px(2, 2), px(5, 6, 7, 8));
    assert_eq!(dst.get_px(0, 0), px(0, 0, 0, 0));
    // Source pixels falling outside the destination are dropped.
    let mut dst2 = RasterImage::blank(3, 3);
    copy_image(&src, &mut dst2, -1, -1);
    assert_eq!(dst2.get_px(0, 0), px(5, 6, 7, 8));
    assert_eq!(dst2.get_px(1, 1), px(0, 0, 0, 0));
}

#[test]
fn crop_keeps_up_to_last_ink_column() {
    let mut img = RasterImage::blank(5, 2);
    img.put_px(2, 1, px(0, 0, 9, 0));
    let out = crop_width_right(&img);
    assert_eq!((out.width, out.height), (3, 2));
    assert_eq!(out.get_px(2, 1), px(0, 0, 9, 0));
}

#[test]
fn crop_without_ink_returns_whole_raster() {
    // Alpha alone is not ink: only red, green or blue count.
    let mut img = RasterImage::blank(4, 2);
    img.put_px(3, 0, px(0, 0, 0, 255));
    let out = crop_width_right(&img);
    assert_eq!((out.width, out.height), (4, 2));
}

#[test]
fn gradient_recolors_ink_and_keeps_alpha() {
    let mut img = RasterImage::blank(2, 1);
    img.put_px(0, 0, px(200, 0, 0, 100));
    let mut gradient = RasterImage::blank(2, 1);
    gradient.put_px(0, 0, px(9, 8, 7, 255));
    gradient.put_px(1, 0, px(1, 2, 3, 255));
    let out = apply_gradient(&img, &gradient);
    assert_eq!(out.get_px(0, 0), px(9, 8, 7, 100));
    // Background (not ink) comes out fully transparent black.
    assert_eq!(out.get_px(1, 0), px(0, 0, 0, 0));
}

#[test]
fn gradient_maps_transparent_background_to_transparent() {
    // A fully transparent black pixel stays fully transparent whatever
    // the gradient holds there.
    let img = RasterImage::blank(3, 3);
    let mut gradient = RasterImage::blank(3, 3);
    for y in 0..3 {
        for x in 0..3 {
            gradient.put_px(x, y, px(255, 128, 64, 255));
        }
    }
    let out = apply_gradient(&img, &gradient);
    for y in 0..3 {
        for x in 0..3 {
            assert_eq!(out.get_px(x, y), px(0, 0, 0, 0));
        }
    }
}

#[test]
fn gradient_ignores_nearly_opaque_background() {
    // High alpha marks solid background even when colored.
    let mut img = RasterImage::blank(1, 1);
    img.put_px(0, 0, px(200, 200, 200, 250));
    let mut gradient = RasterImage::blank(1, 1);
    gradient.put_px(0, 0, px(9, 8, 7, 255));
    let out = apply_gradient(&img, &gradient);
    assert_eq!(out.get_px(0, 0), px(0, 0, 0, 0));
}

#[test]
fn split_text_on_literal_marker() {
    let chars = chars_of_str("ab\\ncd");
    let lines = split_text(&chars, 0);
    assert_eq!(lines.len(), 2);
    assert_eq!(lines[0], vec!['a', 'b']);
    assert_eq!(lines[1], vec!['c', 'd']);

    let chars = chars_of_str("one");
    let lines = split_text(&chars, 0);
    assert_eq!(lines.len(), 1);
    assert_eq!(lines[0], vec!['o', 'n', 'e']);

    let chars = chars_of_str("\\n");
    let lines = split_text(&chars, 0);
    assert_eq!(lines.len(), 2);
    assert!(lines[0].is_empty());
    assert!(lines[1].is_empty());
}

#[test]
fn section_height_divides_remaining_space() {
    // floor((H - S*(N-1)) / N)
    assert_eq!(section_height(32, 2, 3), (32 - 4) / 3);
    assert_eq!(section_height(32, 0, 1), 32);
    assert_eq!(section_height(64, 5, 2), (64 - 5) / 2);
    // Sections plus spacing never exceed the box.
    let s = section_height(32, 2, 3);
    assert!(3 * s + 2 * 2 <= 32);
}

#[test]
fn font_parse_failure_is_reported() {
    let junk: Vec<u8> = vec![0, 1, 2, 3];
    let r = dmd_render::glyphs::get_text_ratio("hi", &junk, 10);
    assert_eq!(r.unwrap_err(), "Unable to read font");
    let r = dmd_render::compose::generate_text_image("hi", &junk, &None, 128, 32,
        Rgba8 { r: 0, g: 0, b: 0, a: 255 }, Rgba8 { r: 255, g: 0, b: 0, a: 0 },
        &TextAlign::CENTER, 2);
    assert_eq!(r.unwrap_err(), "Unable to read font");
    let r = dmd_render::animate::is_text_to_animate("hi", &junk, 2, 128, 32, false);
    assert_eq!(r.unwrap_err(), "Unable to read font");
}
