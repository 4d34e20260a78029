use dmd_render::animate::is_text_to_animate;
use dmd_render::compose::generate_text_image;
use dmd_render::glyphs::get_text_ratio;
use dmd_render::raster::Rgba8;
use dmd_render::TextAlign;

/// A tiny three-glyph font, built table by table for these tests: 'A' and
/// 'B' are both 600-unit squares with an 800-unit advance and zero side
/// bearing, in a 1000-unit em with ascent 800 and descent -200. At a scale
/// of s pixels the advance is exactly 0.8 s and the ink box exactly 0.6 s.
fn mini_font() -> Vec<u8> {
    vec![
        0, 1, 0, 0, 0, 7, 0, 64, 0, 2, 0, 48, 99, 109, 97, 112, 0, 0,
        0, 0, 0, 0, 0, 124, 0, 0, 0, 44, 103, 108, 121, 102, 0, 0, 0, 0,
        0, 0, 0, 168, 0, 0, 0, 68, 104, 101, 97, 100, 0, 0, 0, 0, 0, 0,
        0, 236, 0, 0, 0, 54, 104, 104, 101, 97, 0, 0, 0, 0, 0, 0, 1, 36,
        0, 0, 0, 36, 104, 109, 116, 120, 0, 0, 0, 0, 0, 0, 1, 72, 0, 0,
        0, 12, 108, 111, 99, 97, 0, 0, 0, 0, 0, 0, 1, 84, 0, 0, 0, 8,
        109, 97, 120, 112, 0, 0, 0, 0, 0, 0, 1, 92, 0, 0, 0, 32, 0, 0,
        0, 1, 0, 3, 0, 1, 0, 0, 0, 12, 0, 4, 0, 32, 0, 0, 0, 4,
        0, 4, 0, 1, 0, 0, 0, 66, 255, 255, 0, 0, 0, 65, 255, 255, 255, 192,
        0, 1, 0, 0, 0, 0, 0, 1, 0, 0, 0, 0, 2, 88, 2, 88, 0, 3,
        0, 0, 1, 1, 1, 1, 0, 0, 2, 88, 0, 0, 253, 168, 0, 0, 0, 0,
        2, 88, 0, 0, 0, 1, 0, 0, 0, 0, 2, 88, 2, 88, 0, 3, 0, 0,
        1, 1, 1, 1, 0, 0, 2, 88, 0, 0, 253, 168, 0, 0, 0, 0, 2, 88,
        0, 0, 0, 1, 0, 0, 0, 1, 0, 0, 0, 0, 0, 0, 95, 15, 60, 245,
        0, 3, 3, 232, 0, 0, 0, 0, 0, 0, 0, 0, 0, 0, 0, 0, 0, 0,
        0, 0, 0, 0, 0, 0, 2, 88, 2, 88, 0, 0, 0, 8, 0, 2, 0, 0,
        0, 0, 0, 0, 0, 1, 0, 0, 3, 32, 255, 56, 0, 0, 3, 32, 0, 0,
        0, 0, 2, 88, 0, 1, 0, 0, 0, 0, 0, 0, 0, 0, 0, 0, 0, 0,
        0, 0, 0, 3, 3, 32, 0, 0, 3, 32, 0, 0, 3, 32, 0, 0, 0, 0,
        0, 0, 0, 17, 0, 34, 0, 1, 0, 0, 0, 3, 0, 4, 0, 1, 0, 0,
        0, 0, 0, 2, 0, 0, 0, 0, 0, 0, 0, 0, 0, 0, 0, 0, 0, 0,
        0, 0,
    ]
}

#[test]
fn mini_font_parses() {
    assert!(get_text_ratio("A", &mini_font(), 10).is_ok());
}

#[test]
fn text_measure_ab_bounded() {
    // "AB" at height 10 renders at scale 50: two 40px advances, the
    // second glyph's 10px of trailing space compensated away.
    let font = mini_font();
    let (w, h) = get_text_ratio("AB", &font, 10).unwrap();
    assert!(w > 0);
    assert!(h > 0);
    assert!(w <= 80);
    assert_eq!((w, h), (70, 30));
}

#[test]
fn text_render_ab_end_to_end() {
    let font = mini_font();
    let bg = Rgba8 { r: 0, g: 0, b: 0, a: 255 };
    let fg = Rgba8 { r: 255, g: 0, b: 0, a: 0 };
    let (img, start, width) =
        generate_text_image("AB", &font, &None, 16, 10, bg, fg, &TextAlign::CENTER, 2).unwrap();
    assert_eq!((img.width, img.height), (16, 10));
    assert!(width >= 1);
    assert!(start + width <= 16);
    // The reported bounding box really holds ink.
    let mut found = false;
    for y in 0..10 {
        for x in start..start + width {
            let p = img.get_px(x, y);
            if p.r != 0 || p.g != 0 || p.b != 0 {
                found = true;
            }
        }
    }
    assert!(found);
}

#[test]
fn two_line_text_stacks_sections() {
    let font = mini_font();
    let bg = Rgba8 { r: 0, g: 0, b: 0, a: 255 };
    let fg = Rgba8 { r: 255, g: 0, b: 0, a: 0 };
    let (img, start, width) =
        generate_text_image("A\\nB", &font, &None, 20, 21, bg, fg, &TextAlign::LEFT, 1)
            .unwrap();
    assert_eq!((img.width, img.height), (20, 21));
    assert!(width >= 1);
    assert!(start + width <= 20);
    // Section height floor((21 - 1) / 2) = 10: rows 0..10 and 11..21.
    // The row between the two sections was never drawn into.
    for x in 0..20 {
        let p = img.get_px(x, 10);
        assert_eq!((p.r, p.g, p.b), (0, 0, 0));
    }
}

#[test]
fn animation_threshold_is_strict() {
    let font = mini_font();
    // A single glyph measures exactly as wide as it is tall here: its
    // trailing space is fully compensated, leaving just the ink box.
    let (w, h) = get_text_ratio("A", &font, 9).unwrap();
    assert_eq!(w, h);
    assert!(w > 0);
    // Ratio 1 equals exactly three times the 3:9 display aspect: no
    // scroll on exact equality.
    let (should, nw) = is_text_to_animate("A", &font, 0, 3, 9, false).unwrap();
    assert!(!should);
    assert_eq!(nw, 3);
    // A display one pixel narrower puts the ratio strictly above the
    // threshold: scroll, with a canvas of the ink scaled to the slot.
    let (should, nw) = is_text_to_animate("A", &font, 0, 2, 9, false).unwrap();
    assert!(should);
    assert_eq!(nw, 9);
    // The force flag alone also scrolls a fitting text.
    let (should, _) = is_text_to_animate("A", &font, 0, 100, 9, true).unwrap();
    assert!(should);
}

/// Offset of a table in the font's directory.
fn table_offset(font: &[u8], tag: &[u8; 4]) -> usize {
    let n = u16::from_be_bytes([font[4], font[5]]) as usize;
    for i in 0..n {
        let r = 12 + 16 * i;
        if &font[r..r + 4] == tag {
            return u32::from_be_bytes([font[r + 8], font[r + 9], font[r + 10], font[r + 11]])
                as usize;
        }
    }
    panic!("table not found");
}

#[test]
fn font_without_metrics_is_rejected_not_laid_out() {
    // A font that parses but carries no horizontal metrics: zeroing the
    // metric count in hhea makes the parser drop the hmtx table. Text
    // layout must refuse it like an unusable font rather than crash.
    let mut font = mini_font();
    let hhea = table_offset(&font, b"hhea");
    font[hhea + 34] = 0;
    font[hhea + 35] = 0;
    assert_eq!(get_text_ratio("A", &font, 10).unwrap_err(), "Unable to read font");
    let r = dmd_render::animate::is_text_to_animate("A", &font, 0, 128, 32, false);
    assert_eq!(r.unwrap_err(), "Unable to read font");
}

#[test]
fn font_with_out_of_range_glyph_id_is_rejected() {
    // A character map that yields a glyph id beyond the glyph count must
    // also be refused rather than tripping the layout engine.
    let mut font = mini_font();
    let cmap = table_offset(&font, b"cmap");
    // First segment's idDelta: map 'A' (0x41) to glyph id 500.
    font[cmap + 36] = 0x01;
    font[cmap + 37] = 0xB3;
    assert_eq!(get_text_ratio("A", &font, 10).unwrap_err(), "Unable to read font");
}
