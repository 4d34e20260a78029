use dmd_render::protocol::{get_header, DMDLayer};
use dmd_render::raster::{RasterImage, Rgba8};
use dmd_render::animate::scroll_frames;
use dmd_render::timing::{get_clock_format, select_countdown_format, strfdelta};

#[test]
fn scroll_frame_count_and_durations() {
    // Ink in columns [1, 5) of a 6x2 canvas, 3x2 display:
    // dispW + (realW - dispW) + dispW = 3 + 1 + 3 = 7 frames.
    let mut img = RasterImage::blank(6, 2);
    for x in 1..5 {
        img.put_px(x, 0, Rgba8 { r: 255, g: 0, b: 0, a: 255 });
    }
    let (frames, durations) = scroll_frames(&img, 1, 4, 3, 2, 30);
    assert_eq!(frames.len(), 7);
    assert_eq!(durations.len(), 7);
    assert!(durations.iter().all(|&d| d == 30));
    for f in &frames {
        assert_eq!(f.len(), 3 * 2 * 2);
    }
}

#[test]
fn scroll_first_and_last_frames_blank() {
    let mut img = RasterImage::blank(6, 2);
    for x in 1..5 {
        img.put_px(x, 0, Rgba8 { r: 255, g: 0, b: 0, a: 255 });
    }
    let (frames, _) = scroll_frames(&img, 1, 4, 3, 2, 30);
    // The frame generated last slides the ink fully off the left edge.
    assert!(frames[frames.len() - 1].iter().all(|&b| b == 0));
    // The frame generated first shows at most the ink's leading column at
    // the display's right edge; all columns before it are blank.
    let first = &frames[0];
    for y in 0..2usize {
        for x in 0..2usize {
            assert_eq!(first[(y * 3 + x) * 2], 0);
            assert_eq!(first[(y * 3 + x) * 2 + 1], 0);
        }
    }
    // And here the leading ink column is in fact visible.
    assert_eq!(first[(0 * 3 + 2) * 2], 0xF8);
}

#[test]
fn scroll_slides_ink_across_display() {
    // A single ink column at x = 0 (start 0, width 1), 2x1 display:
    // 3 frames; the middle one shows the column entering at the right.
    let mut img = RasterImage::blank(1, 1);
    img.put_px(0, 0, Rgba8 { r: 255, g: 255, b: 255, a: 255 });
    let (frames, _) = scroll_frames(&img, 0, 1, 2, 1, 10);
    assert_eq!(frames.len(), 3);
    assert_eq!(frames[0], vec![0, 0, 0xFF, 0xFF]);
    assert_eq!(frames[1], vec![0xFF, 0xFF, 0, 0]);
    assert_eq!(frames[2], vec![0, 0, 0, 0]);
}

#[test]
fn header_layout_is_fixed() {
    let h = get_header(128, 32, DMDLayer::MAIN, 12288);
    assert_eq!(h.len(), 25);
    assert_eq!(&h[0..9], b"DMDStream");
    assert_eq!(h[9], 0);
    assert_eq!(h[10], 1);
    assert_eq!(&h[11..15], &[0, 0, 0, 3]);
    assert_eq!(&h[15..17], &[0, 128]);
    assert_eq!(&h[17..19], &[0, 32]);
    assert_eq!(h[19], 1);
    assert_eq!(h[20], 1);
    assert_eq!(&h[21..25], &[0, 0, 0x30, 0]);
}

#[test]
fn header_second_layer_clears_flags() {
    let h = get_header(256, 64, DMDLayer::SECOND, 49152);
    assert_eq!(h[19], 0);
    assert_eq!(h[20], 0);
    assert_eq!(&h[15..17], &[1, 0]);
    assert_eq!(&h[17..19], &[0, 64]);
}

#[test]
fn strfdelta_formats_components() {
    // 1 day, 2 hours, 3 minutes, 4 seconds.
    let ts = 86400 + 2 * 3600 + 3 * 60 + 4;
    assert_eq!(strfdelta(ts, "{D:2}d {H:2}:{M:02}:{S:02}"), "01d 02:03:04");
    assert_eq!(strfdelta(ts, "{D} {H} {M} {S}"), "1 2 3 4");
    assert_eq!(strfdelta(59, "{S:02}"), "59");
    assert_eq!(strfdelta(7, "{S:02}"), "07");
    assert_eq!(strfdelta(0, "{M:02}:{S:02}"), "00:00");
    assert_eq!(strfdelta(12, "no markers"), "no markers");
}

#[test]
fn countdown_format_picks_by_magnitude() {
    let f = "{D:2}d";
    let d0 = "day0";
    let h0 = "hour0";
    let m0 = "minute0";
    assert_eq!(select_countdown_format(30, f, d0, h0, m0), m0);
    assert_eq!(select_countdown_format(-30, f, d0, h0, m0), m0);
    assert_eq!(select_countdown_format(60, f, d0, h0, m0), h0);
    assert_eq!(select_countdown_format(-3599, f, d0, h0, m0), h0);
    assert_eq!(select_countdown_format(3600, f, d0, h0, m0), d0);
    assert_eq!(select_countdown_format(-86399, f, d0, h0, m0), d0);
    assert_eq!(select_countdown_format(86400, f, d0, h0, m0), f);
}

#[test]
fn clock_format_choice() {
    assert_eq!(get_clock_format(&None, false, false), "%H:%M:%S");
    assert_eq!(get_clock_format(&None, false, true), "%H:%M");
    assert_eq!(get_clock_format(&None, true, false), "%-I:%M:%S %p");
    assert_eq!(get_clock_format(&None, true, true), "%-I:%M %p");
    assert_eq!(get_clock_format(&Some("%H".to_owned()), true, true), "%H");
}
