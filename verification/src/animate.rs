use crate::compose::{spec_section_height, text_nlines};
use crate::glyphs::{
    chars_of_str, clamp_u32, font_ok, font_renders, font_usable, get_text_height, get_text_width,
    glyphs_of, layout_line, spec_text_height, spec_text_width,
};
use crate::raster::{copy_image, pix, RasterImage};
use crate::rgb565::{image2dmdimage, lemma_rgb565_zero, spec_rgb565};
use crate::textimage::{split_lines, split_text};
use vstd::prelude::*;

verus! {

/// Measured width of line `i` of a split text at the rendering scale for
/// slot height `sect`.
pub open spec fn anim_line_w(font: Seq<u8>, sect: int, lines: Seq<Seq<char>>, i: int) -> int {
    spec_text_width(glyphs_of(font, sect * 5, lines[i]))
}

/// Measured ink height of line `i` of a split text at the rendering scale
/// for slot height `sect`.
pub open spec fn anim_line_h(font: Seq<u8>, sect: int, lines: Seq<Seq<char>>, i: int) -> int {
    spec_text_height(glyphs_of(font, sect * 5, lines[i]))
}

/// A line of measured width `w` and ink height `h` is too wide for the
/// display: its aspect ratio strictly exceeds three times the display's.
/// A line with ink but no measurable height counts as infinitely wide.
pub open spec fn line_triggers(w: int, h: int, dw: int, dh: int) -> bool {
    if h == 0 {
        w > 0 && dh > 0
    } else {
        w * dh > 3 * dw * h
    }
}

/// A ratio exactly at three times the display aspect does not trigger
/// scrolling; any ratio strictly above it does.
pub proof fn lemma_animation_threshold(w: int, h: int, dw: int, dh: int)
    requires
        h > 0,
    ensures
        w * dh == 3 * dw * h ==> !line_triggers(w, h, dw, dh),
        w * dh > 3 * dw * h ==> line_triggers(w, h, dw, dh),
{
}

/// Scroll canvas width that an over-wide line of measured size (w, h)
/// asks for: its ink width scaled to the slot height.
pub open spec fn line_anim_width(sect: int, w: int, h: int) -> int {
    if h == 0 {
        u32::MAX as int
    } else {
        clamp_u32(sect * w / h)
    }
}

/// Whether any of the first `n` lines asks for scrolling (or the caller
/// forces it).
pub open spec fn anim_should_upto(font: Seq<u8>, sect: int, dw: int, dh: int, force: bool, lines: Seq<Seq<char>>, n: int) -> bool
    decreases n,
{
    if n <= 0 {
        false
    } else {
        anim_should_upto(font, sect, dw, dh, force, lines, n - 1) || line_triggers(anim_line_w(
            font, sect, lines, n - 1), anim_line_h(font, sect, lines, n - 1), dw, dh) || force
    }
}

/// Scroll canvas width after the first `n` lines: the display width, or
/// the largest width an animated line asks for.
pub open spec fn anim_width_upto(font: Seq<u8>, sect: int, dw: int, dh: int, force: bool, lines: Seq<Seq<char>>, n: int) -> int
    decreases n,
{
    if n <= 0 {
        dw
    } else {
        let p = anim_width_upto(font, sect, dw, dh, force, lines, n - 1);
        let tr = line_triggers(anim_line_w(font, sect, lines, n - 1), anim_line_h(font, sect,
            lines, n - 1), dw, dh) || force;
        let lw = line_anim_width(sect, anim_line_w(font, sect, lines, n - 1), anim_line_h(font,
            sect, lines, n - 1));
        if tr && lw > p {
            lw
        } else {
            p
        }
    }
}

/// Some line of the text cannot be laid out by the font.
pub open spec fn some_line_unrenderable(font: Seq<u8>, text: Seq<char>) -> bool {
    exists|i: int| 0 <= i < split_lines(text).len() && !font_renders(font, split_lines(text)[i])
}

/// Decide whether a text must scroll: each line is measured against its
/// slot height, and one over-wide line (strictly wider than three times
/// the display aspect) makes the whole text scroll. Returns the decision
/// and the scroll canvas width. A caller flag can force the decision on.
pub fn is_text_to_animate(text: &str, font_data: &[u8], line_spacing: u8, dmd_width: u32, dmd_height: u32, force_moving_text: bool) -> (r: Result<(bool, u32), String>)
    requires
        dmd_height as int * 5 <= u16::MAX as int,
        line_spacing as int * (text_nlines(text@) - 1) <= dmd_height as int,
    ensures
        (r is Err) == some_line_unrenderable(font_data@, text@),
        r matches Err(m) ==> m@ == "Unable to read font"@,
        r matches Ok(p) ==> p.0 == anim_should_upto(font_data@, spec_section_height(
            dmd_height as int, line_spacing as int, text_nlines(text@)), dmd_width as int,
            dmd_height as int, force_moving_text, split_lines(text@), text_nlines(text@))
            && p.1 as int == anim_width_upto(font_data@, spec_section_height(dmd_height as int,
            line_spacing as int, text_nlines(text@)), dmd_width as int, dmd_height as int,
            force_moving_text, split_lines(text@), text_nlines(text@)),
{
    let chars = chars_of_str(text);
    proof {
        assert(chars@.skip(0) =~= chars@);
        crate::textimage::lemma_split_lines_len(text@);
    }
    let lines = split_text(&chars, 0);
    let nlines: usize = lines.len();
    let spaces64: u64 = line_spacing as u64 * (nlines as u64 - 1);
    let sect64: u64 = (dmd_height as u64 - spaces64) / nlines as u64;
    let section_height: u32 = sect64 as u32;
    proof {
        crate::compose::lemma_sections_fit(dmd_height as int, line_spacing as int, nlines as int);
        assert(section_height as int == spec_section_height(dmd_height as int,
            line_spacing as int, nlines as int));
    }
    let scale: u16 = (section_height * 5) as u16;
    let mut should_animate: bool = false;
    let mut animation_new_width: u32 = dmd_width;
    let ghost fontv = font_data@;
    let ghost sect = section_height as int;
    let ghost linesv = split_lines(text@);
    let mut n: usize = 0;
    while n < nlines
        invariant
            nlines == lines@.len(),
            nlines == linesv.len(),
            forall|i: int| 0 <= i < nlines ==> lines@[i]@ == linesv[i],
            fontv == font_data@,
            linesv == split_lines(text@),
            forall|i: int| 0 <= i < n ==> font_renders(fontv, linesv[i]),
            sect == section_height as int,
            scale as int == section_height as int * 5,
            section_height as int * 5 <= u16::MAX as int,
            n <= nlines,
            should_animate == anim_should_upto(fontv, sect, dmd_width as int, dmd_height as int,
                force_moving_text, linesv, n as int),
            animation_new_width as int == anim_width_upto(fontv, sect, dmd_width as int,
                dmd_height as int, force_moving_text, linesv, n as int),
        decreases nlines - n,
    {
        let line_str = crate::glyphs::string_from_chars(&lines[n]);
        if !font_usable(font_data, line_str.as_str()) {
            proof {
                assert(!font_renders(font_data@, split_lines(text@)[n as int]));
                assert(some_line_unrenderable(font_data@, text@));
            }
            return Err("Unable to read font".to_owned());
        }
        let glyphs = layout_line(font_data, scale, line_str.as_str());
        let w: u32 = get_text_width(&glyphs);
        let h: u32 = get_text_height(&glyphs);
        proof {
            assert((w as int * dmd_height as int <= 0xffff_ffff * 0xffff_ffff) && (3
                * (dmd_width as int) * (h as int) <= 3 * 0xffff_ffff * 0xffff_ffff)
                && (section_height as int * w as int <= 0xffff * 0xffff_ffff)) by (nonlinear_arith)
                requires 0 <= w as int <= 0xffff_ffff, 0 <= h as int <= 0xffff_ffff,
                    0 <= dmd_width as int <= 0xffff_ffff, 0 <= dmd_height as int <= 0xffff_ffff,
                    0 <= section_height as int <= 0xffff;
        }
        let local_should_animate: bool = if h == 0 {
            w > 0 && dmd_height > 0
        } else {
            w as u128 * dmd_height as u128 > 3 * (dmd_width as u128) * (h as u128)
        };
        proof {
            assert(w as int == anim_line_w(fontv, sect, linesv, n as int));
            assert(h as int == anim_line_h(fontv, sect, linesv, n as int));
            if h != 0 {
                assert((w as int * dmd_height as int > 3 * (dmd_width as int) * (h as int))
                    == (w as u128 * dmd_height as u128 > 3 * (dmd_width as u128) * (h as u128)))
                    by (nonlinear_arith)
                    requires 0 <= w as int <= 0xffff_ffff, 0 <= h as int <= 0xffff_ffff,
                        0 <= dmd_width as int <= 0xffff_ffff,
                        0 <= dmd_height as int <= 0xffff_ffff, w as u128 == w as int,
                        h as u128 == h as int, dmd_width as u128 == dmd_width as int,
                        dmd_height as u128 == dmd_height as int;
            }
        }
        if local_should_animate || force_moving_text {
            should_animate = true;
            let local_animation_new_width: u32 = if h == 0 {
                u32::MAX
            } else {
                let q: u64 = section_height as u64 * w as u64 / h as u64;
                if q > u32::MAX as u64 {
                    u32::MAX
                } else {
                    q as u32
                }
            };
            if local_animation_new_width > animation_new_width {
                animation_new_width = local_animation_new_width;
            }
        }
        n = n + 1;
    }
    Ok((should_animate, animation_new_width))
}

/// Apply the caller's force flags to the measured scroll decision:
/// force-off wins only when force-on is not also set.
pub fn apply_scroll_overrides(should_animate: bool, force_moving: bool, force_fixed: bool) -> (r: bool)
    ensures
        r == (if !force_moving && force_fixed {
            false
        } else {
            should_animate
        }),
{
    if !force_moving && force_fixed {
        false
    } else {
        should_animate
    }
}

/// Channel `c` of what the display shows at (x, y) when the rendered text
/// is laid at horizontal offset `off` on a blank display-sized canvas.
pub open spec fn text_shifted_chan(font: Seq<u8>, gradient: Option<RasterImage>, text: Seq<char>, tw: int, dh: int, sp: int, bg: crate::raster::Rgba8, fg: crate::raster::Rgba8, align: crate::TextAlign, off: int, x: int, y: int, c: int) -> u8 {
    if 0 <= x - off < tw && 0 <= y < dh {
        crate::compose::text_render_chan(font, gradient, tw, dh, sp, bg, fg, align, text, x - off,
            y, c)
    } else {
        0u8
    }
}

/// The RGB565 word the display shows there for that frame.
pub open spec fn text_scroll_word(font: Seq<u8>, gradient: Option<RasterImage>, text: Seq<char>, tw: int, dh: int, sp: int, bg: crate::raster::Rgba8, fg: crate::raster::Rgba8, align: crate::TextAlign, off: int, x: int, y: int) -> u16 {
    spec_rgb565(
        text_shifted_chan(font, gradient, text, tw, dh, sp, bg, fg, align, off, x, y, 0),
        text_shifted_chan(font, gradient, text, tw, dh, sp, bg, fg, align, off, x, y, 1),
        text_shifted_chan(font, gradient, text, tw, dh, sp, bg, fg, align, off, x, y, 2),
    )
}

/// Every frame of a generated animation shows the rendered text at its
/// frame's horizontal offset, packed as big-endian RGB565.
pub open spec fn anim_frames_show_text(frames: Seq<Vec<u8>>, font: Seq<u8>, gradient: Option<RasterImage>, text: Seq<char>, tw: int, dw: int, dh: int, sp: int, bg: crate::raster::Rgba8, fg: crate::raster::Rgba8, align: crate::TextAlign, ink_s: int, ink_w: int) -> bool {
    forall|j: int, x: int, y: int|
        0 <= j < frames.len() && 0 <= x < dw && 0 <= y < dh
            ==> #[trigger] frames[j]@[pix(dw, x, y) * 2] == (text_scroll_word(font, gradient,
            text, tw, dh, sp, bg, fg, align, frames.len() - 1 - j - ink_s - ink_w, x, y) >> 8) as u8
            && frames[j]@[pix(dw, x, y) * 2 + 1] == (text_scroll_word(font, gradient, text, tw,
            dh, sp, bg, fg, align, frames.len() - 1 - j - ink_s - ink_w, x, y) & 0xff) as u8
}

/// Render a text into a scroll canvas `text_width` wide and produce the
/// whole scroll animation: the encoded frames, generated eagerly from the
/// highest offset down, and one duration (the caller-supplied speed) per
/// frame. The frame count is the display width plus the rendered text's
/// ink width. Frame j, played j-th, shows the text at horizontal offset
/// count − 1 − j − ink start − ink width.
#[verifier::rlimit(80)]
#[verifier::spinoff_prover]
pub fn get_dmd_animation_from_text(text: &str, font_data: &[u8], gradient: &Option<RasterImage>, dmd_width: u32, dmd_height: u32, text_width: u32, background_color: crate::raster::Rgba8, text_color: crate::raster::Rgba8, text_align: &crate::TextAlign, line_spacing: u8, speed: u32) -> (r: Result<(Vec<Vec<u8>>, Vec<u32>), String>)
    requires
        dmd_height as int * 5 <= u16::MAX as int,
        text_width as int * dmd_height as int * 4 <= usize::MAX as int,
        dmd_width as int * dmd_height as int * 4 <= usize::MAX as int,
        text_width as int * 4 <= i32::MAX as int,
        dmd_width as int * 4 <= i32::MAX as int,
        dmd_height <= i32::MAX as u32,
        gradient matches Some(g) ==> g.wf(),
        line_spacing as int * (text_nlines(text@) - 1) <= dmd_height as int,
        text_nlines(text@) > 1 ==> text_width >= 1,
    ensures
        (r is Err) == crate::compose::text_render_fails(font_data@, text@, dmd_height as int,
            line_spacing as int),
        !font_ok(font_data@) ==> (r matches Err(m) && m@ == "Unable to read font"@),
        r matches Ok(t) ==> t.0@.len() == dmd_width as int + crate::compose::text_ink_width(
            font_data@, text@, text_width as int, dmd_height as int, line_spacing as int,
            background_color, text_color, *text_align) && t.1@.len() == t.0@.len()
            && (forall|i: int| 0 <= i < t.1@.len() ==> t.1@[i] == speed) && (forall|i: int|
            0 <= i < t.0@.len() ==> #[trigger] t.0@[i]@.len() == dmd_width as int
            * dmd_height as int * 2) && anim_frames_show_text(t.0@, font_data@, *gradient,
            text@, text_width as int, dmd_width as int, dmd_height as int, line_spacing as int,
            background_color, text_color, *text_align, crate::compose::text_ink_start(font_data@,
            text@, text_width as int, dmd_height as int, line_spacing as int, background_color,
            text_color, *text_align), crate::compose::text_ink_width(font_data@, text@,
            text_width as int, dmd_height as int, line_spacing as int, background_color,
            text_color, *text_align)),
{
    let (dyn_img, start, real_width) = match crate::compose::generate_text_image(text, font_data,
        gradient, text_width, dmd_height, background_color, text_color, text_align, line_spacing) {
        Ok(t) => t,
        Err(e) => {
            return Err(e);
        },
    };
    let (frames_dmd, frames_duration) = scroll_frames(&dyn_img, start, real_width, dmd_width,
        dmd_height, speed);
    proof {
        crate::textimage::lemma_split_lines_len(text@);
        let total = frames_dmd@.len() as int;
        let ink_s = crate::compose::text_ink_start(font_data@, text@, text_width as int,
            dmd_height as int, line_spacing as int, background_color, text_color, *text_align);
        let ink_w = crate::compose::text_ink_width(font_data@, text@, text_width as int,
            dmd_height as int, line_spacing as int, background_color, text_color, *text_align);
        assert(start as int == ink_s && real_width as int == ink_w);
        assert forall|j: int, x: int, y: int|
            0 <= j < total && 0 <= x < dmd_width && 0 <= y < dmd_height
                implies #[trigger] frames_dmd@[j]@[pix(dmd_width as int, x, y) * 2]
                == (text_scroll_word(font_data@, *gradient, text@, text_width as int,
                dmd_height as int, line_spacing as int, background_color, text_color, *text_align,
                total - 1 - j - ink_s - ink_w, x, y) >> 8) as u8 && frames_dmd@[j]@[pix(
                dmd_width as int, x, y) * 2 + 1] == (text_scroll_word(font_data@, *gradient,
                text@, text_width as int, dmd_height as int, line_spacing as int,
                background_color, text_color, *text_align, total - 1 - j - ink_s - ink_w, x,
                y) & 0xff) as u8 by {
            let off = total - 1 - j - ink_s - ink_w;
            crate::raster::lemma_pix_bounds(dmd_width as int, dmd_height as int, x, y);
            assert(frames_dmd@[j]@[pix(dmd_width as int, x, y) * 2] == (scroll_word(dyn_img,
                total - 1 - j - start as int - real_width as int, x, y) >> 8) as u8);
            assert(frames_dmd@[j]@[pix(dmd_width as int, x, y) * 2 + 1] == (scroll_word(dyn_img,
                total - 1 - j - start as int - real_width as int, x, y) & 0xff) as u8);
            assert forall|c: int| 0 <= c < 4 implies scroll_chan(dyn_img, off, x, y, c)
                == text_shifted_chan(font_data@, *gradient, text@, text_width as int,
                dmd_height as int, line_spacing as int, background_color, text_color, *text_align,
                off, x, y, c) by {
                if 0 <= x - off && x - off < text_width as int {
                    if crate::compose::text_nlines(text@) == 1 {
                        assert(dyn_img.chan(x - off, y, c) == crate::compose::text_single_chan(
                            font_data@, *gradient, text_width as int, dmd_height as int,
                            background_color, text_color, *text_align, text@, x - off, y, c));
                    } else {
                        assert(dyn_img.chan(x - off, y, c) == crate::compose::text_multi_chan(
                            font_data@, *gradient, text_width as int, dmd_height as int,
                            line_spacing as int, background_color, text_color, *text_align,
                            text@, x - off, y, c));
                    }
                }
            }
            assert(scroll_word(dyn_img, off, x, y) == text_scroll_word(font_data@, *gradient,
                text@, text_width as int, dmd_height as int, line_spacing as int,
                background_color, text_color, *text_align, off, x, y));
        }
        assert(anim_frames_show_text(frames_dmd@, font_data@, *gradient, text@, text_width as int,
            dmd_width as int, dmd_height as int, line_spacing as int, background_color,
            text_color, *text_align, ink_s, ink_w));
    }
    Ok((frames_dmd, frames_duration))
}

/// What the display shows at (x, y) when the composed raster `img` is laid
/// at horizontal offset `off` on a blank display-sized canvas.
pub open spec fn scroll_chan(img: RasterImage, off: int, x: int, y: int, c: int) -> u8 {
    if 0 <= x - off < img.width as int && 0 <= y < img.height as int {
        img.chan(x - off, y, c)
    } else {
        0u8
    }
}

/// The RGB565 word the display shows at (x, y) for that frame.
pub open spec fn scroll_word(img: RasterImage, off: int, x: int, y: int) -> u16 {
    spec_rgb565(
        scroll_chan(img, off, x, y, 0),
        scroll_chan(img, off, x, y, 1),
        scroll_chan(img, off, x, y, 2),
    )
}

/// Generate the scroll animation of a composed text raster whose ink
/// occupies columns [start, start + real_width): one encoded frame per
/// horizontal position, sliding the ink from off-screen right to
/// off-screen left, each with the same caller-supplied duration. With
/// real_width ≥ dmd_width the frame count is
/// dmd_width + (real_width − dmd_width) + dmd_width. The frame generated
/// last is fully blank, and the frame generated first shows at most the
/// ink's leading column at the display's right edge.
#[verifier::rlimit(80)]
pub fn scroll_frames(dyn_img: &RasterImage, start: u32, real_width: u32, dmd_width: u32, dmd_height: u32, speed: u32) -> (r: (Vec<Vec<u8>>, Vec<u32>))
    requires
        dyn_img.wf(),
        dmd_width as int * dmd_height as int * 4 <= usize::MAX as int,
        start as int + real_width as int <= i32::MAX as int,
        dmd_width as int + real_width as int <= i32::MAX as int,
        forall|x: int, y: int, c: int|
            dyn_img.in_bounds(x, y) && 0 <= c < 3 && !(start as int <= x < start as int
                + real_width as int) ==> dyn_img.chan(x, y, c) == 0,
    ensures
        r.0@.len() == dmd_width as int + real_width as int,
        r.1@.len() == r.0@.len(),
        real_width >= dmd_width ==> r.0@.len() == dmd_width as int + (real_width as int
            - dmd_width as int) + dmd_width as int,
        forall|j: int| 0 <= j < r.1@.len() ==> r.1@[j] == speed,
        forall|j: int| 0 <= j < r.0@.len() ==> #[trigger] r.0@[j]@.len() == dmd_width as int
            * dmd_height as int * 2,
        forall|j: int, x: int, y: int|
            0 <= j < r.0@.len() && 0 <= x < dmd_width && 0 <= y < dmd_height
                ==> #[trigger] r.0@[j]@[pix(dmd_width as int, x, y) * 2] == (scroll_word(*dyn_img,
                r.0@.len() - 1 - j - start as int - real_width as int, x, y) >> 8) as u8
                && r.0@[j]@[pix(dmd_width as int, x, y) * 2 + 1] == (scroll_word(*dyn_img,
                r.0@.len() - 1 - j - start as int - real_width as int, x, y) & 0xff) as u8,
        r.0@.len() > 0 ==> forall|x: int, y: int|
            0 <= x < dmd_width && 0 <= y < dmd_height
                ==> #[trigger] r.0@[r.0@.len() - 1]@[pix(dmd_width as int, x, y) * 2] == 0
                && r.0@[r.0@.len() - 1]@[pix(dmd_width as int, x, y) * 2 + 1] == 0,
        r.0@.len() > 0 ==> forall|x: int, y: int|
            0 <= x < dmd_width as int - 1 && 0 <= y < dmd_height
                ==> #[trigger] r.0@[0]@[pix(dmd_width as int, x, y) * 2] == 0 && r.0@[0]@[pix(
                dmd_width as int, x, y) * 2 + 1] == 0,
{
    let total: u64 = dmd_width as u64 + real_width as u64;
    let mut frames_dmd: Vec<Vec<u8>> = Vec::new();
    let mut frames_duration: Vec<u32> = Vec::new();
    let mut j: u64 = 0;
    while j < total
        invariant
            dyn_img.wf(),
            total == dmd_width as u64 + real_width as u64,
            dmd_width as int * dmd_height as int * 4 <= usize::MAX as int,
            start as int + real_width as int <= i32::MAX as int,
            dmd_width as int + real_width as int <= i32::MAX as int,
            forall|x: int, y: int, c: int|
                dyn_img.in_bounds(x, y) && 0 <= c < 3 && !(start as int <= x < start as int
                    + real_width as int) ==> dyn_img.chan(x, y, c) == 0,
            j <= total,
            frames_dmd@.len() == j,
            frames_duration@.len() == j,
            forall|i: int| 0 <= i < j ==> frames_duration@[i] == speed,
            forall|i: int| 0 <= i < j ==> #[trigger] frames_dmd@[i]@.len() == dmd_width as int
                * dmd_height as int * 2,
            forall|i: int, x: int, y: int|
                0 <= i < j && 0 <= x < dmd_width && 0 <= y < dmd_height
                    ==> #[trigger] frames_dmd@[i]@[pix(dmd_width as int, x, y) * 2]
                    == (scroll_word(*dyn_img, total as int - 1 - i - start as int
                    - real_width as int, x, y) >> 8) as u8 && frames_dmd@[i]@[pix(
                    dmd_width as int, x, y) * 2 + 1] == (scroll_word(*dyn_img, total as int - 1
                    - i - start as int - real_width as int, x, y) & 0xff) as u8,
        decreases total - j,
    {
        let npixel: u64 = total - 1 - j;
        let off64: i64 = npixel as i64 - start as i64 - real_width as i64;
        let off: i32 = off64 as i32;
        let mut new_img = RasterImage::blank(dmd_width, dmd_height);
        copy_image(dyn_img, &mut new_img, off, 0);
        let img565 = match image2dmdimage(&new_img, &crate::TextAlign::CENTER, dmd_width,
            dmd_height) {
            Ok(f) => f,
            Err(_) => {
                // The encoder always succeeds: this arm is unreachable.
                proof {
                    assert(false);
                }
                return (frames_dmd, frames_duration);
            },
        };
        proof {
            assert forall|x: int, y: int|
                0 <= x < dmd_width && 0 <= y < dmd_height
                    implies new_img.chan(x, y, 0) == scroll_chan(*dyn_img, off as int, x, y, 0)
                    && new_img.chan(x, y, 1) == scroll_chan(*dyn_img, off as int, x, y, 1)
                    && new_img.chan(x, y, 2) == scroll_chan(*dyn_img, off as int, x, y, 2) by {
            }
        }
        let ghost fd0 = frames_dmd@;
        frames_dmd.push(img565);
        frames_duration.push(speed);
        proof {
            let dwi = dmd_width as int;
            let offi = off as int;
            assert(offi == total as int - 1 - j as int - start as int - real_width as int);
            assert forall|x: int, y: int|
                0 <= x < dmd_width && 0 <= y < dmd_height
                    implies frames_dmd@[j as int]@[pix(dwi, x, y) * 2] == (scroll_word(*dyn_img,
                    offi, x, y) >> 8) as u8 && frames_dmd@[j as int]@[pix(dwi, x, y) * 2 + 1]
                    == (scroll_word(*dyn_img, offi, x, y) & 0xff) as u8 by {
                crate::raster::lemma_pix_bounds(dwi, dmd_height as int, x, y);
                assert(frames_dmd@[j as int] == img565);
                assert(img565@[pix(dwi, x, y) * 2] == (spec_rgb565(new_img.chan(x, y, 0),
                    new_img.chan(x, y, 1), new_img.chan(x, y, 2)) >> 8) as u8);
                assert(img565@[pix(dwi, x, y) * 2 + 1] == (spec_rgb565(new_img.chan(x, y, 0),
                    new_img.chan(x, y, 1), new_img.chan(x, y, 2)) & 0xff) as u8);
                assert(scroll_word(*dyn_img, offi, x, y) == spec_rgb565(new_img.chan(x, y, 0),
                    new_img.chan(x, y, 1), new_img.chan(x, y, 2)));
            }
            assert forall|i: int, x: int, y: int|
                0 <= i < j as int && 0 <= x < dmd_width && 0 <= y < dmd_height
                    implies #[trigger] frames_dmd@[i]@[pix(dwi, x, y) * 2] == (scroll_word(
                    *dyn_img, total as int - 1 - i - start as int - real_width as int, x,
                    y) >> 8) as u8 && frames_dmd@[i]@[pix(dwi, x, y) * 2 + 1] == (scroll_word(
                    *dyn_img, total as int - 1 - i - start as int - real_width as int, x,
                    y) & 0xff) as u8 by {
                assert(fd0[i]@[pix(dwi, x, y) * 2] == (scroll_word(*dyn_img, total as int - 1 - i
                    - start as int - real_width as int, x, y) >> 8) as u8);
                assert(fd0[i]@[pix(dwi, x, y) * 2 + 1] == (scroll_word(*dyn_img, total as int - 1
                    - i - start as int - real_width as int, x, y) & 0xff) as u8);
                assert(frames_dmd@[i] == fd0[i]);
            }
        }
        j = j + 1;
    }
    proof {
        if total > 0 {
            lemma_rgb565_zero();
            assert forall|x: int, y: int|
                0 <= x < dmd_width && 0 <= y < dmd_height
                    implies frames_dmd@[total as int - 1]@[pix(dmd_width as int, x, y) * 2] == 0
                    && frames_dmd@[total as int - 1]@[pix(dmd_width as int, x, y) * 2 + 1]
                    == 0 by {
                let off = total as int - 1 - (total as int - 1) - start as int - real_width as int;
                crate::raster::lemma_pix_bounds(dmd_width as int, dmd_height as int, x, y);
                assert(frames_dmd@[total as int - 1]@[pix(dmd_width as int, x, y) * 2]
                    == (scroll_word(*dyn_img, off, x, y) >> 8) as u8);
                assert(frames_dmd@[total as int - 1]@[pix(dmd_width as int, x, y) * 2 + 1]
                    == (scroll_word(*dyn_img, off, x, y) & 0xff) as u8);
                assert(scroll_word(*dyn_img, off, x, y) == spec_rgb565(0, 0, 0));
            }
            assert forall|x: int, y: int|
                0 <= x < dmd_width as int - 1 && 0 <= y < dmd_height
                    implies frames_dmd@[0]@[pix(dmd_width as int, x, y) * 2] == 0
                    && frames_dmd@[0]@[pix(dmd_width as int, x, y) * 2 + 1] == 0 by {
                let off = total as int - 1 - start as int - real_width as int;
                crate::raster::lemma_pix_bounds(dmd_width as int, dmd_height as int, x, y);
                assert(frames_dmd@[0]@[pix(dmd_width as int, x, y) * 2] == (scroll_word(*dyn_img,
                    off, x, y) >> 8) as u8);
                assert(frames_dmd@[0]@[pix(dmd_width as int, x, y) * 2 + 1] == (scroll_word(
                    *dyn_img, off, x, y) & 0xff) as u8);
                assert(scroll_word(*dyn_img, off, x, y) == spec_rgb565(0, 0, 0));
            }
        }
    }
    (frames_dmd, frames_duration)
}

} // verus!
