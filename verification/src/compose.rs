use crate::glyphs::{
    ascent_of, clamp_i32, font_ascent, font_ok, font_renders, get_text_height, get_text_width, get_text_x,
    get_text_y, glyphs_of, layout_line, spec_min_y, spec_text_height, spec_text_width, GlyphInfo,
};
use crate::gradient::apply_gradient;
use crate::raster::{copy_image, RasterImage, Rgba8};
use crate::resizefit::{fit_start, fit_width, resize_image_to_fit};
use crate::textimage::{crop_w, crop_width_right, draw_text_raster, drawn, split_lines, split_text};
use crate::glyphs::chars_of_str;
use crate::TextAlign;
use vstd::arithmetic::div_mod::lemma_fundamental_div_mod;
use vstd::prelude::*;

verus! {

/// Background fill bytes of a w × h raster: `color` at every pixel.
pub open spec fn bg_fill(w: int, h: int, color: Rgba8) -> Seq<u8> {
    Seq::new((w * h * 4) as nat, |i: int| color.spec_channel(i % 4))
}

/// The glyphs of one line at the rendering scale for a box of height
/// `box_h` (5 times the box height, for sub-pixel precision).
pub open spec fn line_glyphs(font: Seq<u8>, box_h: int, line: Seq<char>) -> Seq<GlyphInfo> {
    glyphs_of(font, box_h * 5, line)
}

/// Measured width of a line at the rendering scale.
pub open spec fn line_raw_w(font: Seq<u8>, box_h: int, line: Seq<char>) -> int {
    spec_text_width(line_glyphs(font, box_h, line))
}

/// Measured ink height of a line at the rendering scale.
pub open spec fn line_raw_h(font: Seq<u8>, box_h: int, line: Seq<char>) -> int {
    spec_text_height(line_glyphs(font, box_h, line))
}

/// Horizontal draw origin of a line.
pub open spec fn line_x0(font: Seq<u8>, box_h: int, line: Seq<char>) -> int {
    let gs = line_glyphs(font, box_h, line);
    if gs.len() == 0 {
        0
    } else {
        clamp_i32(-(gs[0].left_bearing as int))
    }
}

/// Vertical draw origin of a line.
pub open spec fn line_y0(font: Seq<u8>, box_h: int, line: Seq<char>) -> int {
    clamp_i32(-(ascent_of(font, box_h * 5) + spec_min_y(line_glyphs(font, box_h, line))))
}

/// Pixel bytes of a line drawn on its background-filled measured raster.
pub open spec fn line_drawn(font: Seq<u8>, box_h: int, bg: Rgba8, fg: Rgba8, line: Seq<char>) -> Seq<u8> {
    drawn(
        bg_fill(line_raw_w(font, box_h, line), line_raw_h(font, box_h, line), bg),
        line_raw_w(font, box_h, line),
        line_raw_h(font, box_h, line),
        fg,
        line_x0(font, box_h, line),
        line_y0(font, box_h, line),
        box_h * 5,
        font,
        line,
    )
}

/// Width of the drawn line after the right crop to its last ink column.
pub open spec fn line_crop_w(font: Seq<u8>, box_h: int, bg: Rgba8, fg: Rgba8, line: Seq<char>) -> int {
    crop_w(
        line_drawn(font, box_h, bg, fg, line),
        line_raw_w(font, box_h, line),
        line_raw_h(font, box_h, line),
    )
}

/// The measured raster of this line fits in a byte buffer.
pub open spec fn line_fits(font: Seq<u8>, box_h: int, line: Seq<char>) -> bool {
    line_raw_w(font, box_h, line) * line_raw_h(font, box_h, line) * 4 <= usize::MAX as int
}

/// Horizontal start of the line once fitted into its (box_w, box_h) slot.
pub open spec fn line_start(font: Seq<u8>, box_w: int, box_h: int, bg: Rgba8, fg: Rgba8, align: TextAlign, line: Seq<char>) -> int {
    let cw = line_crop_w(font, box_h, bg, fg, line);
    let ch = line_raw_h(font, box_h, line);
    if cw == box_w && ch == box_h {
        0
    } else {
        fit_start(cw, ch, box_w, box_h, align)
    }
}

/// Placed width of the line once fitted into its (box_w, box_h) slot.
pub open spec fn line_placed_w(font: Seq<u8>, box_w: int, box_h: int, bg: Rgba8, fg: Rgba8, align: TextAlign, line: Seq<char>) -> int {
    let cw = line_crop_w(font, box_h, bg, fg, line);
    let ch = line_raw_h(font, box_h, line);
    if cw == box_w && ch == box_h {
        box_w
    } else {
        fit_width(cw, ch, box_w, box_h)
    }
}

/// Byte buffer of the drawn line after its right crop: the same pixels,
/// re-indexed to the cropped width.
pub open spec fn cropped_line(font: Seq<u8>, box_h: int, bg: Rgba8, fg: Rgba8, line: Seq<char>) -> Seq<u8> {
    let p = line_drawn(font, box_h, bg, fg, line);
    let w = line_raw_w(font, box_h, line);
    let h = line_raw_h(font, box_h, line);
    let cw = line_crop_w(font, box_h, bg, fg, line);
    Seq::new((cw * h * 4) as nat, |i: int| crate::raster::seq_chan(p, w, (i / 4) % cw, (i / 4)
        / cw, i % 4))
}

/// Channel `c` of the pixel at (x, y) of the rendered line inside its
/// (box_w, box_h) slot: the cropped drawing fitted into the slot, or the
/// cropped drawing itself when it already has exactly the slot's size.
pub open spec fn line_render_chan(font: Seq<u8>, box_w: int, box_h: int, bg: Rgba8, fg: Rgba8, align: TextAlign, line: Seq<char>, x: int, y: int, c: int) -> u8 {
    let cw = line_crop_w(font, box_h, bg, fg, line);
    let ch = line_raw_h(font, box_h, line);
    if cw == box_w && ch == box_h {
        crate::raster::seq_chan(cropped_line(font, box_h, bg, fg, line), box_w, x, y, c)
    } else {
        crate::resizefit::fitted_chan_seq(cropped_line(font, box_h, bg, fg, line), cw, ch, box_w,
            box_h, align, x, y, c)
    }
}

/// Render one line of text into a (width, height) box: measure, draw at 5x
/// scale on the background color, crop the trailing ink-free margin, and
/// fit the result into the box. Returns the raster, the horizontal start
/// of the placed content and the placed width.
pub fn generate_text_image_single_line(line: &Vec<char>, font_data: &[u8], width: u32, height: u32, background_color: Rgba8, text_color: Rgba8, text_align: &TextAlign) -> (r: Result<(RasterImage, u32, u32), String>)
    requires
        height as int * 5 <= u16::MAX as int,
        width as int * height as int * 4 <= usize::MAX as int,
        width <= i32::MAX as u32,
        height <= i32::MAX as u32,
    ensures
        (r is Err) == (!font_renders(font_data@, line@) || !line_fits(font_data@, height as int,
            line@)),
        font_renders(font_data@, line@) ==> font_ok(font_data@),
        !font_renders(font_data@, line@) ==> (r matches Err(m) && m@ == "Unable to read font"@),
        r matches Ok(t) ==> t.0.wf() && t.0.width == width && t.0.height == height
            && t.1 as int == line_start(font_data@, width as int, height as int, background_color,
            text_color, *text_align, line@) && t.2 as int == line_placed_w(font_data@,
            width as int, height as int, background_color, text_color, *text_align, line@)
            && t.1 + t.2 <= width && (forall|x: int, y: int, c: int|
            0 <= x < width && 0 <= y < height && 0 <= c < 3 && !(t.1 <= x < t.1 + t.2)
                ==> t.0.chan(x, y, c) == 0) && (forall|x: int, y: int, c: int|
            0 <= x < width && 0 <= y < height && 0 <= c < 4 ==> t.0.chan(x, y, c)
                == line_render_chan(font_data@, width as int, height as int, background_color,
                text_color, *text_align, line@, x, y, c)),
{
    let scale: u16 = (height * 5) as u16;
    let line_str = crate::glyphs::string_from_chars(line);
    if !crate::glyphs::font_usable(font_data, line_str.as_str()) {
        return Err("Unable to read font".to_owned());
    }
    let glyphs = layout_line(font_data, scale, line_str.as_str());
    let genwidth: u32 = get_text_width(&glyphs);
    let genheight: u32 = get_text_height(&glyphs);
    proof {
        assert(genwidth as int * genheight as int * 4 < u128::MAX as int) by (nonlinear_arith)
            requires 0 <= genwidth as int <= 0xffff_ffff, 0 <= genheight as int <= 0xffff_ffff;
    }
    if genwidth as u128 * genheight as u128 * 4 > usize::MAX as u128 {
        return Err("text raster too large".to_owned());
    }
    let img = RasterImage::from_pixel(genwidth, genheight, background_color);
    proof {
        assert(img.pixels@ =~= bg_fill(genwidth as int, genheight as int, background_color));
    }
    let x: i32 = get_text_x(&glyphs);
    let ascent: i64 = match font_ascent(font_data, scale) {
        Some(a) => a,
        None => {
            // The layout call above succeeded, so the font parses: this
            // arm is unreachable.
            proof {
                assert(false);
            }
            return Err("Unable to read font".to_owned());
        },
    };
    let y: i32 = get_text_y(&glyphs, ascent);
    let dyn_img = draw_text_raster(&img, text_color, x, y, scale, font_data, line_str.as_str());
    let cropped = crop_width_right(&dyn_img);
    let (fit, start, new_width) = resize_image_to_fit(&cropped, width, height, text_align);
    proof {
        let cw = line_crop_w(font_data@, height as int, background_color, text_color, line@);
        let ch = line_raw_h(font_data@, height as int, line@);
        let cl = cropped_line(font_data@, height as int, background_color, text_color, line@);
        assert(cropped.width as int == cw);
        assert(cropped.height as int == ch);
        assert(cropped.pixels@ =~= cl) by {
            let _l = cropped.pixels@.len();
            assert forall|i: int| 0 <= i < cw * ch * 4 implies cropped.pixels@[i] == cl[i] by {
                crate::raster::lemma_byte_decomp(cw, ch, i);
                let x = (i / 4) % cw;
                let y = (i / 4) / cw;
                let c = i % 4;
                assert(cropped.pixels@[i] == cropped.chan(x, y, c));
                assert(cropped.chan(x, y, c) == dyn_img.chan(x, y, c));
            }
        }
        if !(cropped.width == width && cropped.height == height) {
            assert forall|x2: int, y2: int, c: int|
                0 <= x2 < width && 0 <= y2 < height && 0 <= c < 3 && !(start as int <= x2
                    < start as int + new_width as int) implies fit.chan(x2, y2, c) == 0 by {
                assert(fit.chan(x2, y2, c) == crate::resizefit::fitted_chan(cropped, width as int,
                    height as int, *text_align, x2, y2, c));
            }
        }
    }
    Ok((fit, start, new_width))
}

/// Section height of each of `nlines` stacked line slots separated by
/// `spacing` pixels inside a box `height` pixels tall.
pub open spec fn spec_section_height(height: int, spacing: int, nlines: int) -> int {
    (height - spacing * (nlines - 1)) / nlines
}

/// Height of each line slot when `nlines` lines separated by `spacing`
/// pixels share a box `height` pixels tall.
pub fn section_height(height: u32, spacing: u8, nlines: u32) -> (r: u32)
    requires
        nlines >= 1,
        spacing as int * (nlines as int - 1) <= height as int,
    ensures
        r as int == spec_section_height(height as int, spacing as int, nlines as int),
{
    proof {
        lemma_sections_fit(height as int, spacing as int, nlines as int);
    }
    let spaces64: u64 = spacing as u64 * (nlines as u64 - 1);
    (((height as u64) - spaces64) / (nlines as u64)) as u32
}

/// The stacked sections and their spacing never exceed the box: with
/// S = spec_section_height, nlines·S + (nlines−1)·spacing ≤ height.
pub proof fn lemma_sections_fit(height: int, spacing: int, nlines: int)
    requires
        nlines >= 1,
        0 <= spacing,
        0 <= height,
        spacing * (nlines - 1) <= height,
    ensures
        0 <= spec_section_height(height, spacing, nlines),
        nlines * spec_section_height(height, spacing, nlines) + (nlines - 1) * spacing <= height,
        spec_section_height(height, spacing, nlines) <= height,
{
    let a = height - spacing * (nlines - 1);
    let s = a / nlines;
    lemma_fundamental_div_mod(a, nlines);
    vstd::arithmetic::div_mod::lemma_div_pos_is_pos(a, nlines);
    assert(0 <= s && nlines * s <= a && s <= a) by (nonlinear_arith)
        requires nlines >= 1, a >= 0, s == a / nlines;
    assert(spacing * (nlines - 1) == (nlines - 1) * spacing) by (nonlinear_arith);
}

/// Line slots never overlap: slot i, at vertical offset i·(S + spacing)
/// and S pixels tall, ends before slot j begins for i < j.
pub proof fn lemma_sections_disjoint(s: int, spacing: int, i: int, j: int)
    requires
        0 <= s,
        0 <= spacing,
        0 <= i < j,
    ensures
        i * (s + spacing) + s <= j * (s + spacing),
{
    assert(i * (s + spacing) + s + spacing <= j * (s + spacing)) by (nonlinear_arith)
        requires 0 <= s, 0 <= spacing, 0 <= i, i + 1 <= j;
}

/// A text without a line-break marker is its own single line.
pub proof fn lemma_split_single(s: Seq<char>)
    requires
        split_lines(s).len() == 1,
    ensures
        split_lines(s)[0] == s,
    decreases s.len(),
{
    if s.len() == 0 {
        assert(split_lines(s)[0] =~= s);
    } else if s.len() >= 2 && s[0] == '\\' && s[1] == 'n' {
        crate::textimage::lemma_split_lines_len(s.skip(2));
    } else {
        crate::textimage::lemma_split_lines_len(s.skip(1));
        lemma_split_single(s.skip(1));
        assert(split_lines(s)[0] =~= s);
    }
}

/// Number of lines of a text.
pub open spec fn text_nlines(text: Seq<char>) -> int {
    split_lines(text).len() as int
}

/// The slot height each line of `text` is rendered into: the whole box for
/// a single line, else the section height.
pub open spec fn text_box_h(text: Seq<char>, height: int, spacing: int) -> int {
    if text_nlines(text) == 1 {
        height
    } else {
        spec_section_height(height, spacing, text_nlines(text))
    }
}

/// Rendering `text` fails: the font cannot lay out some line (it does not
/// parse, or a glyph lacks what rusttype needs), or some line's measured
/// raster cannot fit in a byte buffer.
pub open spec fn text_render_fails(font: Seq<u8>, text: Seq<char>, height: int, spacing: int) -> bool {
    exists|i: int|
        0 <= i < text_nlines(text) && (!font_renders(font, split_lines(text)[i]) || !line_fits(
            font, text_box_h(text, height, spacing), split_lines(text)[i]))
}

/// Smallest placed start across the first `n` lines, seeded with bw − 1.
pub open spec fn min_start_upto(font: Seq<u8>, bw: int, bh: int, bg: Rgba8, fg: Rgba8, align: TextAlign, lines: Seq<Seq<char>>, n: int) -> int
    decreases n,
{
    if n <= 0 {
        bw - 1
    } else {
        let p = min_start_upto(font, bw, bh, bg, fg, align, lines, n - 1);
        let s = line_start(font, bw, bh, bg, fg, align, lines[n - 1]);
        if s < p {
            s
        } else {
            p
        }
    }
}

/// Largest placed end (start + width) across the first `n` lines, seeded
/// with 0.
pub open spec fn max_end_upto(font: Seq<u8>, bw: int, bh: int, bg: Rgba8, fg: Rgba8, align: TextAlign, lines: Seq<Seq<char>>, n: int) -> int
    decreases n,
{
    if n <= 0 {
        0
    } else {
        let p = max_end_upto(font, bw, bh, bg, fg, align, lines, n - 1);
        let e = line_start(font, bw, bh, bg, fg, align, lines[n - 1]) + line_placed_w(font, bw,
            bh, bg, fg, align, lines[n - 1]);
        if e > p {
            e
        } else {
            p
        }
    }
}

/// Horizontal ink start of the rendered text: the placed start of a single
/// line, or the smallest placed start across stacked lines.
pub open spec fn text_ink_start(font: Seq<u8>, text: Seq<char>, bw: int, height: int, spacing: int, bg: Rgba8, fg: Rgba8, align: TextAlign) -> int {
    if text_nlines(text) == 1 {
        line_start(font, bw, height, bg, fg, align, text)
    } else {
        min_start_upto(font, bw, spec_section_height(height, spacing, text_nlines(text)), bg, fg,
            align, split_lines(text), text_nlines(text))
    }
}

/// Horizontal ink width of the rendered text: the placed width of a single
/// line, or the extent between the smallest start and the largest end
/// across stacked lines.
pub open spec fn text_ink_width(font: Seq<u8>, text: Seq<char>, bw: int, height: int, spacing: int, bg: Rgba8, fg: Rgba8, align: TextAlign) -> int {
    if text_nlines(text) == 1 {
        line_placed_w(font, bw, height, bg, fg, align, text)
    } else {
        max_end_upto(font, bw, spec_section_height(height, spacing, text_nlines(text)), bg, fg,
            align, split_lines(text), text_nlines(text)) - text_ink_start(font, text, bw, height,
            spacing, bg, fg, align)
    }
}

/// Channel `c` at (x, y) of the first `upto` stacked line slots: row y
/// falls in slot k = y / (sect + sp) at slot row y % (sect + sp), showing
/// that line's render when inside the slot's section, and blank rows
/// between and below the slots.
pub open spec fn multi_render_chan(font: Seq<u8>, bw: int, sect: int, sp: int, bg: Rgba8, fg: Rgba8, align: TextAlign, lines: Seq<Seq<char>>, upto: int, x: int, y: int, c: int) -> u8 {
    if sect + sp <= 0 {
        0u8
    } else {
        let k = y / (sect + sp);
        let dy = y % (sect + sp);
        if 0 <= k < upto && dy < sect {
            line_render_chan(font, bw, sect, bg, fg, align, lines[k], x, dy, c)
        } else {
            0u8
        }
    }
}

/// Channel `c` at (x, y) of a rendered multi-line text: the stacked line
/// slots, recolored through the gradient where one is given.
pub open spec fn text_multi_chan(font: Seq<u8>, gradient: Option<RasterImage>, bw: int, height: int, sp: int, bg: Rgba8, fg: Rgba8, align: TextAlign, text: Seq<char>, x: int, y: int, c: int) -> u8 {
    let n = text_nlines(text);
    let sect = spec_section_height(height, sp, n);
    let lines = split_lines(text);
    match gradient {
        Option::None => multi_render_chan(font, bw, sect, sp, bg, fg, align, lines, n, x, y, c),
        Option::Some(g) => crate::gradient::gradient_px(
            multi_render_chan(font, bw, sect, sp, bg, fg, align, lines, n, x, y, 0),
            multi_render_chan(font, bw, sect, sp, bg, fg, align, lines, n, x, y, 1),
            multi_render_chan(font, bw, sect, sp, bg, fg, align, lines, n, x, y, 2),
            multi_render_chan(font, bw, sect, sp, bg, fg, align, lines, n, x, y, 3),
            g,
            x,
            y,
            c,
        ),
    }
}

/// Channel `c` at (x, y) of a rendered single-line text: the line's render
/// in the full box, recolored through the gradient where one is given.
pub open spec fn text_single_chan(font: Seq<u8>, gradient: Option<RasterImage>, bw: int, bh: int, bg: Rgba8, fg: Rgba8, align: TextAlign, text: Seq<char>, x: int, y: int, c: int) -> u8 {
    match gradient {
        Option::None => line_render_chan(font, bw, bh, bg, fg, align, text, x, y, c),
        Option::Some(g) => crate::gradient::gradient_px(
            line_render_chan(font, bw, bh, bg, fg, align, text, x, y, 0),
            line_render_chan(font, bw, bh, bg, fg, align, text, x, y, 1),
            line_render_chan(font, bw, bh, bg, fg, align, text, x, y, 2),
            line_render_chan(font, bw, bh, bg, fg, align, text, x, y, 3),
            g,
            x,
            y,
            c,
        ),
    }
}

/// Channel `c` at (x, y) of a rendered text, one line or many.
pub open spec fn text_render_chan(font: Seq<u8>, gradient: Option<RasterImage>, bw: int, height: int, sp: int, bg: Rgba8, fg: Rgba8, align: TextAlign, text: Seq<char>, x: int, y: int, c: int) -> u8 {
    if text_nlines(text) == 1 {
        text_single_chan(font, gradient, bw, height, bg, fg, align, text, x, y, c)
    } else {
        text_multi_chan(font, gradient, bw, height, sp, bg, fg, align, text, x, y, c)
    }
}

/// Render a text, split on the `\n` marker into stacked line slots, into a
/// (width, height) raster, then optionally recolor its ink through the
/// gradient. Returns the raster, the horizontal ink start, and the ink
/// width — the bounding box of placed content, not of the padded box. All
/// color channels are zero outside that bounding box.
pub fn generate_text_image(text: &str, font_data: &[u8], gradient: &Option<RasterImage>, width: u32, height: u32, background_color: Rgba8, text_color: Rgba8, text_align: &TextAlign, line_spacing: u8) -> (r: Result<(RasterImage, u32, u32), String>)
    requires
        height as int * 5 <= u16::MAX as int,
        width as int * height as int * 4 <= usize::MAX as int,
        width <= i32::MAX as u32,
        height <= i32::MAX as u32,
        gradient matches Some(g) ==> g.wf(),
        line_spacing as int * (text_nlines(text@) - 1) <= height as int,
        text_nlines(text@) > 1 ==> width >= 1,
    ensures
        (r is Err) == text_render_fails(font_data@, text@, height as int, line_spacing as int),
        !font_ok(font_data@) ==> (r matches Err(m) && m@ == "Unable to read font"@),
        r matches Ok(t) ==> t.0.wf() && t.0.width == width && t.0.height == height
            && t.1 as int == text_ink_start(font_data@, text@, width as int, height as int,
            line_spacing as int, background_color, text_color, *text_align)
            && t.2 as int == text_ink_width(font_data@, text@, width as int, height as int,
            line_spacing as int, background_color, text_color, *text_align)
            && t.1 as int + t.2 as int <= width as int + width as int
            && forall|x: int, y: int, c: int|
            0 <= x < width && 0 <= y < height && 0 <= c < 3 && !(t.1 <= x < t.1 + t.2)
                ==> t.0.chan(x, y, c) == 0,
        text_nlines(text@) == 1 ==> (r matches Ok(t) ==> forall|x: int, y: int, c: int|
            0 <= x < width && 0 <= y < height && 0 <= c < 4 ==> t.0.chan(x, y, c)
                == text_single_chan(font_data@, *gradient, width as int, height as int,
                background_color, text_color, *text_align, text@, x, y, c)),
        text_nlines(text@) > 1 ==> (r matches Ok(t) ==> forall|x: int, y: int, c: int|
            0 <= x < width && 0 <= y < height && 0 <= c < 4 ==> t.0.chan(x, y, c)
                == text_multi_chan(font_data@, *gradient, width as int, height as int,
                line_spacing as int, background_color, text_color, *text_align, text@, x, y, c)),
{
    let chars = chars_of_str(text);
    proof {
        assert(chars@.skip(0) =~= chars@);
        crate::textimage::lemma_split_lines_len(text@);
    }
    let lines = split_text(&chars, 0);
    let nlines: usize = lines.len();
    if nlines == 1 {
        proof {
            lemma_split_single(text@);
            assert(split_lines(text@)[0] == text@);
        }
        let (img, start, new_width) = match generate_text_image_single_line(&chars, font_data,
            width, height, background_color, text_color, text_align) {
            Ok(t) => t,
            Err(e) => {
                return Err(e);
            },
        };
        let ghost imgv = img;
        let out = match gradient {
            Some(g) => apply_gradient(&img, g),
            None => img,
        };
        proof {
            assert forall|x: int, y: int, c: int|
                0 <= x < width && 0 <= y < height && 0 <= c < 4
                    implies out.chan(x, y, c) == text_single_chan(font_data@, *gradient,
                    width as int, height as int, background_color, text_color, *text_align,
                    text@, x, y, c) by {
            }
        }
        return Ok((out, start, new_width));
    }
    let spaces64: u64 = line_spacing as u64 * (nlines as u64 - 1);
    let spaces: u32 = spaces64 as u32;
    let sect64: u64 = (height as u64 - spaces64) / nlines as u64;
    let section_height: u32 = sect64 as u32;
    proof {
        lemma_sections_fit(height as int, line_spacing as int, nlines as int);
        assert(section_height as int == spec_section_height(height as int, line_spacing as int,
            nlines as int));
        assert(section_height as int * 5 <= height as int * 5) by (nonlinear_arith)
            requires 0 <= section_height as int <= height as int;
        assert(width as int * section_height as int * 4 <= width as int * height as int * 4)
            by (nonlinear_arith)
            requires 0 <= section_height as int <= height as int, width as int >= 0;
    }
    let mut rgba_img = RasterImage::blank(width, height);
    let mut smallest_start: u32 = width - 1;
    let mut biggest_end: u32 = 0;
    let mut y_off: u64 = 0;
    let ghost fontv = font_data@;
    let ghost sect = section_height as int;
    let ghost linesv = split_lines(text@);
    let mut n: usize = 0;
    while n < nlines
        invariant
            nlines == lines@.len(),
            nlines == linesv.len(),
            nlines >= 2,
            forall|i: int| 0 <= i < nlines ==> lines@[i]@ == linesv[i],
            fontv == font_data@,
            linesv == split_lines(text@),
            n >= 1 ==> font_ok(fontv),
            sect == section_height as int,
            sect == spec_section_height(height as int, line_spacing as int, nlines as int),
            section_height <= height,
            height as int * 5 <= u16::MAX as int,
            width as int * height as int * 4 <= usize::MAX as int,
            width as int * section_height as int * 4 <= usize::MAX as int,
            width <= i32::MAX as u32,
            height <= i32::MAX as u32,
            width >= 1,
            nlines as int * sect + (nlines - 1) * line_spacing as int <= height as int,
            n <= nlines,
            rgba_img.wf(),
            rgba_img.width == width,
            rgba_img.height == height,
            forall|i: int| 0 <= i < n ==> font_renders(fontv, linesv[i]) && line_fits(fontv,
                sect, linesv[i]),
            smallest_start as int == min_start_upto(fontv, width as int, sect, background_color,
                text_color, *text_align, linesv, n as int),
            biggest_end as int == max_end_upto(fontv, width as int, sect, background_color,
                text_color, *text_align, linesv, n as int),
            smallest_start < width,
            biggest_end <= width,
            n >= 1 ==> biggest_end >= smallest_start,
            y_off as int == n as int * (sect + line_spacing as int),
            forall|x: int, y: int, c: int|
                0 <= x < width && 0 <= y < height && 0 <= c < 3 && !(smallest_start as int <= x
                    < biggest_end as int) ==> #[trigger] rgba_img.chan(x, y, c) == 0,
            forall|x: int, y: int, c: int|
                0 <= x < width && 0 <= y < height && 0 <= c < 4
                    ==> #[trigger] rgba_img.chan(x, y, c) == multi_render_chan(fontv, width as int,
                    sect, line_spacing as int, background_color, text_color, *text_align, linesv,
                    n as int, x, y, c),
        decreases nlines - n,
    {
        let line = &lines[n];
        let (dyn_img, start, new_width) = match generate_text_image_single_line(line, font_data,
            width, section_height, background_color, text_color, text_align) {
            Ok(t) => t,
            Err(e) => {
                proof {
                    assert(!font_renders(fontv, linesv[n as int]) || !line_fits(fontv, sect,
                        linesv[n as int]));
                    assert(text_render_fails(font_data@, text@, height as int,
                        line_spacing as int));
                }
                return Err(e);
            },
        };
        proof {
            assert(n as int * (sect + line_spacing as int) + sect <= height as int)
                by (nonlinear_arith)
                requires nlines as int * sect + (nlines as int - 1) * (line_spacing as int)
                    <= height as int, n as int <= nlines as int - 1, 0 <= n as int, sect >= 0,
                    line_spacing as int >= 0;
        }
        let ghost prev_img = rgba_img;
        copy_image(&dyn_img, &mut rgba_img, 0, y_off as i32);
        if start < smallest_start {
            smallest_start = start;
        }
        if start + new_width > biggest_end {
            biggest_end = start + new_width;
        }
        proof {
            assert forall|x: int, y: int, c: int|
                0 <= x < width && 0 <= y < height && 0 <= c < 3 && !(smallest_start as int <= x
                    < biggest_end as int) implies #[trigger] rgba_img.chan(x, y, c) == 0 by {
                if 0 <= y - (y_off as int) && y - (y_off as int) < dyn_img.height as int {
                    assert(rgba_img.chan(x, y, c) == dyn_img.chan(x, y - y_off as int, c));
                }
            }
            let per = sect + line_spacing as int;
            assert forall|x: int, y: int, c: int|
                0 <= x < width && 0 <= y < height && 0 <= c < 4
                    implies #[trigger] rgba_img.chan(x, y, c) == multi_render_chan(fontv,
                    width as int, sect, line_spacing as int, background_color, text_color,
                    *text_align, linesv, n as int + 1, x, y, c) by {
                if per > 0 {
                    lemma_fundamental_div_mod(y, per);
                    assert(0 <= y % per < per) by (nonlinear_arith)
                        requires per > 0, y >= 0;
                    if 0 <= y - (y_off as int) && y - (y_off as int) < sect {
                        vstd::arithmetic::div_mod::lemma_fundamental_div_mod_converse(y, per,
                            n as int, y - y_off as int);
                        assert(y / per == n as int && y % per == y - y_off as int);
                        assert(lines@[n as int]@ == linesv[n as int]);
                        assert(dyn_img.chan(x, y - y_off as int, c) == line_render_chan(fontv,
                            width as int, sect, background_color, text_color, *text_align,
                            linesv[n as int], x, y - y_off as int, c));
                        assert(rgba_img.chan(x, y, c) == dyn_img.chan(x, y - y_off as int, c));
                    } else {
                        assert(rgba_img.chan(x, y, c) == prev_img.chan(x, y, c));
                        if y / per == n as int {
                            assert(y - y_off as int == y % per) by (nonlinear_arith)
                                requires y == per * (y / per) + y % per, y / per == n as int,
                                    y_off as int == n as int * per;
                            assert(y % per >= sect);
                        }
                    }
                } else {
                    assert(rgba_img.chan(x, y, c) == prev_img.chan(x, y, c));
                }
            }
            assert((n as int + 1) * (sect + line_spacing as int) == n as int * (sect
                + line_spacing as int) + (sect + line_spacing as int)) by (nonlinear_arith);
        }
        y_off = y_off + section_height as u64 + line_spacing as u64;
        n = n + 1;
    }
    proof {
        assert(linesv.len() > 1);
    }
    let dyn_img = rgba_img;
    let out = match gradient {
        Some(g) => apply_gradient(&dyn_img, g),
        None => dyn_img,
    };
    proof {
        assert forall|x: int, y: int, c: int|
            0 <= x < width && 0 <= y < height && 0 <= c < 4
                implies out.chan(x, y, c) == text_multi_chan(font_data@, *gradient, width as int,
                height as int, line_spacing as int, background_color, text_color, *text_align,
                text@, x, y, c) by {
        }
    }
    Ok((out, smallest_start, biggest_end - smallest_start))
}

} // verus!
