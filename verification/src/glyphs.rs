use rusttype::{point, Font, Scale};
use vstd::prelude::*;

verus! {

/// Integer pixel metrics of one laid-out glyph at a fixed scale: rounded
/// horizontal metrics and the integer pixel bounding box (absent for
/// whitespace glyphs).
#[derive(Clone, Copy, PartialEq, Eq, Structural, Debug)]
pub struct GlyphInfo {
    pub advance: i64,
    pub left_bearing: i64,
    pub has_bb: bool,
    pub bb_min_y: i64,
    pub bb_max_y: i64,
    pub bb_width: i64,
}

/// Whether rusttype accepts the byte buffer as a font.
pub uninterp spec fn font_ok(data: Seq<u8>) -> bool;

/// Whether the font parses and can lay out `text`: every character of the
/// text maps (with the not-defined glyph as fallback) to a glyph id below
/// the font's glyph count that carries horizontal metrics. Laying out or
/// drawing text through rusttype is free of panics exactly under this
/// condition. A pure function of the font bytes and the text.
pub uninterp spec fn font_renders(data: Seq<u8>, text: Seq<char>) -> bool;

/// The glyph metrics rusttype's layout produces for a text at a uniform
/// scale, one entry per character, rounded to integers. A pure function of
/// the font bytes, the scale and the text.
pub uninterp spec fn glyphs_of(data: Seq<u8>, scale: int, text: Seq<char>) -> Seq<GlyphInfo>;

/// The font's scaled ascent, rounded up. A pure function of the font bytes
/// and the scale.
pub uninterp spec fn ascent_of(data: Seq<u8>, scale: int) -> int;

/// Relies on String: FromIterator<&char>: collecting characters builds
/// the string of exactly those characters.
#[verifier::external_body]
pub(crate) fn string_from_chars(v: &Vec<char>) -> (s: String)
    ensures
        s@ == v@,
{
    v.iter().collect()
}

/// Relies on ttf-parser's Face::from_slice, glyph_index, number_of_glyphs,
/// glyph_hor_advance and glyph_hor_side_bearing, at the same version
/// rusttype embeds: rusttype's Font::try_from_bytes is Face::from_slice on
/// the same bytes, its layout asserts each character's glyph id (with id 0
/// as fallback) below the glyph count and unwraps that glyph's hmtx advance
/// and side bearing, and this probe replays exactly those lookups.
#[verifier::external_body]
pub(crate) fn font_usable(font_data: &[u8], text: &str) -> (b: bool)
    ensures
        b == font_renders(font_data@, text@),
        b ==> font_ok(font_data@),
{
    let face = match ttf_parser::Face::from_slice(font_data, 0) {
        Ok(f) => f,
        Err(_) => return false,
    };
    let n = face.number_of_glyphs();
    text.chars().all(|c| {
        let id = face.glyph_index(c).unwrap_or(ttf_parser::GlyphId(0));
        id.0 < n && face.glyph_hor_advance(id).is_some() && face.glyph_hor_side_bearing(
            id).is_some()
    })
}

/// Relies on rusttype's Font::try_from_bytes and Font::layout: on a font
/// that can lay this text out (see `font_usable`) parsing succeeds and
/// layout yields one glyph per character, deterministically, without
/// panicking; the closure only reads out each glyph's metric fields,
/// rounded to integers.
#[verifier::external_body]
pub(crate) fn layout_line(font_data: &[u8], scale_px: u16, text: &str) -> (r: Vec<GlyphInfo>)
    requires
        font_renders(font_data@, text@),
    ensures
        r@ == glyphs_of(font_data@, scale_px as int, text@),
        r@.len() == text@.len(),
{
    let font = Font::try_from_bytes(font_data).unwrap();
    let scale = Scale::uniform(scale_px.into());
    font.layout(text, scale, point(0u8.into(), 0u8.into())).map(|g| {
        let h = g.unpositioned().h_metrics();
        let bb = g.pixel_bounding_box();
        GlyphInfo {
            advance: h.advance_width.round() as i64,
            left_bearing: h.left_side_bearing.round() as i64,
            has_bb: bb.is_some(),
            bb_min_y: bb.map_or(0, |b| b.min.y as i64),
            bb_max_y: bb.map_or(0, |b| b.max.y as i64),
            bb_width: bb.map_or(0, |b| (b.max.x - b.min.x) as i64),
        }
    }).collect()
}

/// Relies on rusttype's Font::try_from_bytes and Font::v_metrics: the
/// scaled ascent comes from the hhea table alone, without a panic path,
/// and is a pure function of the font bytes and the scale.
#[verifier::external_body]
pub(crate) fn font_ascent(font_data: &[u8], scale_px: u16) -> (r: Option<i64>)
    ensures
        (r is Some) == font_ok(font_data@),
        r matches Some(a) ==> a as int == ascent_of(font_data@, scale_px as int),
{
    let font = Font::try_from_bytes(font_data)?;
    Some(font.v_metrics(Scale::uniform(scale_px.into())).ascent.ceil() as i64)
}

/// `x` clamped to the range of i64.
pub open spec fn sat64(x: int) -> int {
    if x > i64::MAX as int {
        i64::MAX as int
    } else if x < i64::MIN as int {
        i64::MIN as int
    } else {
        x
    }
}

/// `x` clamped to the range of u32.
pub open spec fn clamp_u32(x: int) -> int {
    if x > u32::MAX as int {
        u32::MAX as int
    } else if x < 0 {
        0
    } else {
        x
    }
}

/// `x` clamped to the range of i32.
pub open spec fn clamp_i32(x: int) -> int {
    if x > i32::MAX as int {
        i32::MAX as int
    } else if x < i32::MIN as int {
        i32::MIN as int
    } else {
        x
    }
}

/// Sum of the glyphs' advance widths, saturating at the i64 range.
pub open spec fn sum_advance(gs: Seq<GlyphInfo>) -> int
    decreases gs.len(),
{
    if gs.len() == 0 {
        0
    } else {
        sat64(sum_advance(gs.drop_last()) + gs.last().advance as int)
    }
}

/// The residual trailing space after a glyph: its advance minus its left
/// bearing minus its inked width.
pub open spec fn glyph_rsb(g: GlyphInfo) -> int {
    g.advance as int - g.left_bearing as int - (if g.has_bb {
        g.bb_width as int
    } else {
        0
    })
}

/// Measured width of a laid-out line: the advance sum, less the first
/// glyph's left bearing (width starts at the visual left edge) and less the
/// last glyph's residual trailing space. An upper bound used for allocation
/// sizing; the rendered raster is cropped to the true ink afterwards.
pub open spec fn spec_text_width(gs: Seq<GlyphInfo>) -> int {
    if gs.len() == 0 {
        0
    } else {
        clamp_u32(sum_advance(gs) - gs[0].left_bearing as int - glyph_rsb(gs.last()))
    }
}

/// Largest bounding-box bottom across the glyphs, at least 0.
pub open spec fn spec_max_y(gs: Seq<GlyphInfo>) -> int
    decreases gs.len(),
{
    if gs.len() == 0 {
        0
    } else {
        let m = spec_max_y(gs.drop_last());
        if gs.last().has_bb && gs.last().bb_max_y as int > m {
            gs.last().bb_max_y as int
        } else {
            m
        }
    }
}

/// Smallest bounding-box top across the glyphs, at most 0.
pub open spec fn spec_min_y(gs: Seq<GlyphInfo>) -> int
    decreases gs.len(),
{
    if gs.len() == 0 {
        0
    } else {
        let m = spec_min_y(gs.drop_last());
        if gs.last().has_bb && (gs.last().bb_min_y as int) < m {
            gs.last().bb_min_y as int
        } else {
            m
        }
    }
}

/// Measured ink height of a line: the vertical extent of the glyph
/// bounding boxes, not the font's nominal line height.
pub open spec fn spec_text_height(gs: Seq<GlyphInfo>) -> int {
    clamp_u32(spec_max_y(gs) - spec_min_y(gs))
}

/// i64 addition that saturates instead of overflowing.
fn sat_add64(a: i64, b: i64) -> (r: i64)
    ensures
        r as int == sat64(a as int + b as int),
{
    if b > 0 && a > i64::MAX - b {
        i64::MAX
    } else if b < 0 && a < i64::MIN - b {
        i64::MIN
    } else {
        a + b
    }
}

/// Measured width of the laid-out glyphs of one line.
pub fn get_text_width(glyphs: &Vec<GlyphInfo>) -> (w: u32)
    ensures
        w as int == spec_text_width(glyphs@),
{
    let n: usize = glyphs.len();
    if n == 0 {
        return 0;
    }
    let mut sum: i64 = 0;
    let mut i: usize = 0;
    while i < n
        invariant
            n == glyphs@.len(),
            i <= n,
            sum as int == sum_advance(glyphs@.take(i as int)),
        decreases n - i,
    {
        sum = sat_add64(sum, glyphs[i].advance);
        proof {
            assert(glyphs@.take(i as int + 1).drop_last() =~= glyphs@.take(i as int));
            assert(glyphs@.take(i as int + 1).last() == glyphs@[i as int]);
        }
        i = i + 1;
    }
    proof {
        assert(glyphs@.take(n as int) =~= glyphs@);
    }
    let g0 = glyphs[0];
    let gl = glyphs[n - 1];
    let ink: i64 = if gl.has_bb {
        gl.bb_width
    } else {
        0
    };
    let rsb: i128 = gl.advance as i128 - gl.left_bearing as i128 - ink as i128;
    let raw: i128 = sum as i128 - g0.left_bearing as i128 - rsb;
    if raw < 0 {
        0
    } else if raw > u32::MAX as i128 {
        u32::MAX
    } else {
        raw as u32
    }
}

/// Measured ink height of the laid-out glyphs of one line.
pub fn get_text_height(glyphs: &Vec<GlyphInfo>) -> (h: u32)
    ensures
        h as int == spec_text_height(glyphs@),
{
    let n: usize = glyphs.len();
    let mut maxy: i64 = 0;
    let mut miny: i64 = 0;
    let mut i: usize = 0;
    while i < n
        invariant
            n == glyphs@.len(),
            i <= n,
            maxy as int == spec_max_y(glyphs@.take(i as int)),
            miny as int == spec_min_y(glyphs@.take(i as int)),
        decreases n - i,
    {
        let g = glyphs[i];
        if g.has_bb && g.bb_max_y > maxy {
            maxy = g.bb_max_y;
        }
        if g.has_bb && g.bb_min_y < miny {
            miny = g.bb_min_y;
        }
        proof {
            assert(glyphs@.take(i as int + 1).drop_last() =~= glyphs@.take(i as int));
            assert(glyphs@.take(i as int + 1).last() == glyphs@[i as int]);
        }
        i = i + 1;
    }
    proof {
        assert(glyphs@.take(n as int) =~= glyphs@);
    }
    let d: i128 = maxy as i128 - miny as i128;
    if d < 0 {
        0
    } else if d > u32::MAX as i128 {
        u32::MAX
    } else {
        d as u32
    }
}

/// Vertical draw origin that aligns the glyph ink with the top of the
/// raster: the negated ascent plus smallest bounding-box top.
pub fn get_text_y(glyphs: &Vec<GlyphInfo>, ascent: i64) -> (r: i32)
    ensures
        r as int == clamp_i32(-(ascent as int + spec_min_y(glyphs@))),
{
    let n: usize = glyphs.len();
    let mut miny: i64 = 0;
    let mut i: usize = 0;
    while i < n
        invariant
            n == glyphs@.len(),
            i <= n,
            miny as int == spec_min_y(glyphs@.take(i as int)),
        decreases n - i,
    {
        let g = glyphs[i];
        if g.has_bb && g.bb_min_y < miny {
            miny = g.bb_min_y;
        }
        proof {
            assert(glyphs@.take(i as int + 1).drop_last() =~= glyphs@.take(i as int));
            assert(glyphs@.take(i as int + 1).last() == glyphs@[i as int]);
        }
        i = i + 1;
    }
    proof {
        assert(glyphs@.take(n as int) =~= glyphs@);
    }
    let v: i128 = -(ascent as i128 + miny as i128);
    if v > i32::MAX as i128 {
        i32::MAX
    } else if v < i32::MIN as i128 {
        i32::MIN
    } else {
        v as i32
    }
}

/// Horizontal draw origin: the negated left bearing of the first glyph, so
/// the ink starts at the raster's left edge.
pub fn get_text_x(glyphs: &Vec<GlyphInfo>) -> (r: i32)
    ensures
        glyphs@.len() == 0 ==> r == 0,
        glyphs@.len() > 0 ==> r as int == clamp_i32(-(glyphs@[0].left_bearing as int)),
{
    if glyphs.len() == 0 {
        return 0;
    }
    let v: i128 = -(glyphs[0].left_bearing as i128);
    if v > i32::MAX as i128 {
        i32::MAX
    } else if v < i32::MIN as i128 {
        i32::MIN
    } else {
        v as i32
    }
}

/// The characters of a string, as a vector.
pub fn chars_of_str(s: &str) -> (v: Vec<char>)
    ensures
        v@ == s@,
{
    let n: usize = s.unicode_len();
    let mut v: Vec<char> = Vec::new();
    let mut i: usize = 0;
    while i < n
        invariant
            n == s@.len(),
            i <= n,
            v@ == s@.take(i as int),
        decreases n - i,
    {
        let c: char = s.get_char(i);
        v.push(c);
        proof {
            assert(v@ =~= s@.take(i as int + 1));
        }
        i = i + 1;
    }
    proof {
        assert(v@ =~= s@);
    }
    v
}

/// Measure one line of text: the width and height of its ink at the
/// rendering scale (5 times the target height, for sub-pixel precision).
/// The pair is the line's aspect ratio as an exact rational; the scroll
/// decision compares it against the display's.
pub fn get_text_ratio(text: &str, font_data: &[u8], height: u32) -> (r: Result<(u32, u32), String>)
    requires
        height as int * 5 <= u16::MAX as int,
    ensures
        (r is Ok) == font_renders(font_data@, text@),
        r matches Ok(p) ==> p.0 as int == spec_text_width(glyphs_of(font_data@, height as int * 5, text@))
            && p.1 as int == spec_text_height(glyphs_of(font_data@, height as int * 5, text@)),
        r matches Err(m) ==> m@ == "Unable to read font"@,
{
    if !font_usable(font_data, text) {
        return Err("Unable to read font".to_owned());
    }
    let scale: u16 = (height * 5) as u16;
    let glyphs = layout_line(font_data, scale, text);
    Ok((get_text_width(&glyphs), get_text_height(&glyphs)))
}

} // verus!
