use crate::glyphs::font_renders;
use crate::raster::{pix, seq_chan, RasterImage, Rgba8};
use vstd::prelude::*;

verus! {

/// The pixel bytes after imageproc draws the glyphs of `text` at origin
/// (x, y) and uniform scale onto the given RGBA buffer. A pure function of
/// its arguments.
pub uninterp spec fn drawn(pixels: Seq<u8>, w: int, h: int, color: Rgba8, x: int, y: int, scale: int, font: Seq<u8>, text: Seq<char>) -> Seq<u8>;

/// Relies on imageproc's draw_text_mut (over rusttype's layout): on a font
/// that can lay this text out (see `font_usable`) it blends the glyphs of
/// `text` into the canvas deterministically, touches only pixels inside
/// the canvas bounds, and does not panic, so the result is a pure function
/// of the canvas, color, origin, scale, font bytes and text.
#[verifier::external_body]
pub(crate) fn draw_text_raster(img: &RasterImage, color: Rgba8, x: i32, y: i32, scale_px: u16, font_data: &[u8], text: &str) -> (r: RasterImage)
    requires
        img.wf(),
        font_renders(font_data@, text@),
    ensures
        r.wf(),
        r.width == img.width,
        r.height == img.height,
        r.pixels@ == drawn(img.pixels@, img.width as int, img.height as int, color, x as int,
            y as int, scale_px as int, font_data@, text@),
{
    let mut buf = image::RgbaImage::from_raw(img.width, img.height, img.pixels.clone()).unwrap();
    let font = rusttype::Font::try_from_bytes(font_data).unwrap();
    let fg = image::Rgba([color.r, color.g, color.b, color.a]);
    let scale = rusttype::Scale::uniform(scale_px.into());
    imageproc::drawing::draw_text_mut(&mut buf, fg, x, y, scale, &font, text);
    RasterImage { width: img.width, height: img.height, pixels: buf.into_raw() }
}

/// Column `x` of the buffer holds ink: some pixel with a nonzero red,
/// green or blue channel.
pub open spec fn col_has_ink(p: Seq<u8>, w: int, h: int, x: int) -> bool {
    exists|y: int, c: int| 0 <= y < h && 0 <= c < 3 && seq_chan(p, w, x, y, c) != 0
}

/// Rightmost column at or left of `x` that holds ink, or -1 if none does.
pub open spec fn ink_right_edge(p: Seq<u8>, w: int, h: int, x: int) -> int
    decreases x + 1,
{
    if x < 0 {
        -1
    } else if col_has_ink(p, w, h, x) {
        x
    } else {
        ink_right_edge(p, w, h, x - 1)
    }
}

/// Columns free of ink do not move the right edge.
proof fn lemma_ink_edge_skip(p: Seq<u8>, w: int, h: int, x: int, hi: int)
    requires
        x <= hi,
        forall|x2: int| x < x2 <= hi ==> !col_has_ink(p, w, h, x2),
    ensures
        ink_right_edge(p, w, h, hi) == ink_right_edge(p, w, h, x),
    decreases hi - x,
{
    if hi > x {
        lemma_ink_edge_skip(p, w, h, x, hi - 1);
    }
}

/// The right edge is never past the column it starts from.
proof fn lemma_ink_edge_le(p: Seq<u8>, w: int, h: int, x: int)
    requires
        -1 <= x,
    ensures
        ink_right_edge(p, w, h, x) <= x,
    decreases x + 1,
{
    if x >= 0 && !col_has_ink(p, w, h, x) {
        lemma_ink_edge_le(p, w, h, x - 1);
    }
}

/// Crop the raster from the right to its last ink-bearing column; a raster
/// with no ink at all is returned whole. Pixels inside the kept region are
/// unchanged. This trims both the measured-width overestimate and
/// intentional trailing space.
pub fn crop_width_right(dyn_img: &RasterImage) -> (r: RasterImage)
    requires
        dyn_img.wf(),
    ensures
        r.wf(),
        r.height == dyn_img.height,
        r.width as int == crop_w(dyn_img.pixels@, dyn_img.width as int, dyn_img.height as int),
        r.width <= dyn_img.width,
        forall|x: int, y: int, c: int|
            r.in_bounds(x, y) && 0 <= c < 4 ==> r.chan(x, y, c) == dyn_img.chan(x, y, c),
{
    let width: u32 = dyn_img.width;
    let height: u32 = dyn_img.height;
    let ghost p = dyn_img.pixels@;
    let ghost wi = width as int;
    let ghost hi = height as int;
    let mut xr: u32 = width;
    while xr > 0
        invariant
            dyn_img.wf(),
            width == dyn_img.width,
            height == dyn_img.height,
            p == dyn_img.pixels@,
            wi == width as int,
            hi == height as int,
            xr <= width,
            forall|x2: int| xr as int <= x2 < wi ==> !col_has_ink(p, wi, hi, x2),
        decreases xr,
    {
        let x: u32 = xr - 1;
        let mut found: bool = false;
        let mut y: u32 = 0;
        while y < height
            invariant
                dyn_img.wf(),
                width == dyn_img.width,
                height == dyn_img.height,
                p == dyn_img.pixels@,
                wi == width as int,
                hi == height as int,
                x < width,
                y <= height,
                found ==> col_has_ink(p, wi, hi, x as int),
                !found ==> forall|y2: int, c: int|
                    0 <= y2 < y as int && 0 <= c < 3 ==> seq_chan(p, wi, x as int, y2, c) == 0,
            decreases height - y,
        {
            let px = dyn_img.get_px(x, y);
            if px.r != 0 || px.g != 0 || px.b != 0 {
                found = true;
            }
            y = y + 1;
        }
        if found {
            proof {
                lemma_ink_edge_skip(p, wi, hi, x as int, wi - 1);
                lemma_ink_edge_le(p, wi, hi, wi - 1);
            }
            let _n: usize = dyn_img.pixels.len();
            proof {
                assert((x as int + 1) * hi * 4 <= wi * hi * 4) by (nonlinear_arith)
                    requires 0 <= x as int + 1 <= wi, hi >= 0;
            }
            let mut new_img = RasterImage::blank(x + 1, height);
            crate::raster::copy_image(dyn_img, &mut new_img, 0, 0);
            return new_img;
        }
        xr = x;
    }
    proof {
        if wi > 0 {
            lemma_ink_edge_skip(p, wi, hi, -1, wi - 1);
        }
    }
    dyn_img.copy_of()
}

/// Width that `crop_width_right` keeps: one past the last ink column, or
/// the full width when no column holds ink.
pub open spec fn crop_w(p: Seq<u8>, w: int, h: int) -> int {
    let e = ink_right_edge(p, w, h, w - 1);
    if e >= 0 {
        e + 1
    } else {
        w
    }
}

/// The lines of a text, split on the literal two-character marker `\n`
/// (a backslash followed by the letter n, not a newline). Splitting the
/// empty text yields one empty line.
pub open spec fn split_lines(s: Seq<char>) -> Seq<Seq<char>>
    decreases s.len(),
{
    if s.len() == 0 {
        seq![Seq::<char>::empty()]
    } else if s.len() >= 2 && s[0] == '\\' && s[1] == 'n' {
        seq![Seq::<char>::empty()] + split_lines(s.skip(2))
    } else {
        let rest = split_lines(s.skip(1));
        rest.update(0, seq![s[0]] + rest[0])
    }
}

/// A split always yields at least one line.
pub proof fn lemma_split_lines_len(s: Seq<char>)
    ensures
        split_lines(s).len() >= 1,
    decreases s.len(),
{
    if s.len() == 0 {
    } else if s.len() >= 2 && s[0] == '\\' && s[1] == 'n' {
        lemma_split_lines_len(s.skip(2));
    } else {
        lemma_split_lines_len(s.skip(1));
    }
}

/// Split the characters from position `from` on into lines at each `\n`
/// marker.
pub fn split_text(s: &Vec<char>, from: usize) -> (r: Vec<Vec<char>>)
    requires
        from <= s@.len(),
    ensures
        r@.len() == split_lines(s@.skip(from as int)).len(),
        forall|i: int| 0 <= i < r@.len() ==> r@[i]@ == split_lines(s@.skip(from as int))[i],
    decreases s@.len() - from,
{
    let ghost sfx = s@.skip(from as int);
    proof {
        lemma_split_lines_len(sfx);
    }
    let n: usize = s.len();
    if from == n {
        let mut v: Vec<Vec<char>> = Vec::new();
        v.push(Vec::new());
        proof {
            assert(sfx =~= Seq::<char>::empty());
        }
        return v;
    }
    if from + 1 < n && s[from] == '\\' && s[from + 1] == 'n' {
        let mut rest = split_text(s, from + 2);
        rest.insert(0, Vec::new());
        proof {
            assert(s@.skip(from as int + 2) =~= sfx.skip(2));
        }
        rest
    } else {
        let mut rest = split_text(s, from + 1);
        proof {
            assert(s@.skip(from as int + 1) =~= sfx.skip(1));
            lemma_split_lines_len(sfx.skip(1));
        }
        let first = rest.remove(0);
        let mut nf: Vec<char> = Vec::new();
        nf.push(s[from]);
        let mut first = first;
        nf.append(&mut first);
        let mut rest = rest;
        rest.insert(0, nf);
        proof {
            let spec_r = split_lines(sfx);
            assert(sfx[0] == s@[from as int]);
            assert(spec_r == split_lines(sfx.skip(1)).update(0, seq![sfx[0]]
                + split_lines(sfx.skip(1))[0]));
            assert(nf@ =~= seq![sfx[0]] + split_lines(sfx.skip(1))[0]);
            assert forall|i: int| 0 <= i < rest@.len() implies rest@[i]@ == spec_r[i] by {
            }
        }
        rest
    }
}

} // verus!
