use crate::raster::RasterImage;
use crate::TextAlign;
use vstd::arithmetic::div_mod::{lemma_div_pos_is_pos, lemma_multiply_divide_lt};
use vstd::prelude::*;

verus! {

/// The pixel bytes that Lanczos3 resampling produces for the given source
/// raster and target dimensions. A pure function of its arguments; pinned
/// down only where the resampler's source states something directly.
pub uninterp spec fn resampled(pixels: Seq<u8>, w: int, h: int, nw: int, nh: int) -> Seq<u8>;

/// Relies on image::imageops::resize with FilterType::Lanczos3: the result
/// has exactly the requested dimensions with 4 bytes per pixel, is a pure
/// function of the source raster and the requested dimensions, and — per the
/// resampler's own same-size shortcut — is a plain copy when the requested
/// dimensions equal the source's.
#[verifier::external_body]
pub(crate) fn lanczos_resize(img: &RasterImage, nw: u32, nh: u32) -> (r: RasterImage)
    requires
        img.wf(),
        nw as int * nh as int * 4 <= usize::MAX as int,
    ensures
        r.wf(),
        r.width == nw,
        r.height == nh,
        r.pixels@ == resampled(img.pixels@, img.width as int, img.height as int, nw as int, nh as int),
        nw == img.width && nh == img.height ==> r.pixels@ == img.pixels@,
{
    let buf = image::RgbaImage::from_raw(img.width, img.height, img.pixels.clone()).unwrap();
    let out = image::imageops::resize(&buf, nw, nh, image::imageops::FilterType::Lanczos3);
    RasterImage { width: nw, height: nh, pixels: out.into_raw() }
}

/// Width of a source raster scaled to fit a target box, aspect preserved:
/// bound by the target height when the source is proportionally narrower
/// than the target, else by the target width.
pub open spec fn fit_width(sw: int, sh: int, tw: int, th: int) -> int {
    if sw == 0 || sh == 0 {
        0
    } else if sw * th < tw * sh {
        sw * th / sh
    } else {
        tw
    }
}

/// Height counterpart of `fit_width`.
pub open spec fn fit_height(sw: int, sh: int, tw: int, th: int) -> int {
    if sw == 0 || sh == 0 {
        0
    } else if sw * th < tw * sh {
        th
    } else {
        sh * tw / sw
    }
}

/// Horizontal placement of the scaled raster inside the target box: the
/// alignment decides it when the scaled raster is bound by the target
/// height; a width-bound raster always starts at 0.
pub open spec fn fit_start(sw: int, sh: int, tw: int, th: int, align: TextAlign) -> int {
    if sw != 0 && sh != 0 && sw * th < tw * sh {
        match align {
            TextAlign::CENTER => (tw - fit_width(sw, sh, tw, th)) / 2,
            TextAlign::LEFT => 0,
            TextAlign::RIGHT => tw - fit_width(sw, sh, tw, th),
        }
    } else {
        0
    }
}

/// A product of two 32-bit values fits in 64 bits.
pub proof fn lemma_u32_mul_fits(a: int, b: int)
    requires
        0 <= a <= 0xffff_ffff,
        0 <= b <= 0xffff_ffff,
    ensures
        0 <= a * b <= 0xffff_ffff_ffff_ffff,
{
    assert(a * b <= 0xffff_ffff * 0xffff_ffff) by (nonlinear_arith)
        requires 0 <= a <= 0xffff_ffff, 0 <= b <= 0xffff_ffff;
}

/// The scaled dimensions never exceed the target box.
pub proof fn lemma_fit_dims_bounds(sw: int, sh: int, tw: int, th: int)
    requires
        0 <= sw,
        0 <= sh,
        0 <= tw,
        0 <= th,
    ensures
        0 <= fit_width(sw, sh, tw, th) <= tw,
        0 <= fit_height(sw, sh, tw, th) <= th,
        0 <= fit_start(sw, sh, tw, th, TextAlign::CENTER) <= tw - fit_width(sw, sh, tw, th),
        0 <= fit_start(sw, sh, tw, th, TextAlign::LEFT) <= tw - fit_width(sw, sh, tw, th),
        0 <= fit_start(sw, sh, tw, th, TextAlign::RIGHT) <= tw - fit_width(sw, sh, tw, th),
{
    if sw != 0 && sh != 0 {
        if sw * th < tw * sh {
            lemma_div_pos_is_pos(sw * th, sh);
            assert(sw * th < sh * tw) by (nonlinear_arith)
                requires sw * th < tw * sh;
            lemma_multiply_divide_lt(sw * th, sh, tw);
        } else {
            lemma_div_pos_is_pos(sh * tw, sw);
            assert(sh * tw <= sw * th) by (nonlinear_arith)
                requires sw * th >= tw * sh;
            assert(sh * tw / sw <= th) by (nonlinear_arith)
                requires sw > 0, th >= 0, sh * tw <= sw * th;
        }
    }
}

/// The scaled dimensions keep the source aspect ratio to within one pixel
/// of rounding: the exact cross products differ by less than one
/// denominator.
pub proof fn lemma_fit_preserves_aspect(sw: int, sh: int, tw: int, th: int)
    requires
        0 < sw,
        0 < sh,
        0 <= tw,
        0 <= th,
    ensures
        sw * th < tw * sh ==> fit_width(sw, sh, tw, th) * sh <= sw * th
            < (fit_width(sw, sh, tw, th) + 1) * sh,
        sw * th >= tw * sh ==> fit_height(sw, sh, tw, th) * sw <= sh * tw
            < (fit_height(sw, sh, tw, th) + 1) * sw,
{
    if sw * th < tw * sh {
        assert(sw * th / sh * sh <= sw * th < (sw * th / sh + 1) * sh) by (nonlinear_arith)
            requires sh > 0, sw * th >= 0;
    } else {
        assert(sh * tw / sw * sw <= sh * tw < (sh * tw / sw + 1) * sw) by (nonlinear_arith)
            requires sw > 0, sh * tw >= 0;
    }
}

/// Compute the fitted dimensions of a source raster inside a target box.
pub fn fit_dims(sw: u32, sh: u32, tw: u32, th: u32) -> (r: (u32, u32))
    ensures
        r.0 == fit_width(sw as int, sh as int, tw as int, th as int),
        r.1 == fit_height(sw as int, sh as int, tw as int, th as int),
        r.0 <= tw,
        r.1 <= th,
{
    proof {
        lemma_fit_dims_bounds(sw as int, sh as int, tw as int, th as int);
        lemma_u32_mul_fits(sw as int, th as int);
        lemma_u32_mul_fits(tw as int, sh as int);
        lemma_u32_mul_fits(sh as int, tw as int);
    }
    if sw == 0 || sh == 0 {
        (0, 0)
    } else {
        let a: u64 = sw as u64 * th as u64;
        let b: u64 = tw as u64 * sh as u64;
        if a < b {
            ((a / (sh as u64)) as u32, th)
        } else {
            (tw, ((sh as u64 * tw as u64) / (sw as u64)) as u32)
        }
    }
}

/// Channel `c` of the pixel at (x, y) after a raster with byte buffer `p`
/// and size (sw, sh) is scaled to fit a (tw, th) box and placed per the
/// alignment, on a transparent black background.
pub open spec fn fitted_chan_seq(p: Seq<u8>, sw: int, sh: int, tw: int, th: int, align: TextAlign, x: int, y: int, c: int) -> u8 {
    let nw = fit_width(sw, sh, tw, th);
    let nh = fit_height(sw, sh, tw, th);
    let xs = fit_start(sw, sh, tw, th, align);
    let ys = (th - nh) / 2;
    if xs <= x < xs + nw && ys <= y < ys + nh {
        resampled(p, sw, sh, nw, nh)[((y - ys) * nw + (x - xs)) * 4 + c]
    } else {
        0u8
    }
}

/// `fitted_chan_seq` of a raster value.
pub open spec fn fitted_chan(img: RasterImage, tw: int, th: int, align: TextAlign, x: int, y: int, c: int) -> u8 {
    fitted_chan_seq(img.pixels@, img.width as int, img.height as int, tw, th, align, x, y, c)
}

/// Fit `img` into a (width, height) box, preserving aspect ratio, placing a
/// height-bound result horizontally per `text_align` and a width-bound one
/// vertically centered. Returns the composited raster, the horizontal start
/// of the placed content, and the placed width. A source already of the
/// target size is returned unchanged with offset 0.
pub fn resize_image_to_fit(img: &RasterImage, width: u32, height: u32, text_align: &TextAlign) -> (r: (RasterImage, u32, u32))
    requires
        img.wf(),
        width as int * height as int * 4 <= usize::MAX as int,
        width <= i32::MAX as u32,
        height <= i32::MAX as u32,
    ensures
        r.0.wf(),
        r.0.width == width,
        r.0.height == height,
        r.1 + r.2 <= width,
        img.width == width && img.height == height ==> r.0.pixels@ == img.pixels@ && r.1 == 0
            && r.2 == width,
        !(img.width == width && img.height == height) ==> r.1 == fit_start(img.width as int,
            img.height as int, width as int, height as int, *text_align) && r.2 == fit_width(
            img.width as int, img.height as int, width as int, height as int)
            && forall|x: int, y: int, c: int|
            0 <= x < width && 0 <= y < height && 0 <= c < 4
                ==> r.0.chan(x, y, c) == fitted_chan(*img, width as int, height as int, *text_align, x, y, c),
{
    let sw: u32 = img.width;
    let sh: u32 = img.height;
    proof {
        lemma_fit_dims_bounds(sw as int, sh as int, width as int, height as int);
    }
    if width == sw && height == sh {
        return (img.copy_of(), 0, width);
    }
    let (nw, nh): (u32, u32) = fit_dims(sw, sh, width, height);
    proof {
        lemma_u32_mul_fits(sw as int, height as int);
        lemma_u32_mul_fits(width as int, sh as int);
    }
    let height_bound: bool = sw != 0 && sh != 0 && (sw as u64 * height as u64) < (width as u64
        * sh as u64);
    let xs: u32 = if height_bound {
        match text_align {
            TextAlign::CENTER => (width - nw) / 2,
            TextAlign::LEFT => 0,
            TextAlign::RIGHT => width - nw,
        }
    } else {
        0
    };
    let ys: u32 = (height - nh) / 2;
    proof {
        assert(nw as int * nh as int * 4 <= width as int * height as int * 4) by (nonlinear_arith)
            requires 0 <= nw as int <= width as int, 0 <= nh as int <= height as int;
    }
    let reduced = lanczos_resize(img, nw, nh);
    let mut canvas = RasterImage::blank(width, height);
    crate::raster::copy_image(&reduced, &mut canvas, xs as i32, ys as i32);
    proof {
        let swi = sw as int;
        let shi = sh as int;
        let twi = width as int;
        let thi = height as int;
        assert(xs as int == fit_start(swi, shi, twi, thi, *text_align));
        assert forall|x: int, y: int, c: int|
            0 <= x < twi && 0 <= y < thi && 0 <= c < 4
                implies canvas.chan(x, y, c) == fitted_chan(*img, twi, thi, *text_align, x, y, c) by {
            crate::raster::lemma_pix_bounds(twi, thi, x, y);
            if xs as int <= x < xs as int + nw as int && ys as int <= y < ys as int + nh as int {
                assert(canvas.chan(x, y, c) == reduced.chan(x - xs as int, y - ys as int, c));
            }
        }
    }
    (canvas, xs, nw)
}

} // verus!
