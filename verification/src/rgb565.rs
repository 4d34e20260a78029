use crate::raster::{lemma_pix_order, pix, RasterImage};
use crate::resizefit::{fit_dims, fit_height, fit_start, fit_width, fitted_chan, lanczos_resize};
use crate::TextAlign;
use vstd::prelude::*;

verus! {

/// The RGB565 packing of an 8-bit (r, g, b): the top 5 bits hold r >> 3,
/// the middle 6 bits g >> 2, the low 5 bits b >> 3.
pub open spec fn spec_rgb565(r: u8, g: u8, b: u8) -> u16 {
    ((((r as u16) >> 3) << 11) | (((g as u16) >> 2) << 5)) | ((b as u16) >> 3)
}

/// Pack an 8-bit color into 16-bit RGB565. Each field of the result can be
/// read back exactly: this is the packing the display protocol decodes.
pub fn rgb888_to_rgb565(r: u8, g: u8, b: u8) -> (v: u16)
    ensures
        v == spec_rgb565(r, g, b),
        v >> 11 == (r as u16) >> 3,
        (v >> 5) & 0x3f == (g as u16) >> 2,
        v & 0x1f == (b as u16) >> 3,
{
    let r5: u16 = (r as u16) >> 3;
    let g6: u16 = (g as u16) >> 2;
    let b5: u16 = (b as u16) >> 3;
    let v: u16 = ((r5 << 11) | (g6 << 5)) | b5;
    proof {
        lemma_rgb565_fields(r, g, b);
    }
    v
}

/// The three fields of an RGB565 word are recovered exactly by shifts and
/// masks.
pub proof fn lemma_rgb565_fields(r: u8, g: u8, b: u8)
    ensures
        spec_rgb565(r, g, b) >> 11 == (r as u16) >> 3,
        (spec_rgb565(r, g, b) >> 5) & 0x3f == (g as u16) >> 2,
        spec_rgb565(r, g, b) & 0x1f == (b as u16) >> 3,
{
    assert((((((r as u16) >> 3) << 11) | (((g as u16) >> 2) << 5)) | ((b as u16) >> 3)) >> 11
        == (r as u16) >> 3) by (bit_vector);
    assert((((((((r as u16) >> 3) << 11) | (((g as u16) >> 2) << 5)) | ((b as u16) >> 3)) >> 5)
        & 0x3f) == (g as u16) >> 2) by (bit_vector);
    assert((((((r as u16) >> 3) << 11) | (((g as u16) >> 2) << 5)) | ((b as u16) >> 3)) & 0x1f
        == (b as u16) >> 3) by (bit_vector);
}

/// Undoing the 5/6/5 quantization by a left shift recovers each channel to
/// within the bits the packing dropped: at most 7 for red and blue, 3 for
/// green.
pub proof fn lemma_rgb565_round_trip(r: u8, g: u8, b: u8)
    ensures
        ((spec_rgb565(r, g, b) >> 11) << 3) as u8 <= r,
        r < ((spec_rgb565(r, g, b) >> 11) << 3) as u8 + 8,
        (((spec_rgb565(r, g, b) >> 5) & 0x3f) << 2) as u8 <= g,
        g < (((spec_rgb565(r, g, b) >> 5) & 0x3f) << 2) as u8 + 4,
        ((spec_rgb565(r, g, b) & 0x1f) << 3) as u8 <= b,
        b < ((spec_rgb565(r, g, b) & 0x1f) << 3) as u8 + 8,
{
    lemma_rgb565_fields(r, g, b);
    assert((((r as u16) >> 3) << 3) as u8 <= r && r < (((r as u16) >> 3) << 3) as u8 + 8)
        by (bit_vector);
    assert((((g as u16) >> 2) << 2) as u8 <= g && g < (((g as u16) >> 2) << 2) as u8 + 4)
        by (bit_vector);
    assert((((b as u16) >> 3) << 3) as u8 <= b && b < (((b as u16) >> 3) << 3) as u8 + 8)
        by (bit_vector);
}

/// Byte count this display protocol's header announces for a frame. The
/// header field keeps its historical 3-bytes-per-pixel formula even though
/// the encoded payload is 2 bytes per pixel.
pub fn get_dmd_buffer_size(width: u32, height: u32) -> (r: u32)
    requires
        width as int * height as int * 3 <= u32::MAX as int,
    ensures
        r == width as int * height as int * 3,
{
    width * height * 3
}

/// The RGB565 word encoded at display coordinate (x, y) for `img` fitted
/// into a (dw, dh) frame: the packed fitted pixel inside the placed region,
/// 0 (display off) outside it.
pub open spec fn frame_word(img: RasterImage, align: TextAlign, dw: int, dh: int, x: int, y: int) -> u16 {
    spec_rgb565(
        fitted_chan(img, dw, dh, align, x, y, 0),
        fitted_chan(img, dw, dh, align, x, y, 1),
        fitted_chan(img, dw, dh, align, x, y, 2),
    )
}

/// High (first, big-endian) byte of `frame_word`.
pub open spec fn frame_hi(img: RasterImage, align: TextAlign, dw: int, dh: int, x: int, y: int) -> u8 {
    (frame_word(img, align, dw, dh, x, y) >> 8) as u8
}

/// Low (second) byte of `frame_word`.
pub open spec fn frame_lo(img: RasterImage, align: TextAlign, dw: int, dh: int, x: int, y: int) -> u8 {
    (frame_word(img, align, dw, dh, x, y) & 0xff) as u8
}

/// Encode a raster for the display: fit it into the (dmd_width, dmd_height)
/// box preserving aspect, place it per the alignment (horizontally) and
/// centered vertically, pack each placed pixel as big-endian RGB565, and
/// leave every other pixel zero. The payload is exactly 2 bytes per display
/// pixel.
pub fn image2dmdimage(orig_img: &RasterImage, text_align: &TextAlign, dmd_width: u32, dmd_height: u32) -> (r: Result<Vec<u8>, String>)
    requires
        orig_img.wf(),
        dmd_width as int * dmd_height as int * 4 <= usize::MAX as int,
    ensures
        r is Ok,
        r matches Ok(f) ==> f@.len() == dmd_width as int * dmd_height as int * 2
            && forall|x: int, y: int|
            0 <= x < dmd_width && 0 <= y < dmd_height
                ==> f@[pix(dmd_width as int, x, y) * 2] == frame_hi(*orig_img, *text_align,
                dmd_width as int, dmd_height as int, x, y) && f@[pix(dmd_width as int, x, y) * 2
                + 1] == frame_lo(*orig_img, *text_align, dmd_width as int, dmd_height as int, x, y),
        orig_img.width == dmd_width && orig_img.height == dmd_height ==> (r matches Ok(f)
            ==> forall|x: int, y: int|
            0 <= x < dmd_width && 0 <= y < dmd_height
                ==> f@[pix(dmd_width as int, x, y) * 2] == (spec_rgb565(orig_img.chan(x, y, 0),
                orig_img.chan(x, y, 1), orig_img.chan(x, y, 2)) >> 8) as u8 && f@[pix(
                dmd_width as int, x, y) * 2 + 1] == (spec_rgb565(orig_img.chan(x, y, 0),
                orig_img.chan(x, y, 1), orig_img.chan(x, y, 2)) & 0xff) as u8),
{
    let sw: u32 = orig_img.width;
    let sh: u32 = orig_img.height;
    let dw: u32 = dmd_width;
    let dh: u32 = dmd_height;
    let (nw, nh): (u32, u32) = fit_dims(sw, sh, dw, dh);
    proof {
        assert(nw as int * nh as int * 4 <= dw as int * dh as int * 4) by (nonlinear_arith)
            requires 0 <= nw as int <= dw as int, 0 <= nh as int <= dh as int;
    }
    let resized = lanczos_resize(orig_img, nw, nh);
    let xs: u32 = match text_align {
        TextAlign::CENTER => (dw - nw) / 2,
        TextAlign::LEFT => 0,
        TextAlign::RIGHT => dw - nw,
    };
    let ys: u32 = (dh - nh) / 2;
    let mut out: Vec<u8> = Vec::new();
    let mut y: u32 = 0;
    while y < dh
        invariant
            orig_img.wf(),
            resized.wf(),
            resized.width == nw,
            resized.height == nh,
            nw <= dw,
            nh <= dh,
            y <= dh,
            sw == orig_img.width,
            sh == orig_img.height,
            dw == dmd_width,
            dh == dmd_height,
            dw as int * dh as int * 4 <= usize::MAX as int,
            nw as int == fit_width(sw as int, sh as int, dw as int, dh as int),
            nh as int == fit_height(sw as int, sh as int, dw as int, dh as int),
            resized.pixels@ == crate::resizefit::resampled(orig_img.pixels@, sw as int, sh as int, nw as int, nh as int),
            nw != 0 && nh != 0 ==> xs as int == fit_start(sw as int, sh as int, dw as int, dh as int, *text_align),
            xs as int + nw as int <= dw as int,
            ys == (dh - nh) / 2,
            out@.len() == 2 * pix(dw as int, 0, y as int),
            forall|x2: int, y2: int|
                0 <= x2 < dw && 0 <= y2 < y as int
                    ==> #[trigger] out@[pix(dw as int, x2, y2) * 2] == frame_hi(*orig_img,
                    *text_align, dw as int, dh as int, x2, y2) && out@[pix(dw as int, x2, y2) * 2
                    + 1] == frame_lo(*orig_img, *text_align, dw as int, dh as int, x2, y2),
        decreases dh - y,
    {
        let mut x: u32 = 0;
        while x < dw
            invariant
                orig_img.wf(),
                resized.wf(),
                resized.width == nw,
                resized.height == nh,
                nw <= dw,
                nh <= dh,
                y < dh,
                x <= dw,
                sw == orig_img.width,
                sh == orig_img.height,
                dw == dmd_width,
                dh == dmd_height,
                dw as int * dh as int * 4 <= usize::MAX as int,
                nw as int == fit_width(sw as int, sh as int, dw as int, dh as int),
                nh as int == fit_height(sw as int, sh as int, dw as int, dh as int),
                resized.pixels@ == crate::resizefit::resampled(orig_img.pixels@, sw as int, sh as int, nw as int, nh as int),
                nw != 0 && nh != 0 ==> xs as int == fit_start(sw as int, sh as int, dw as int, dh as int, *text_align),
                xs as int + nw as int <= dw as int,
                ys == (dh - nh) / 2,
                out@.len() == 2 * (pix(dw as int, 0, y as int) + x as int),
                forall|x2: int, y2: int|
                    0 <= x2 < dw && (0 <= y2 < y as int || (y2 == y as int && 0 <= x2 < x as int))
                        ==> #[trigger] out@[pix(dw as int, x2, y2) * 2] == frame_hi(*orig_img,
                        *text_align, dw as int, dh as int, x2, y2) && out@[pix(dw as int, x2, y2)
                        * 2 + 1] == frame_lo(*orig_img, *text_align, dw as int, dh as int, x2, y2),
            decreases dw - x,
        {
            let ghost out0 = out@;
            let inside: bool = x >= xs && x < xs + nw && y >= ys && y < ys + nh;
            if inside {
                let px = resized.get_px(x - xs, y - ys);
                let v: u16 = rgb888_to_rgb565(px.r, px.g, px.b);
                out.push((v >> 8) as u8);
                out.push((v & 0xff) as u8);
            } else {
                out.push(0u8);
                out.push(0u8);
            }
            proof {
                let dwi = dw as int;
                let dhi = dh as int;
                let xi = x as int;
                let yi = y as int;
                assert(pix(dwi, xi, yi) == pix(dwi, 0, yi) + xi);
                if inside {
                    assert(out@[pix(dwi, xi, yi) * 2] == frame_hi(*orig_img, *text_align, dwi,
                        dhi, xi, yi));
                    assert(out@[pix(dwi, xi, yi) * 2 + 1] == frame_lo(*orig_img, *text_align,
                        dwi, dhi, xi, yi));
                } else {
                    lemma_rgb565_zero();
                    assert(out@[pix(dwi, xi, yi) * 2] == frame_hi(*orig_img, *text_align, dwi,
                        dhi, xi, yi));
                    assert(out@[pix(dwi, xi, yi) * 2 + 1] == frame_lo(*orig_img, *text_align,
                        dwi, dhi, xi, yi));
                }
                assert forall|x2: int, y2: int|
                    0 <= x2 < dw && (0 <= y2 < yi || (y2 == yi && 0 <= x2 < xi + 1))
                        implies #[trigger] out@[pix(dwi, x2, y2) * 2] == frame_hi(*orig_img,
                        *text_align, dwi, dhi, x2, y2) && out@[pix(dwi, x2, y2) * 2 + 1]
                        == frame_lo(*orig_img, *text_align, dwi, dhi, x2, y2) by {
                    if !(y2 == yi && x2 == xi) {
                        lemma_pix_order(dwi, x2, y2, xi, yi);
                        assert(pix(dwi, x2, y2) >= 0) by (nonlinear_arith)
                            requires 0 <= x2, 0 <= y2, dwi > 0;
                        assert(out0[pix(dwi, x2, y2) * 2] == frame_hi(*orig_img, *text_align,
                            dwi, dhi, x2, y2));
                        assert(out0[pix(dwi, x2, y2) * 2 + 1] == frame_lo(*orig_img,
                            *text_align, dwi, dhi, x2, y2));
                        assert(out@[pix(dwi, x2, y2) * 2] == out0[pix(dwi, x2, y2) * 2]);
                        assert(out@[pix(dwi, x2, y2) * 2 + 1] == out0[pix(dwi, x2, y2) * 2 + 1]);
                    }
                }
            }
            x = x + 1;
        }
        proof {
            assert(pix(dw as int, 0, y as int + 1) == pix(dw as int, 0, y as int) + dw as int)
                by (nonlinear_arith);
        }
        y = y + 1;
    }
    proof {
        assert(2 * pix(dw as int, 0, dh as int) == dw as int * dh as int * 2) by (nonlinear_arith);
        if sw == dw && sh == dh && dw > 0 && dh > 0 {
            let swi = sw as int;
            let shi = sh as int;
            let dwi = dw as int;
            let dhi = dh as int;
            assert(shi * dwi == swi * shi) by (nonlinear_arith)
                requires swi == dwi;
            vstd::arithmetic::div_mod::lemma_div_multiples_vanish(shi, swi);
            assert(nh as int == dhi);
            assert(nw as int == dwi);
            assert(resized.pixels@ == orig_img.pixels@);
            assert forall|x: int, y: int, c: int|
                0 <= x < dwi && 0 <= y < dhi && 0 <= c < 3
                    implies fitted_chan(*orig_img, dwi, dhi, *text_align, x, y, c)
                        == orig_img.chan(x, y, c) by {
                assert(fit_start(swi, shi, dwi, dhi, *text_align) == 0);
                assert(fitted_chan(*orig_img, dwi, dhi, *text_align, x, y, c)
                    == crate::resizefit::resampled(orig_img.pixels@, swi, shi, dwi, dhi)[(y * dwi
                    + x) * 4 + c]);
            }
        }
    }
    Ok(out)
}

/// RGB565 of black is the all-zero word, whose bytes are both zero.
pub proof fn lemma_rgb565_zero()
    ensures
        spec_rgb565(0, 0, 0) == 0,
        (0u16 >> 8) as u8 == 0,
        (0u16 & 0xff) as u8 == 0,
{
    assert((((((0u8 as u16) >> 3) << 11) | (((0u8 as u16) >> 2) << 5)) | ((0u8 as u16) >> 3))
        == 0 && (0u16 >> 8) as u8 == 0 && (0u16 & 0xff) as u8 == 0) by (bit_vector);
}

} // verus!
