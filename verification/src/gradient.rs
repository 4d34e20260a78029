use crate::raster::RasterImage;
use vstd::prelude::*;

verus! {

/// Minimum channel level above which a pixel counts as inked foreground.
pub open spec fn ink_min_value() -> int {
    15
}

/// Alpha level at or above which a pixel counts as solid background.
pub open spec fn ink_max_alpha() -> int {
    245
}

/// An RGBA value is recognizable foreground ink: some color channel
/// exceeds the minimum ink level and the alpha is below the near-opaque
/// threshold.
pub open spec fn is_ink_px(r: u8, g: u8, b: u8, a: u8) -> bool {
    (r > ink_min_value() || g > ink_min_value() || b > ink_min_value()) && a < ink_max_alpha()
}

/// The pixel at (x, y) of `img` is recognizable foreground ink.
pub open spec fn is_ink(img: RasterImage, x: int, y: int) -> bool {
    is_ink_px(img.chan(x, y, 0), img.chan(x, y, 1), img.chan(x, y, 2), img.chan(x, y, 3))
}

/// Channel `c` of the recoloring of one (r, g, b, a) pixel at (x, y):
/// inside the gradient's extent, ink keeps its own alpha and takes the
/// gradient's color there, and everything else becomes fully transparent
/// black; pixels outside the gradient's extent stay fully transparent
/// black as well.
pub open spec fn gradient_px(r: u8, g: u8, b: u8, a: u8, gradient: RasterImage, x: int, y: int, c: int) -> u8 {
    if x < gradient.width as int && y < gradient.height as int && is_ink_px(r, g, b, a) {
        if c < 3 {
            gradient.chan(x, y, c)
        } else {
            a
        }
    } else {
        0u8
    }
}

/// Channel `c` of the recolored pixel at (x, y).
pub open spec fn gradient_chan(img: RasterImage, gradient: RasterImage, x: int, y: int, c: int) -> u8 {
    gradient_px(img.chan(x, y, 0), img.chan(x, y, 1), img.chan(x, y, 2), img.chan(x, y, 3),
        gradient, x, y, c)
}

/// Recolor the ink of `img` with the color of `gradient` at the same
/// coordinates, keeping the ink's own alpha; non-ink pixels and pixels
/// outside the gradient's extent come out fully transparent black.
pub fn apply_gradient(img: &RasterImage, gradient: &RasterImage) -> (r: RasterImage)
    requires
        img.wf(),
        gradient.wf(),
    ensures
        r.wf(),
        r.width == img.width,
        r.height == img.height,
        forall|x: int, y: int, c: int|
            r.in_bounds(x, y) && 0 <= c < 4 ==> r.chan(x, y, c) == gradient_chan(*img, *gradient,
                x, y, c),
{
    let width_img: u32 = img.width;
    let height_img: u32 = img.height;
    let width_gradient: u32 = gradient.width;
    let height_gradient: u32 = gradient.height;
    let _n: usize = img.pixels.len();
    let mut new_img = RasterImage::blank(width_img, height_img);
    let mut y: u32 = 0;
    while y < height_img
        invariant
            img.wf(),
            gradient.wf(),
            new_img.wf(),
            new_img.width == width_img,
            new_img.height == height_img,
            width_img == img.width,
            height_img == img.height,
            width_gradient == gradient.width,
            height_gradient == gradient.height,
            y <= height_img,
            forall|x2: int, y2: int, c: int|
                new_img.in_bounds(x2, y2) && 0 <= c < 4 ==> #[trigger] new_img.chan(x2, y2, c)
                    == if y2 < y as int {
                    gradient_chan(*img, *gradient, x2, y2, c)
                } else {
                    0u8
                },
        decreases height_img - y,
    {
        let mut x: u32 = 0;
        while x < width_img
            invariant
                img.wf(),
                gradient.wf(),
                new_img.wf(),
                new_img.width == width_img,
                new_img.height == height_img,
                width_img == img.width,
                height_img == img.height,
                width_gradient == gradient.width,
                height_gradient == gradient.height,
                y < height_img,
                x <= width_img,
                forall|x2: int, y2: int, c: int|
                    new_img.in_bounds(x2, y2) && 0 <= c < 4 ==> #[trigger] new_img.chan(x2, y2, c)
                        == if y2 < y as int || (y2 == y as int && x2 < x as int) {
                        gradient_chan(*img, *gradient, x2, y2, c)
                    } else {
                        0u8
                    },
            decreases width_img - x,
        {
            if x < width_gradient && y < height_gradient {
                let img_pixel = img.get_px(x, y);
                let is_fg: bool = (img_pixel.r > 15 || img_pixel.g > 15 || img_pixel.b > 15)
                    && img_pixel.a < 245;
                let new_pixel = if is_fg {
                    let gradient_pixel = gradient.get_px(x, y);
                    crate::raster::Rgba8 {
                        r: gradient_pixel.r,
                        g: gradient_pixel.g,
                        b: gradient_pixel.b,
                        a: img_pixel.a,
                    }
                } else {
                    crate::raster::Rgba8 { r: 0, g: 0, b: 0, a: 0 }
                };
                new_img.put_px(x, y, new_pixel);
                proof {
                    assert(is_fg == is_ink(*img, x as int, y as int));
                    assert forall|c: int| 0 <= c < 4 implies new_img.chan(x as int, y as int, c)
                        == gradient_chan(*img, *gradient, x as int, y as int, c) by {
                        assert(new_img.chan(x as int, y as int, c) == new_pixel.spec_channel(c));
                    }
                }
            } else {
                proof {
                    assert forall|c: int| 0 <= c < 4 implies new_img.chan(x as int, y as int, c)
                        == gradient_chan(*img, *gradient, x as int, y as int, c) by {
                    }
                }
            }
            x = x + 1;
        }
        y = y + 1;
    }
    new_img
}

/// A fully transparent black pixel is never ink, so the gradient maps it to
/// fully transparent black whatever the gradient holds.
pub proof fn lemma_gradient_transparent(img: RasterImage, gradient: RasterImage, x: int, y: int)
    requires
        img.chan(x, y, 0) == 0,
        img.chan(x, y, 1) == 0,
        img.chan(x, y, 2) == 0,
    ensures
        forall|c: int| 0 <= c < 4 ==> gradient_chan(img, gradient, x, y, c) == 0,
{
}

} // verus!
