use vstd::arithmetic::div_mod::{lemma_mod_multiples_vanish, lemma_small_mod};
use vstd::prelude::*;

verus! {

/// An RGBA color, 8 bits per channel.
#[derive(Clone, Copy, PartialEq, Eq, Structural, Debug)]
pub struct Rgba8 {
    pub r: u8,
    pub g: u8,
    pub b: u8,
    pub a: u8,
}

impl Rgba8 {
    /// Channel `c` of the color: 0 = red, 1 = green, 2 = blue, 3 = alpha.
    pub open spec fn spec_channel(self, c: int) -> u8 {
        if c == 0 {
            self.r
        } else if c == 1 {
            self.g
        } else if c == 2 {
            self.b
        } else {
            self.a
        }
    }
}

/// A raster image: a row-major RGBA byte buffer of `width * height` pixels.
#[derive(Debug)]
pub struct RasterImage {
    pub width: u32,
    pub height: u32,
    pub pixels: Vec<u8>,
}

/// Row-major pixel index of coordinate (x, y) in a raster of width `w`.
pub open spec fn pix(w: int, x: int, y: int) -> int {
    y * w + x
}

/// Channel `c` of the pixel at (x, y) in a row-major RGBA byte buffer of
/// width `w`.
pub open spec fn seq_chan(p: Seq<u8>, w: int, x: int, y: int, c: int) -> u8 {
    p[pix(w, x, y) * 4 + c]
}

impl RasterImage {
    /// The pixel buffer holds exactly 4 bytes per pixel.
    pub open spec fn wf(self) -> bool {
        self.pixels@.len() == self.width as int * self.height as int * 4
    }

    /// Channel `c` (0 = red .. 3 = alpha) of the pixel at (x, y).
    pub open spec fn chan(self, x: int, y: int, c: int) -> u8 {
        seq_chan(self.pixels@, self.width as int, x, y, c)
    }

    /// Coordinate (x, y) is inside the raster.
    pub open spec fn in_bounds(self, x: int, y: int) -> bool {
        0 <= x < self.width as int && 0 <= y < self.height as int
    }

    /// A raster of the given size with every byte zero (transparent black).
    pub fn blank(width: u32, height: u32) -> (r: RasterImage)
        requires
            width as int * height as int * 4 <= usize::MAX as int,
        ensures
            r.wf(),
            r.width == width,
            r.height == height,
            forall|i: int| 0 <= i < r.pixels@.len() ==> r.pixels@[i] == 0u8,
            forall|x: int, y: int, c: int|
                r.in_bounds(x, y) && 0 <= c < 4 ==> r.chan(x, y, c) == 0u8,
    {
        let n: usize = (width as usize) * (height as usize) * 4;
        let mut pixels: Vec<u8> = Vec::with_capacity(n);
        let mut i: usize = 0;
        while i < n
            invariant
                i <= n,
                pixels@.len() == i,
                forall|j: int| 0 <= j < i ==> pixels@[j] == 0u8,
            decreases n - i,
        {
            pixels.push(0u8);
            i = i + 1;
        }
        let r = RasterImage { width, height, pixels };
        proof {
            assert forall|x: int, y: int, c: int|
                r.in_bounds(x, y) && 0 <= c < 4 implies r.chan(x, y, c) == 0u8 by {
                lemma_pix_bounds(width as int, height as int, x, y);
            }
        }
        r
    }

    /// A raster of the given size with every pixel set to `color`.
    pub fn from_pixel(width: u32, height: u32, color: Rgba8) -> (r: RasterImage)
        requires
            width as int * height as int * 4 <= usize::MAX as int,
        ensures
            r.wf(),
            r.width == width,
            r.height == height,
            forall|i: int| 0 <= i < r.pixels@.len() ==> r.pixels@[i] == color.spec_channel(i % 4),
            forall|x: int, y: int, c: int|
                r.in_bounds(x, y) && 0 <= c < 4 ==> r.chan(x, y, c) == color.spec_channel(c),
    {
        let n: usize = (width as usize) * (height as usize) * 4;
        let mut pixels: Vec<u8> = Vec::with_capacity(n);
        let mut i: usize = 0;
        while i < n
            invariant
                i <= n,
                pixels@.len() == i,
                forall|j: int| 0 <= j < i ==> pixels@[j] == color.spec_channel(j % 4),
            decreases n - i,
        {
            let m: usize = i % 4;
            let v: u8 = if m == 0 {
                color.r
            } else if m == 1 {
                color.g
            } else if m == 2 {
                color.b
            } else {
                color.a
            };
            pixels.push(v);
            i = i + 1;
        }
        let r = RasterImage { width, height, pixels };
        proof {
            assert forall|x: int, y: int, c: int|
                r.in_bounds(x, y) && 0 <= c < 4 implies r.chan(x, y, c) == color.spec_channel(c) by {
                let p = pix(width as int, x, y);
                lemma_pix_bounds(width as int, height as int, x, y);
                lemma_mod_multiples_vanish(p, c, 4);
                lemma_small_mod(c as nat, 4);
            }
        }
        r
    }

    /// Read the pixel at (x, y).
    pub fn get_px(&self, x: u32, y: u32) -> (r: Rgba8)
        requires
            self.wf(),
            self.in_bounds(x as int, y as int),
        ensures
            r.r == self.chan(x as int, y as int, 0),
            r.g == self.chan(x as int, y as int, 1),
            r.b == self.chan(x as int, y as int, 2),
            r.a == self.chan(x as int, y as int, 3),
    {
        proof {
            lemma_pix_bounds(self.width as int, self.height as int, x as int, y as int);
        }
        let _n: usize = self.pixels.len();
        let base: usize = ((y as usize) * (self.width as usize) + (x as usize)) * 4;
        Rgba8 {
            r: self.pixels[base],
            g: self.pixels[base + 1],
            b: self.pixels[base + 2],
            a: self.pixels[base + 3],
        }
    }

    /// Write the pixel at (x, y); every other pixel is unchanged.
    pub fn put_px(&mut self, x: u32, y: u32, color: Rgba8)
        requires
            old(self).wf(),
            old(self).in_bounds(x as int, y as int),
        ensures
            final(self).wf(),
            final(self).width == old(self).width,
            final(self).height == old(self).height,
            forall|c: int| 0 <= c < 4 ==> final(self).chan(x as int, y as int, c) == color.spec_channel(c),
            forall|x2: int, y2: int, c: int|
                old(self).in_bounds(x2, y2) && 0 <= c < 4 && !(x2 == x as int && y2 == y as int)
                    ==> final(self).chan(x2, y2, c) == old(self).chan(x2, y2, c),
    {
        proof {
            lemma_pix_bounds(self.width as int, self.height as int, x as int, y as int);
        }
        let _n: usize = self.pixels.len();
        let base: usize = ((y as usize) * (self.width as usize) + (x as usize)) * 4;
        self.pixels.set(base, color.r);
        self.pixels.set(base + 1, color.g);
        self.pixels.set(base + 2, color.b);
        self.pixels.set(base + 3, color.a);
        proof {
            let w = self.width as int;
            let h = self.height as int;
            let p = pix(w, x as int, y as int);
            assert forall|x2: int, y2: int, c: int|
                old(self).in_bounds(x2, y2) && 0 <= c < 4 && !(x2 == x as int && y2 == y as int)
                    implies final(self).chan(x2, y2, c) == old(self).chan(x2, y2, c) by {
                lemma_pix_bounds(w, h, x2, y2);
                lemma_pix_distinct(w, x as int, y as int, x2, y2);
                let p2 = pix(w, x2, y2);
                assert(p2 * 4 + c < p * 4 || p2 * 4 + c > p * 4 + 3) by (nonlinear_arith)
                    requires p2 != p, 0 <= c < 4;
            }
        }
    }

    /// A fresh raster with the same size and the same pixel bytes.
    pub fn copy_of(&self) -> (r: RasterImage)
        requires
            self.wf(),
        ensures
            r.wf(),
            r.width == self.width,
            r.height == self.height,
            r.pixels@ == self.pixels@,
    {
        let n: usize = self.pixels.len();
        let mut pixels: Vec<u8> = Vec::with_capacity(n);
        let mut i: usize = 0;
        while i < n
            invariant
                i <= n,
                n == self.pixels@.len(),
                pixels@.len() == i,
                forall|j: int| 0 <= j < i ==> pixels@[j] == self.pixels@[j],
            decreases n - i,
        {
            pixels.push(self.pixels[i]);
            i = i + 1;
        }
        proof {
            assert(pixels@ =~= self.pixels@);
        }
        RasterImage { width: self.width, height: self.height, pixels }
    }
}

/// Both coordinates are inside their raster, so the pixel index is inside the buffer.
pub proof fn lemma_pix_bounds(w: int, h: int, x: int, y: int)
    requires
        0 <= x < w,
        0 <= y < h,
    ensures
        0 <= pix(w, x, y),
        pix(w, x, y) < w * h,
        0 <= pix(w, x, y) * 4,
        pix(w, x, y) * 4 + 3 < w * h * 4,
    decreases 0int,
{
    assert(0 <= y * w + x && y * w + x < w * h && (y * w + x) * 4 + 3 < w * h * 4)
        by (nonlinear_arith)
        requires 0 <= x < w, 0 <= y < h;
}

/// Every index of a raster byte buffer decomposes into a coordinate and a
/// channel: c = i % 4, x = (i / 4) % w, y = (i / 4) / w.
pub proof fn lemma_byte_decomp(w: int, h: int, i: int)
    requires
        w > 0,
        0 <= i < w * h * 4,
    ensures
        ({
            let c = i % 4;
            let q = i / 4;
            let x = q % w;
            let y = q / w;
            0 <= c < 4 && 0 <= x < w && 0 <= y < h && pix(w, x, y) * 4 + c == i
        }),
{
    let c = i % 4;
    let q = i / 4;
    let x = q % w;
    let y = q / w;
    vstd::arithmetic::div_mod::lemma_fundamental_div_mod(i, 4);
    vstd::arithmetic::div_mod::lemma_fundamental_div_mod(q, w);
    assert(0 <= c < 4 && 0 <= x < w && q >= 0) by (nonlinear_arith)
        requires c == i % 4, x == q % w, q == i / 4, w > 0, i >= 0;
    assert(q < w * h) by (nonlinear_arith)
        requires q == i / 4, 0 <= i < w * h * 4;
    assert(0 <= y < h) by (nonlinear_arith)
        requires y == q / w, 0 <= q < w * h, w > 0;
    assert((y * w + x) * 4 + c == i) by (nonlinear_arith)
        requires i == 4 * q + c, q == w * y + x;
}

/// Row-major order: an earlier coordinate has a smaller index.
pub proof fn lemma_pix_order(w: int, x1: int, y1: int, x2: int, y2: int)
    requires
        0 <= x1 < w,
        0 <= x2 < w,
        y1 < y2 || (y1 == y2 && x1 < x2),
    ensures
        pix(w, x1, y1) < pix(w, x2, y2),
{
    assert(y1 * w + x1 < y2 * w + x2) by (nonlinear_arith)
        requires 0 <= x1 < w, 0 <= x2 < w, y1 < y2 || (y1 == y2 && x1 < x2);
}

/// Distinct coordinates in the same raster have distinct row-major indices.
pub proof fn lemma_pix_distinct(w: int, x1: int, y1: int, x2: int, y2: int)
    requires
        0 <= x1 < w,
        0 <= x2 < w,
        !(x1 == x2 && y1 == y2),
    ensures
        pix(w, x1, y1) != pix(w, x2, y2),
{
    assert(y1 * w + x1 != y2 * w + x2) by (nonlinear_arith)
        requires 0 <= x1 < w, 0 <= x2 < w, !(x1 == x2 && y1 == y2);
}

/// Channel `c` of what `copy_image` leaves at (x, y) of the destination:
/// the source pixel shifted by the offset where one lands there, else the
/// destination's own pixel.
pub open spec fn copy_chan(dst: RasterImage, src: RasterImage, xo: int, yo: int, x: int, y: int, c: int) -> u8 {
    if src.in_bounds(x - xo, y - yo) {
        src.chan(x - xo, y - yo, c)
    } else {
        dst.chan(x, y, c)
    }
}

/// Paste `img_src` onto `img_dst` with its top-left corner at (x_offset, y_offset);
/// source pixels that fall outside the destination are dropped.
pub fn copy_image(img_src: &RasterImage, img_dst: &mut RasterImage, x_offset: i32, y_offset: i32)
    requires
        img_src.wf(),
        old(img_dst).wf(),
    ensures
        final(img_dst).wf(),
        final(img_dst).width == old(img_dst).width,
        final(img_dst).height == old(img_dst).height,
        forall|x: int, y: int, c: int|
            old(img_dst).in_bounds(x, y) && 0 <= c < 4
                ==> final(img_dst).chan(x, y, c)
                    == copy_chan(*old(img_dst), *img_src, x_offset as int, y_offset as int, x, y, c),
{
    let sw: u32 = img_src.width;
    let sh: u32 = img_src.height;
    let mut y: u32 = 0;
    while y < sh
        invariant
            img_src.wf(),
            img_dst.wf(),
            img_dst.width == old(img_dst).width,
            img_dst.height == old(img_dst).height,
            sw == img_src.width,
            sh == img_src.height,
            y <= sh,
            forall|x2: int, y2: int, c: int|
                old(img_dst).in_bounds(x2, y2) && 0 <= c < 4
                    ==> #[trigger] img_dst.chan(x2, y2, c) == if 0 <= y2 - y_offset < y as int
                        && 0 <= x2 - x_offset < sw as int {
                        img_src.chan(x2 - x_offset, y2 - y_offset, c)
                    } else {
                        old(img_dst).chan(x2, y2, c)
                    },
        decreases sh - y,
    {
        let mut x: u32 = 0;
        while x < sw
            invariant
                img_src.wf(),
                img_dst.wf(),
                img_dst.width == old(img_dst).width,
                img_dst.height == old(img_dst).height,
                sw == img_src.width,
                sh == img_src.height,
                y < sh,
                x <= sw,
                forall|x2: int, y2: int, c: int|
                    old(img_dst).in_bounds(x2, y2) && 0 <= c < 4
                        ==> #[trigger] img_dst.chan(x2, y2, c) == if (0 <= y2 - y_offset < y as int
                            && 0 <= x2 - x_offset < sw as int) || (y2 - y_offset == y as int
                            && 0 <= x2 - x_offset < x as int) {
                            img_src.chan(x2 - x_offset, y2 - y_offset, c)
                        } else {
                            old(img_dst).chan(x2, y2, c)
                        },
            decreases sw - x,
        {
            let dx: i64 = x as i64 + x_offset as i64;
            let dy: i64 = y as i64 + y_offset as i64;
            let ghost prev = *img_dst;
            if dx >= 0 && dx < img_dst.width as i64 && dy >= 0 && dy < img_dst.height as i64 {
                let px = img_src.get_px(x, y);
                img_dst.put_px(dx as u32, dy as u32, px);
                proof {
                    assert forall|c: int| 0 <= c < 4
                        implies img_dst.chan(dx as int, dy as int, c)
                            == img_src.chan(x as int, y as int, c) by {
                        assert(img_dst.chan(dx as u32 as int, dy as u32 as int, c)
                            == px.spec_channel(c));
                    }
                }
            }
            proof {
                let xo = x_offset as int;
                let yo = y_offset as int;
                assert forall|x2: int, y2: int, c: int|
                    old(img_dst).in_bounds(x2, y2) && 0 <= c < 4
                        implies #[trigger] img_dst.chan(x2, y2, c) == if (0 <= y2 - yo < y as int
                            && 0 <= x2 - xo < sw as int) || (y2 - yo == y as int
                            && 0 <= x2 - xo < x as int + 1) {
                            img_src.chan(x2 - xo, y2 - yo, c)
                        } else {
                            old(img_dst).chan(x2, y2, c)
                        } by {
                    if y2 - yo == y as int && x2 - xo == x as int {
                        assert(x2 == dx as int && y2 == dy as int);
                        assert(0 <= (dx as int) && (dx as int) < img_dst.width as int);
                        assert(0 <= (dy as int) && (dy as int) < img_dst.height as int);
                        assert(dx as u32 as int == dx as int);
                        assert(dy as u32 as int == dy as int);
                        assert(img_dst.chan(x2, y2, c) == img_src.chan(x as int, y as int, c));
                    } else {
                        assert(img_dst.chan(x2, y2, c) == prev.chan(x2, y2, c));
                    }
                }
            }
            x = x + 1;
        }
        y = y + 1;
    }
}

} // verus!
