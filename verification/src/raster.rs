use vstd::prelude::*;

verus! {

/// Upper bound (exclusive) on the pixel edge lengths the library composes,
/// so that every pixel count and buffer index fits the machine's sizes.
pub const MAX_IMAGE_DIM: u32 = 32768;

/// One RGBA pixel.
#[derive(Clone, Copy, Debug, PartialEq, Eq, Structural)]
pub struct Pixel {
    /// Red channel.
    pub r: u8,
    /// Green channel.
    pub g: u8,
    /// Blue channel.
    pub b: u8,
    /// Alpha channel.
    pub a: u8,
}

/// The fully transparent black pixel a fresh image is filled with.
pub open spec fn blank_pixel() -> Pixel {
    Pixel { r: 0, g: 0, b: 0, a: 0 }
}

/// An RGBA image held as plain values: `width * height` pixels in
/// row-major order.
#[derive(Debug, PartialEq, Eq)]
pub struct Raster {
    /// Width in pixels.
    pub width: u32,
    /// Height in pixels.
    pub height: u32,
    /// The pixels, row by row from the top-left corner.
    pub pixels: Vec<Pixel>,
}

impl Raster {
    /// Well-formed: the buffer holds exactly one pixel per cell.
    pub open spec fn wf(self) -> bool {
        self.pixels@.len() == self.width * self.height
    }

    /// The pixel at column `x`, row `y`.
    pub open spec fn pix(self, x: int, y: int) -> Pixel {
        self.pixels@[y * self.width + x]
    }
}

/// Two distinct in-range coordinate pairs have distinct row-major indices.
pub proof fn lemma_rowmajor_injective(w: int, x1: int, y1: int, x2: int, y2: int)
    requires
        0 <= x1 < w,
        0 <= x2 < w,
        0 <= y1,
        0 <= y2,
        y1 * w + x1 == y2 * w + x2,
    ensures
        x1 == x2 && y1 == y2,
{
    assert(x1 == x2 && y1 == y2) by (nonlinear_arith)
        requires
            0 <= x1 < w,
            0 <= x2 < w,
            0 <= y1,
            0 <= y2,
            y1 * w + x1 == y2 * w + x2,
    ;
}

/// A row-major index of in-range coordinates is within the buffer.
pub proof fn lemma_rowmajor_in_range(w: int, h: int, x: int, y: int)
    requires
        0 <= x < w,
        0 <= y < h,
    ensures
        0 <= y * w + x < w * h,
{
    assert(0 <= y * w + x < w * h) by (nonlinear_arith)
        requires
            0 <= x < w,
            0 <= y < h,
    ;
}

impl Raster {
    /// Builds a `width` by `height` image of fully transparent black
    /// pixels.
    pub fn blank(width: u32, height: u32) -> (r: Raster)
        requires
            width < MAX_IMAGE_DIM,
            height < MAX_IMAGE_DIM,
        ensures
            r.wf(),
            r.width == width,
            r.height == height,
            forall|x: int, y: int|
                0 <= x < width && 0 <= y < height ==> r.pix(x, y) == blank_pixel(),
    {
        proof {
            assert(width * height < 0x4000_0000) by (nonlinear_arith)
                requires width < 32768, height < 32768;
        }
        let total: usize = (width as usize) * (height as usize);
        let mut pixels: Vec<Pixel> = Vec::new();
        let mut i: usize = 0;
        while i < total
            invariant
                0 <= i <= total,
                total == width * height,
                pixels@.len() == i,
                forall|k: int| 0 <= k < i ==> pixels@[k] == blank_pixel(),
            decreases total - i,
        {
            pixels.push(Pixel { r: 0, g: 0, b: 0, a: 0 });
            i = i + 1;
        }
        let r = Raster { width, height, pixels };
        proof {
            assert forall|x: int, y: int|
                0 <= x < width && 0 <= y < height implies r.pix(x, y) == blank_pixel() by {
                lemma_rowmajor_in_range(width as int, height as int, x, y);
            }
        }
        r
    }

    /// Copies `src` into `self` with its top-left corner at `(ox, oy)`:
    /// afterwards the pasted rectangle shows `src` and every other pixel is
    /// unchanged.
    pub fn paste(&mut self, src: &Raster, ox: u32, oy: u32)
        requires
            old(self).wf(),
            src.wf(),
            old(self).width < MAX_IMAGE_DIM,
            old(self).height < MAX_IMAGE_DIM,
            ox + src.width <= old(self).width,
            oy + src.height <= old(self).height,
        ensures
            final(self).wf(),
            final(self).width == old(self).width,
            final(self).height == old(self).height,
            forall|x: int, y: int|
                0 <= x < old(self).width && 0 <= y < old(self).height ==> final(self).pix(x, y)
                    == (if ox <= x < ox + src.width && oy <= y < oy + src.height {
                    src.pix(x - ox, y - oy)
                } else {
                    old(self).pix(x, y)
                }),
    {
        let ghost dst0 = *old(self);
        let w = self.width;
        let h = self.height;
        let sw = src.width;
        let sh = src.height;
        let mut dy: u32 = 0;
        while dy < sh
            invariant
                0 <= dy <= sh,
                self.width == w < MAX_IMAGE_DIM,
                self.height == h < MAX_IMAGE_DIM,
                sw == src.width,
                sh == src.height,
                ox + sw <= w,
                oy + sh <= h,
                src.wf(),
                self.wf(),
                dst0.width == w,
                dst0.height == h,
                dst0.wf(),
                forall|x: int, y: int|
                    0 <= x < w && 0 <= y < h ==> self.pix(x, y) == (if ox <= x < ox + sw && oy
                        <= y < oy + sh && y - oy < dy {
                        src.pix(x - ox, y - oy)
                    } else {
                        dst0.pix(x, y)
                    }),
            decreases sh - dy,
        {
            let mut dx: u32 = 0;
            while dx < sw
                invariant
                    0 <= dx <= sw,
                    0 <= dy < sh,
                    self.width == w < MAX_IMAGE_DIM,
                    self.height == h < MAX_IMAGE_DIM,
                    sw == src.width,
                    sh == src.height,
                    ox + sw <= w,
                    oy + sh <= h,
                    src.wf(),
                    self.wf(),
                    dst0.width == w,
                    dst0.height == h,
                    dst0.wf(),
                    forall|x: int, y: int|
                        0 <= x < w && 0 <= y < h ==> self.pix(x, y) == (if ox <= x < ox + sw
                            && oy <= y < oy + sh && (y - oy < dy || (y - oy == dy && x - ox
                            < dx)) {
                            src.pix(x - ox, y - oy)
                        } else {
                            dst0.pix(x, y)
                        }),
                decreases sw - dx,
            {
                let ghost before = *self;
                let x = ox + dx;
                let y = oy + dy;
                proof {
                    lemma_rowmajor_in_range(w as int, h as int, x as int, y as int);
                    lemma_rowmajor_in_range(sw as int, sh as int, dx as int, dy as int);
                    assert(y * w + x < 0x4000_0000) by (nonlinear_arith)
                        requires y < 32768, w < 32768, x < w;
                    assert(dy * sw + dx < 0x4000_0000) by (nonlinear_arith)
                        requires dy < 32768, sw < 32768, dx < sw;
                }
                let idx: usize = (y as usize) * (w as usize) + (x as usize);
                let sidx: usize = (dy as usize) * (sw as usize) + (dx as usize);
                let p = src.pixels[sidx];
                self.pixels.set(idx, p);
                proof {
                    assert(p == src.pix(dx as int, dy as int));
                    assert forall|px: int, py: int|
                        0 <= px < w && 0 <= py < h implies self.pix(px, py) == (if ox <= px < ox
                        + sw && oy <= py < oy + sh && (py - oy < dy || (py - oy == dy && px - ox
                        < dx + 1)) {
                        src.pix(px - ox, py - oy)
                    } else {
                        dst0.pix(px, py)
                    }) by {
                        lemma_rowmajor_in_range(w as int, h as int, px, py);
                        if py * w + px == idx {
                            lemma_rowmajor_injective(w as int, px, py, x as int, y as int);
                        } else {
                            assert(self.pix(px, py) == before.pix(px, py));
                        }
                    }
                }
                dx = dx + 1;
            }
            dy = dy + 1;
        }
    }

    /// Returns the `w` by `h` rectangle of `self` whose top-left corner is
    /// at `(ox, oy)`.
    pub fn extract(&self, ox: u32, oy: u32, w: u32, h: u32) -> (r: Raster)
        requires
            self.wf(),
            self.width < MAX_IMAGE_DIM,
            self.height < MAX_IMAGE_DIM,
            ox + w <= self.width,
            oy + h <= self.height,
        ensures
            r.wf(),
            r.width == w,
            r.height == h,
            forall|dx: int, dy: int|
                0 <= dx < w && 0 <= dy < h ==> r.pix(dx, dy) == self.pix(ox + dx, oy + dy),
    {
        let mut pixels: Vec<Pixel> = Vec::new();
        let mut dy: u32 = 0;
        while dy < h
            invariant
                0 <= dy <= h,
                self.wf(),
                self.width < MAX_IMAGE_DIM,
                self.height < MAX_IMAGE_DIM,
                ox + w <= self.width,
                oy + h <= self.height,
                pixels@.len() == dy * w,
                forall|px: int, py: int|
                    0 <= px < w && 0 <= py < dy ==> #[trigger] pixels@[py * w + px] == self.pix(
                        ox + px,
                        oy + py,
                    ),
            decreases h - dy,
        {
            let mut dx: u32 = 0;
            while dx < w
                invariant
                    0 <= dx <= w,
                    0 <= dy < h,
                    self.wf(),
                    self.width < MAX_IMAGE_DIM,
                    self.height < MAX_IMAGE_DIM,
                    ox + w <= self.width,
                    oy + h <= self.height,
                    pixels@.len() == dy * w + dx,
                    forall|px: int, py: int|
                        0 <= px < w && 0 <= py < dy ==> #[trigger] pixels@[py * w + px]
                            == self.pix(ox + px, oy + py),
                    forall|px: int|
                        0 <= px < dx ==> #[trigger] pixels@[dy * w + px] == self.pix(
                            ox + px,
                            oy + dy,
                        ),
                decreases w - dx,
            {
                proof {
                    lemma_rowmajor_in_range(
                        self.width as int,
                        self.height as int,
                        ox + dx,
                        oy + dy,
                    );
                    assert(dy * w + dx < 0x4000_0000) by (nonlinear_arith)
                        requires dy < 32768, w < 32768, dx < w;
                    assert((oy + dy) * self.width + (ox + dx) < 0x4000_0000) by (nonlinear_arith)
                        requires oy + dy < 32768, self.width < 32768, ox + dx < self.width;
                }
                let sidx: usize = ((oy + dy) as usize) * (self.width as usize) + ((ox + dx)
                    as usize);
                let ghost len0 = pixels@.len();
                pixels.push(self.pixels[sidx]);
                proof {
                    assert(pixels@[len0 as int] == self.pix(ox + dx, oy + dy));
                    assert forall|px: int, py: int|
                        0 <= px < w && 0 <= py < dy implies #[trigger] pixels@[py * w + px]
                        == self.pix(ox + px, oy + py) by {
                        assert((py * w + px) < dy * w) by (nonlinear_arith)
                            requires 0 <= px < w, 0 <= py < dy;
                    }
                }
                dx = dx + 1;
            }
            proof {
                assert((dy + 1) * w == dy * w + w) by (nonlinear_arith);
            }
            dy = dy + 1;
        }
        let r = Raster { width: w, height: h, pixels };
        proof {
            assert(r.wf()) by {
                assert(h * w == w * h) by (nonlinear_arith);
            }
            assert forall|dx: int, dy2: int|
                0 <= dx < w && 0 <= dy2 < h implies r.pix(dx, dy2) == self.pix(
                ox + dx,
                oy + dy2,
            ) by {
                assert(r.pixels@[dy2 * w + dx] == self.pix(ox + dx, oy + dy2));
            }
        }
        r
    }
}

} // verus!
