//! A raster image: width, height and a row-major buffer of pixels.
use vstd::prelude::*;
use crate::pixel::Pixel;

verus! {

/// Buffer position of the pixel at column `x`, row `y`.
pub open spec fn idx(w: int, x: int, y: int) -> int {
    y * w + x
}

/// Distinct coordinates inside the raster have distinct buffer positions,
/// and every such position lies in the buffer.
pub proof fn lemma_idx(w: int, h: int, x: int, y: int, x2: int, y2: int)
    requires
        0 <= x < w,
        0 <= y < h,
        0 <= x2 < w,
        0 <= y2 < h,
    ensures
        0 <= idx(w, x, y) < w * h,
        idx(w, x, y) == idx(w, x2, y2) ==> x == x2 && y == y2,
{
    assert(0 <= y * w + x < w * h) by (nonlinear_arith)
        requires
            0 <= x < w,
            0 <= y < h,
    ;
    if y < y2 {
        assert(y * w + x < y2 * w + x2) by (nonlinear_arith)
            requires
                0 <= x < w,
                0 <= x2,
                y < y2,
        ;
    } else if y2 < y {
        assert(y2 * w + x2 < y * w + x) by (nonlinear_arith)
            requires
                0 <= x2 < w,
                0 <= x,
                y2 < y,
        ;
    }
}

/// An RGB raster, `width` by `height`, stored row by row.
#[derive(Clone, Debug)]
pub struct Raster {
    pub width: u32,
    pub height: u32,
    pub pixels: Vec<Pixel>,
}

impl Raster {
    /// The buffer holds exactly one pixel per coordinate.
    pub open spec fn wf(&self) -> bool {
        self.pixels@.len() == self.width as int * self.height as int
    }

    /// The pixel at column `x`, row `y`.
    pub open spec fn at(&self, x: int, y: int) -> Pixel {
        self.pixels@[idx(self.width as int, x, y)]
    }

    /// A raster of the given size, every pixel set to `fill`.
    pub fn filled(width: u32, height: u32, fill: Pixel) -> (r: Option<Raster>)
        ensures
            match r {
                Some(img) => {
                    &&& (width as int) * (height as int) <= usize::MAX
                    &&& img.wf()
                    &&& img.width == width
                    &&& img.height == height
                    &&& forall|i: int| 0 <= i < img.pixels@.len() ==> img.pixels@[i] == fill
                },
                None => (width as int) * (height as int) > usize::MAX,
            },
    {
        let n = (width as usize).checked_mul(height as usize);
        match n {
            Some(n) => {
                let mut pixels: Vec<Pixel> = Vec::new();
                let mut i: usize = 0;
                while i < n
                    invariant
                        i <= n,
                        pixels@.len() == i,
                        forall|k: int| 0 <= k < i ==> pixels@[k] == fill,
                    decreases n - i,
                {
                    pixels.push(fill);
                    i = i + 1;
                }
                Some(Raster { width, height, pixels })
            },
            None => None,
        }
    }

    /// Wraps a row-major buffer; `None` when its length is not
    /// `width * height`.
    pub fn from_pixels(width: u32, height: u32, pixels: Vec<Pixel>) -> (r: Option<Raster>)
        ensures
            match r {
                Some(img) => img.wf() && img.width == width && img.height == height
                    && img.pixels@ == pixels@,
                None => pixels@.len() != width as int * height as int,
            },
    {
        let len = pixels.len();
        let n = (width as usize).checked_mul(height as usize);
        match n {
            Some(n) => {
                if len == n {
                    Some(Raster { width, height, pixels })
                } else {
                    None
                }
            },
            None => None,
        }
    }

    /// `(width, height)`.
    pub fn dimensions(&self) -> (d: (u32, u32))
        ensures
            d == (self.width, self.height),
    {
        (self.width, self.height)
    }

    /// The pixel at column `x`, row `y`.
    pub fn get_pixel(&self, x: u32, y: u32) -> (p: Pixel)
        requires
            self.wf(),
            x < self.width,
            y < self.height,
        ensures
            p == self.at(x as int, y as int),
    {
        proof {
            lemma_idx(self.width as int, self.height as int, x as int, y as int, x as int, y as int);
        }
        let _n = self.pixels.len();
        self.pixels[y as usize * self.width as usize + x as usize]
    }

    /// Sets the pixel at column `x`, row `y`; every other pixel stays.
    pub fn put_pixel(&mut self, x: u32, y: u32, p: Pixel)
        requires
            old(self).wf(),
            x < old(self).width,
            y < old(self).height,
        ensures
            final(self).wf(),
            final(self).width == old(self).width,
            final(self).height == old(self).height,
            final(self).pixels@ == old(self).pixels@.update(
                idx(old(self).width as int, x as int, y as int),
                p,
            ),
    {
        proof {
            lemma_idx(self.width as int, self.height as int, x as int, y as int, x as int, y as int);
        }
        let _n = self.pixels.len();
        let i = y as usize * self.width as usize + x as usize;
        self.pixels[i] = p;
    }
}

/// A `w` by `h` raster whose pixel at `(x, y)` is `f(x, y)`.
pub fn raster_from_fn<F: Fn(u32, u32) -> Pixel>(w: u32, h: u32, f: F) -> (r: Raster)
    requires
        w as int * h as int <= usize::MAX,
        forall|x: u32, y: u32| x < w && y < h ==> #[trigger] f.requires((x, y)),
    ensures
        r.wf(),
        r.width == w,
        r.height == h,
        forall|x: u32, y: u32| x < w && y < h ==> #[trigger] f.ensures((x, y), r.at(x as int, y as int)),
{
    let mut pixels: Vec<Pixel> = Vec::new();
    let mut y: u32 = 0;
    while y < h
        invariant
            y <= h,
            w as int * h as int <= usize::MAX,
            forall|x: u32, y: u32| x < w && y < h ==> #[trigger] f.requires((x, y)),
            pixels@.len() == y as int * w as int,
            forall|x: u32, yy: u32| x < w && yy < y ==> #[trigger] f.ensures(
                (x, yy),
                pixels@[idx(w as int, x as int, yy as int)],
            ),
        decreases h - y,
    {
        let mut x: u32 = 0;
        while x < w
            invariant
                x <= w,
                y < h,
                w as int * h as int <= usize::MAX,
                forall|x: u32, y: u32| x < w && y < h ==> #[trigger] f.requires((x, y)),
                pixels@.len() == y as int * w as int + x,
                forall|xx: u32, yy: u32| xx < w && yy < y ==> #[trigger] f.ensures(
                    (xx, yy),
                    pixels@[idx(w as int, xx as int, yy as int)],
                ),
                forall|xx: u32| xx < x ==> #[trigger] f.ensures(
                    (xx, y),
                    pixels@[idx(w as int, xx as int, y as int)],
                ),
            decreases w - x,
        {
            let p = f(x, y);
            proof {
                lemma_idx(w as int, h as int, x as int, y as int, x as int, y as int);
            }
            let ghost before = pixels@;
            pixels.push(p);
            proof {
                assert forall|xx: u32, yy: u32| xx < w && yy < y implies #[trigger] f.ensures(
                    (xx, yy),
                    pixels@[idx(w as int, xx as int, yy as int)],
                ) by {
                    lemma_idx(w as int, h as int, xx as int, yy as int, x as int, y as int);
                    assert(idx(w as int, xx as int, yy as int) < y as int * w as int) by (nonlinear_arith)
                        requires
                            xx < w,
                            yy < y,
                            idx(w as int, xx as int, yy as int) == yy * w + xx,
                    ;
                    assert(pixels@[idx(w as int, xx as int, yy as int)] == before[idx(w as int, xx as int, yy as int)]);
                }
                assert forall|xx: u32| xx < x + 1 implies #[trigger] f.ensures(
                    (xx, y),
                    pixels@[idx(w as int, xx as int, y as int)],
                ) by {
                    if xx < x {
                        assert(pixels@[idx(w as int, xx as int, y as int)] == before[idx(w as int, xx as int, y as int)]);
                    }
                }
            }
            x = x + 1;
        }
        proof {
            assert(pixels@.len() == (y + 1) as int * w as int) by (nonlinear_arith)
                requires
                    pixels@.len() == y as int * w as int + w,
            ;
        }
        y = y + 1;
    }
    proof {
        assert(pixels@.len() == w as int * h as int) by (nonlinear_arith)
            requires
                pixels@.len() == y as int * w as int,
                y == h,
        ;
    }
    Raster { width: w, height: h, pixels }
}

/// The pixel of `image` at `(x0 + x, y0 + y)`, black where that lies
/// outside it.
pub open spec fn crop_pixel(image: Raster, x0: int, y0: int, x: int, y: int) -> Pixel {
    if x0 + x < image.width && y0 + y < image.height {
        image.at(x0 + x, y0 + y)
    } else {
        Pixel { r: 0, g: 0, b: 0 }
    }
}

/// The `width` by `height` region of `image` whose top-left corner is
/// `(x0, y0)`; parts beyond the image are black.
pub fn crop_region(image: &Raster, x0: u32, y0: u32, width: u32, height: u32) -> (r: Raster)
    requires
        image.wf(),
        width as int * height as int <= usize::MAX,
    ensures
        r.wf(),
        r.width == width,
        r.height == height,
        forall|x: int, y: int| 0 <= x < width && 0 <= y < height ==> #[trigger] r.at(x, y)
            == crop_pixel(*image, x0 as int, y0 as int, x, y),
{
    let cell = |x: u32, y: u32| -> (p: Pixel)
        ensures
            crop_pixel(*image, x0 as int, y0 as int, x as int, y as int) == p,
        {
            let sx = x0 as u64 + x as u64;
            let sy = y0 as u64 + y as u64;
            if sx < image.width as u64 && sy < image.height as u64 {
                image.get_pixel(sx as u32, sy as u32)
            } else {
                Pixel { r: 0, g: 0, b: 0 }
            }
        };
    let r = raster_from_fn(width, height, cell);
    proof {
        assert forall|x: int, y: int| 0 <= x < width && 0 <= y < height implies #[trigger] r.at(x, y)
            == crop_pixel(*image, x0 as int, y0 as int, x, y) by {
            let xu = x as u32;
            let yu = y as u32;
            assert(cell.ensures((xu, yu), r.at(xu as int, yu as int)));
        }
    }
    r
}

} // verus!
