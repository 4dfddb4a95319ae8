//! Image-level helpers: size limits and validation, statistics, sample
//! pattern generators, fitting to a bounding box, and a check for frames
//! that look corrupted.
use vstd::prelude::*;
use crate::pixel::Pixel;
use crate::raster::{Raster, raster_from_fn};

verus! {

/// Why an image is rejected.
#[derive(Clone, Copy, Debug, PartialEq, Eq, Structural)]
pub enum ImageError {
    InvalidDimensions { width: u32, height: u32 },
    TooLarge { width: u32, height: u32, max_width: u32, max_height: u32 },
}

/// Size and mean colour of an image.
#[derive(Clone, Copy, Debug, PartialEq, Eq, Structural)]
pub struct ImageInfo {
    pub width: u32,
    pub height: u32,
    pub pixel_count: usize,
    pub average_color: Pixel,
    /// Three bytes per pixel.
    pub file_size_estimate: usize,
}

pub open spec fn channel(p: Pixel, c: int) -> int {
    if c == 0 {
        p.r as int
    } else if c == 1 {
        p.g as int
    } else {
        p.b as int
    }
}

/// Sum of channel `c` (0 red, 1 green, 2 blue) over `s`.
pub open spec fn channel_sum(s: Seq<Pixel>, c: int) -> int
    decreases s.len(),
{
    if s.len() == 0 {
        0
    } else {
        channel_sum(s.drop_last(), c) + channel(s.last(), c)
    }
}

/// The largest size no greater than `(mw, mh)` with the aspect ratio of
/// `(w, h)`, each side rounded down.
pub open spec fn fitted_size(w: int, h: int, mw: int, mh: int) -> (int, int) {
    if mw * h <= mh * w {
        (mw, h * mw / w)
    } else {
        (w * mh / h, mh)
    }
}

/// Gradient sample: red grows left to right, green top to bottom, blue
/// along the diagonal.
pub open spec fn gradient_pixel(w: int, h: int, x: int, y: int) -> Pixel {
    Pixel { r: (255 * x / w) as u8, g: (255 * y / h) as u8, b: (255 * (x + y) / (w + h)) as u8 }
}

/// Checkerboard of 40x30 cells: light cells with a red/green gradient over
/// blue, dark cells with a fainter gradient.
pub open spec fn pattern_pixel(w: int, h: int, x: int, y: int) -> Pixel {
    if (x / 40) % 2 == (y / 30) % 2 {
        Pixel { r: (150 + 105 * x / w) as u8, g: (150 + 105 * y / h) as u8, b: 200 }
    } else {
        Pixel { r: (100 * x / w) as u8, g: (100 * y / h) as u8, b: 50 }
    }
}

/// Six vertical bands: red, orange, yellow, green, blue, then purple to the
/// right edge.
pub open spec fn band_pixel(w: int, x: int) -> Pixel {
    let band = x / (w / 6);
    if band == 0 {
        Pixel { r: 255, g: 0, b: 0 }
    } else if band == 1 {
        Pixel { r: 255, g: 165, b: 0 }
    } else if band == 2 {
        Pixel { r: 255, g: 255, b: 0 }
    } else if band == 3 {
        Pixel { r: 0, g: 255, b: 0 }
    } else if band == 4 {
        Pixel { r: 0, g: 0, b: 255 }
    } else {
        Pixel { r: 128, g: 0, b: 128 }
    }
}

/// A frame looks corrupted when it is 10 pixels or less in either direction
/// or when five sample points (quarter, centre, three quarters, and 10
/// pixels in from two corners) all hold the same colour.
pub open spec fn looks_corrupted(img: Raster) -> bool {
    let w = img.width as int;
    let h = img.height as int;
    if w <= 10 || h <= 10 {
        true
    } else {
        let first = img.at(w / 4, h / 4);
        &&& img.at(w / 2, h / 2) == first
        &&& img.at(3 * w / 4, 3 * h / 4) == first
        &&& img.at(10, 10) == first
        &&& img.at(w - 10, h - 10) == first
    }
}

/// Noise sample: the low three bytes of `hash` as red, green and blue,
/// each raised by 50 (saturating) on alternate 20x20 cells.
pub open spec fn noise_pixel_spec(hash: u64, x: int, y: int) -> Pixel {
    let lift: int = if (x / 20 + y / 20) % 2 == 0 { 50 } else { 0 };
    let r = (hash % 256) as int;
    let g = ((hash / 256) % 256) as int;
    let b = ((hash / 65536) % 256) as int;
    Pixel {
        r: (if r + lift > 255 { 255 } else { r + lift }) as u8,
        g: (if g + lift > 255 { 255 } else { g + lift }) as u8,
        b: (if b + lift > 255 { 255 } else { b + lift }) as u8,
    }
}

/// The noise pixel at `(x, y)` for the hash of its coordinates.
pub fn noise_pixel(hash: u64, x: u32, y: u32) -> (p: Pixel)
    ensures
        p == noise_pixel_spec(hash, x as int, y as int),
{
    let lift: u8 = if ((x / 20) as u64 + (y / 20) as u64) % 2 == 0 { 50 } else { 0 };
    let r = (hash & 0xFF) as u8;
    let g = ((hash >> 8) & 0xFF) as u8;
    let b = ((hash >> 16) & 0xFF) as u8;
    proof {
        assert(hash & 0xFF == hash % 256) by (bit_vector);
        assert((hash >> 8) & 0xFF == (hash / 256) % 256) by (bit_vector);
        assert((hash >> 16) & 0xFF == (hash / 65536) % 256) by (bit_vector);
    }
    Pixel { r: r.saturating_add(lift), g: g.saturating_add(lift), b: b.saturating_add(lift) }
}

/// Relies on `image::imageops::resize` with the Lanczos3 filter: the result
/// is exactly `width` by `height`. The source is non-empty, and its
/// four-channel float copy fits in memory.
#[verifier::external_body]
fn resample(img: &Raster, width: u32, height: u32) -> (r: Raster)
    requires
        img.wf(),
        img.width > 0,
        img.height > 0,
        img.width as int * img.height as int * 4 <= usize::MAX,
        width <= img.width,
        height <= img.height,
    ensures
        r.wf(),
        r.width == width,
        r.height == height,
{
    let bytes: Vec<u8> = img.pixels.iter().flat_map(|p| [p.r, p.g, p.b]).collect();
    let src = image::RgbImage::from_raw(img.width, img.height, bytes).unwrap();
    let out = image::imageops::resize(&src, width, height, image::imageops::FilterType::Lanczos3);
    let pixels: Vec<Pixel> = out.pixels().map(|p| Pixel { r: p[0], g: p[1], b: p[2] }).collect();
    Raster { width, height, pixels }
}

fn gradient_at(w: u32, h: u32, x: u32, y: u32) -> (p: Pixel)
    requires
        x < w,
        y < h,
    ensures
        p == gradient_pixel(w as int, h as int, x as int, y as int),
{
    let w64 = w as u64;
    let h64 = h as u64;
    let r = 255 * x as u64 / w64;
    let g = 255 * y as u64 / h64;
    let b = 255 * (x as u64 + y as u64) / (w64 + h64);
    proof {
        assert(255 * (x as int) / (w as int) <= 255) by (nonlinear_arith)
            requires
                x < w,
        ;
    }
    Pixel { r: r as u8, g: g as u8, b: b as u8 }
}

fn pattern_at(w: u32, h: u32, x: u32, y: u32) -> (p: Pixel)
    requires
        x < w,
        y < h,
    ensures
        p == pattern_pixel(w as int, h as int, x as int, y as int),
{
    let rx = x as u64;
    let ry = y as u64;
    if (x / 40) % 2 == (y / 30) % 2 {
        let r = 150 + 105 * rx / w as u64;
        let g = 150 + 105 * ry / h as u64;
        Pixel { r: r as u8, g: g as u8, b: 200 }
    } else {
        let r = 100 * rx / w as u64;
        let g = 100 * ry / h as u64;
        Pixel { r: r as u8, g: g as u8, b: 50 }
    }
}

fn band_at(w: u32, x: u32) -> (p: Pixel)
    requires
        w >= 6,
    ensures
        p == band_pixel(w as int, x as int),
{
    let band = x / (w / 6);
    if band == 0 {
        Pixel { r: 255, g: 0, b: 0 }
    } else if band == 1 {
        Pixel { r: 255, g: 165, b: 0 }
    } else if band == 2 {
        Pixel { r: 255, g: 255, b: 0 }
    } else if band == 3 {
        Pixel { r: 0, g: 255, b: 0 }
    } else if band == 4 {
        Pixel { r: 0, g: 0, b: 255 }
    } else {
        Pixel { r: 128, g: 0, b: 128 }
    }
}

/// Whether `img` looks like a corrupted camera frame (see
/// `looks_corrupted`).
pub fn is_likely_corrupted(img: &Raster) -> (r: bool)
    requires
        img.wf(),
    ensures
        r == looks_corrupted(*img),
{
    let w = img.width;
    let h = img.height;
    if w <= 10 || h <= 10 {
        return true;
    }
    let first = img.get_pixel(w / 4, h / 4);
    let x3 = (3 * w as u64 / 4) as u32;
    let y3 = (3 * h as u64 / 4) as u32;
    img.get_pixel(w / 2, h / 2) == first && img.get_pixel(x3, y3) == first && img.get_pixel(10, 10)
        == first && img.get_pixel(w - 10, h - 10) == first
}

/// Loads, validates and resizes images within a maximum size.
pub struct ImageProcessor {
    pub supported_formats: Vec<&'static str>,
    pub max_dimensions: (u32, u32),
}

impl ImageProcessor {
    pub open spec fn max_size(&self) -> (u32, u32) {
        self.max_dimensions
    }

    pub open spec fn formats(&self) -> Seq<&'static str> {
        self.supported_formats@
    }

    /// Accepts png, jpg, jpeg, bmp, gif, tiff and webp up to 1920x1080.
    pub fn new() -> (p: ImageProcessor)
        ensures
            p.max_size() == (1920u32, 1080u32),
            p.formats().len() == 7,
            p.formats()[0]@ == "png"@,
            p.formats()[1]@ == "jpg"@,
            p.formats()[2]@ == "jpeg"@,
            p.formats()[3]@ == "bmp"@,
            p.formats()[4]@ == "gif"@,
            p.formats()[5]@ == "tiff"@,
            p.formats()[6]@ == "webp"@,
    {
        ImageProcessor {
            supported_formats: vec!["png", "jpg", "jpeg", "bmp", "gif", "tiff", "webp"],
            max_dimensions: (1920, 1080),
        }
    }

    /// File extensions (lower case) that can be loaded.
    pub fn supported_formats(&self) -> (r: &[&'static str])
        ensures
            r@ == self.formats(),
    {
        self.supported_formats.as_slice()
    }

    /// `(max_width, max_height)`.
    pub fn max_dimensions(&self) -> (r: (u32, u32))
        ensures
            r == self.max_size(),
    {
        self.max_dimensions
    }

    pub fn set_max_dimensions(&mut self, width: u32, height: u32)
        ensures
            final(self).max_size() == (width, height),
            final(self).formats() == old(self).formats(),
    {
        self.max_dimensions = (width, height);
    }

    /// Rejects an empty image, then one larger than the maximum size.
    pub fn validate_image(&self, image: &Raster) -> (r: Result<(), ImageError>)
        ensures
            image.width == 0 || image.height == 0 ==> r == Err::<(), ImageError>(
                ImageError::InvalidDimensions { width: image.width, height: image.height },
            ),
            image.width > 0 && image.height > 0 && (image.width > self.max_size().0 || image.height
                > self.max_size().1) ==> r == Err::<(), ImageError>(
                ImageError::TooLarge {
                    width: image.width,
                    height: image.height,
                    max_width: self.max_size().0,
                    max_height: self.max_size().1,
                },
            ),
            image.width > 0 && image.height > 0 && image.width <= self.max_size().0 && image.height
                <= self.max_size().1 ==> r is Ok,
    {
        let (width, height) = (image.width, image.height);
        if width == 0 || height == 0 {
            return Err(ImageError::InvalidDimensions { width, height });
        }
        if width > self.max_dimensions.0 || height > self.max_dimensions.1 {
            return Err(
                ImageError::TooLarge {
                    width,
                    height,
                    max_width: self.max_dimensions.0,
                    max_height: self.max_dimensions.1,
                },
            );
        }
        Ok(())
    }

    /// Size, pixel count, per-channel mean (rounded down) and a 3-bytes-per-
    /// pixel size estimate.
    pub fn get_image_info(&self, image: &Raster) -> (info: ImageInfo)
        requires
            image.wf(),
            image.pixels@.len() > 0,
            image.pixels@.len() * 3 <= usize::MAX,
        ensures
            info.width == image.width,
            info.height == image.height,
            info.pixel_count == image.pixels@.len(),
            info.average_color.r == channel_sum(image.pixels@, 0) / image.pixels@.len() as int,
            info.average_color.g == channel_sum(image.pixels@, 1) / image.pixels@.len() as int,
            info.average_color.b == channel_sum(image.pixels@, 2) / image.pixels@.len() as int,
            info.file_size_estimate == 3 * image.pixels@.len(),
    {
        let n = image.pixels.len();
        let mut total_r: u128 = 0;
        let mut total_g: u128 = 0;
        let mut total_b: u128 = 0;
        let mut i: usize = 0;
        while i < n
            invariant
                n == image.pixels@.len(),
                n * 3 <= usize::MAX,
                i <= n,
                total_r == channel_sum(image.pixels@.subrange(0, i as int), 0),
                total_g == channel_sum(image.pixels@.subrange(0, i as int), 1),
                total_b == channel_sum(image.pixels@.subrange(0, i as int), 2),
                total_r <= 255 * i,
                total_g <= 255 * i,
                total_b <= 255 * i,
            decreases n - i,
        {
            let p = image.pixels[i];
            proof {
                let s = image.pixels@.subrange(0, i + 1);
                assert(s.drop_last() =~= image.pixels@.subrange(0, i as int));
                assert(s.last() == p);
            }
            total_r = total_r + p.r as u128;
            total_g = total_g + p.g as u128;
            total_b = total_b + p.b as u128;
            i = i + 1;
        }
        proof {
            assert(image.pixels@.subrange(0, n as int) =~= image.pixels@);
            assert(total_r as int / n as int <= 255) by (nonlinear_arith)
                requires
                    total_r <= 255 * n,
                    n > 0,
            ;
            assert(total_g as int / n as int <= 255) by (nonlinear_arith)
                requires
                    total_g <= 255 * n,
                    n > 0,
            ;
            assert(total_b as int / n as int <= 255) by (nonlinear_arith)
                requires
                    total_b <= 255 * n,
                    n > 0,
            ;
        }
        ImageInfo {
            width: image.width,
            height: image.height,
            pixel_count: n,
            average_color: Pixel {
                r: (total_r / n as u128) as u8,
                g: (total_g / n as u128) as u8,
                b: (total_b / n as u128) as u8,
            },
            file_size_estimate: n * 3,
        }
    }

    /// Scales `image` down (Lanczos3) to the largest size within
    /// `max_width` by `max_height` that keeps its aspect ratio; an image
    /// that already fits comes back unchanged.
    pub fn resize_to_fit(&self, image: &Raster, max_width: u32, max_height: u32) -> (r: Raster)
        requires
            image.wf(),
            image.width > 0,
            image.height > 0,
            image.width as int * image.height as int * 4 <= usize::MAX,
        ensures
            r.wf(),
            image.width <= max_width && image.height <= max_height ==> r.width == image.width
                && r.height == image.height && r.pixels@ == image.pixels@,
            !(image.width <= max_width && image.height <= max_height) ==> (r.width as int, r.height as int)
                == fitted_size(
                image.width as int,
                image.height as int,
                max_width as int,
                max_height as int,
            ),
    {
        let w = image.width as u64;
        let h = image.height as u64;
        let mw = max_width as u64;
        let mh = max_height as u64;
        if w <= mw && h <= mh {
            let pixels = image.pixels.clone();
            proof {
                assert(pixels@ =~= image.pixels@);
            }
            return Raster { width: image.width, height: image.height, pixels };
        }
        proof {
            assert(mw * h <= 4294967295u64 * 4294967295u64) by (nonlinear_arith)
                requires
                    mw <= 4294967295u64,
                    h <= 4294967295u64,
            ;
            assert(mh * w <= 4294967295u64 * 4294967295u64) by (nonlinear_arith)
                requires
                    mh <= 4294967295u64,
                    w <= 4294967295u64,
            ;
        }
        if mw * h <= mh * w {
            proof {
                assert(mw < w) by (nonlinear_arith)
                    requires
                        mw * h <= mh * w,
                        !(w <= mw && h <= mh),
                        h > 0,
                        w > 0,
                ;
                assert((h as int) * (mw as int) / (w as int) <= h as int) by (nonlinear_arith)
                    requires
                        mw < w,
                        w > 0,
                ;
                assert(h * mw <= 4294967295u64 * 4294967295u64) by (nonlinear_arith)
                    requires
                        mw <= 4294967295u64,
                        h <= 4294967295u64,
                ;
            }
            let new_h = (h * mw / w) as u32;
            resample(image, max_width, new_h)
        } else {
            proof {
                assert(mh < h) by (nonlinear_arith)
                    requires
                        mw * h > mh * w,
                        !(w <= mw && h <= mh),
                        h > 0,
                        w > 0,
                ;
                assert((w as int) * (mh as int) / (h as int) <= w as int) by (nonlinear_arith)
                    requires
                        mh < h,
                        h > 0,
                ;
                assert(w * mh <= 4294967295u64 * 4294967295u64) by (nonlinear_arith)
                    requires
                        mh <= 4294967295u64,
                        w <= 4294967295u64,
                ;
            }
            let new_w = (w * mh / h) as u32;
            resample(image, new_w, max_height)
        }
    }

    /// `resize_to_fit` for a display area.
    pub fn resize_for_display(&self, image: &Raster, display_width: u32, display_height: u32) -> (r: Raster)
        requires
            image.wf(),
            image.width > 0,
            image.height > 0,
            image.width as int * image.height as int * 4 <= usize::MAX,
        ensures
            r.wf(),
            image.width <= display_width && image.height <= display_height ==> r.width == image.width
                && r.height == image.height && r.pixels@ == image.pixels@,
            !(image.width <= display_width && image.height <= display_height) ==> (
            r.width as int,
            r.height as int,
            ) == fitted_size(
                image.width as int,
                image.height as int,
                display_width as int,
                display_height as int,
            ),
    {
        self.resize_to_fit(image, display_width, display_height)
    }

    /// `resize_to_fit` into a `max_size` square.
    pub fn create_thumbnail(&self, image: &Raster, max_size: u32) -> (r: Raster)
        requires
            image.wf(),
            image.width > 0,
            image.height > 0,
            image.width as int * image.height as int * 4 <= usize::MAX,
        ensures
            r.wf(),
            image.width <= max_size && image.height <= max_size ==> r.width == image.width
                && r.height == image.height && r.pixels@ == image.pixels@,
            !(image.width <= max_size && image.height <= max_size) ==> (r.width as int, r.height as int)
                == fitted_size(image.width as int, image.height as int, max_size as int, max_size as int),
    {
        self.resize_to_fit(image, max_size, max_size)
    }

    /// The gradient sample image (see `gradient_pixel`).
    pub fn create_gradient_image(&self, width: u32, height: u32) -> (r: Raster)
        requires
            width > 0,
            height > 0,
            width as int * height as int <= usize::MAX,
        ensures
            r.wf(),
            r.width == width,
            r.height == height,
            forall|x: int, y: int| 0 <= x < width && 0 <= y < height ==> #[trigger] r.at(x, y)
                == gradient_pixel(width as int, height as int, x, y),
    {
        let cell = |x: u32, y: u32| -> (p: Pixel)
            requires
                width > x,
                height > y,
            ensures
                gradient_pixel(width as int, height as int, x as int, y as int) == p,
            { gradient_at(width, height, x, y) };
        let r = raster_from_fn(width, height, cell);
        proof {
            assert forall|x: int, y: int| 0 <= x < width && 0 <= y < height implies #[trigger] r.at(x, y)
                == gradient_pixel(width as int, height as int, x, y) by {
                let xu = x as u32;
                let yu = y as u32;
                assert(xu < width && yu < height);
                assert(cell.ensures((xu, yu), r.at(xu as int, yu as int)));
            }
        }
        r
    }

    /// The checkerboard sample image (see `pattern_pixel`).
    pub fn create_pattern_image(&self, width: u32, height: u32) -> (r: Raster)
        requires
            width > 0,
            height > 0,
            width as int * height as int <= usize::MAX,
        ensures
            r.wf(),
            r.width == width,
            r.height == height,
            forall|x: int, y: int| 0 <= x < width && 0 <= y < height ==> #[trigger] r.at(x, y)
                == pattern_pixel(width as int, height as int, x, y),
    {
        let cell = |x: u32, y: u32| -> (p: Pixel)
            requires
                width > x,
                height > y,
            ensures
                pattern_pixel(width as int, height as int, x as int, y as int) == p,
            { pattern_at(width, height, x, y) };
        let r = raster_from_fn(width, height, cell);
        proof {
            assert forall|x: int, y: int| 0 <= x < width && 0 <= y < height implies #[trigger] r.at(x, y)
                == pattern_pixel(width as int, height as int, x, y) by {
                let xu = x as u32;
                let yu = y as u32;
                assert(xu < width && yu < height);
                assert(cell.ensures((xu, yu), r.at(xu as int, yu as int)));
            }
        }
        r
    }

    /// The colour-band sample image (see `band_pixel`); at least six
    /// columns wide.
    pub fn create_color_bands_image(&self, width: u32, height: u32) -> (r: Raster)
        requires
            width >= 6,
            width as int * height as int <= usize::MAX,
        ensures
            r.wf(),
            r.width == width,
            r.height == height,
            forall|x: int, y: int| 0 <= x < width && 0 <= y < height ==> #[trigger] r.at(x, y)
                == band_pixel(width as int, x),
    {
        let cell = |x: u32, y: u32| -> (p: Pixel)
            ensures
                band_pixel(width as int, x as int) == p,
            { band_at(width, x) };
        let r = raster_from_fn(width, height, cell);
        proof {
            assert forall|x: int, y: int| 0 <= x < width && 0 <= y < height implies #[trigger] r.at(x, y)
                == band_pixel(width as int, x) by {
                let xu = x as u32;
                let yu = y as u32;
                assert(xu < width && yu < height);
                assert(cell.ensures((xu, yu), r.at(xu as int, yu as int)));
            }
        }
        r
    }
}

} // verus!
