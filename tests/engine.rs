use pixelsort::hue::{blend_tint_preserve_luminance, hue_to_rgb_pixel, shift_pixel_hue};
use pixelsort::intervals::find_intervals;
use pixelsort::pixel::Pixel;
use pixelsort::raster::Raster;
use pixelsort::sorter::{PixelSorter, SortingAlgorithm, SortingParameters};

fn grey(v: u8) -> Pixel {
    Pixel::new(v, v, v)
}

fn params(threshold: u32, hue_shift: u32) -> SortingParameters {
    SortingParameters { threshold, hue_shift, color_tint: 0 }
}

fn noise_image(w: u32, h: u32, seed: u32) -> Raster {
    let mut state: u32 = seed;
    let mut pixels = Vec::new();
    for _ in 0..(w * h) {
        let mut next = || {
            state = state.wrapping_mul(1664525).wrapping_add(1013904223);
            (state >> 24) as u8
        };
        let r = next();
        let g = next();
        let b = next();
        pixels.push(Pixel::new(r, g, b));
    }
    Raster::from_pixels(w, h, pixels).unwrap()
}

fn sorted_values(img: &Raster) -> Vec<(u8, u8, u8)> {
    let mut v: Vec<(u8, u8, u8)> = img.pixels.iter().map(|p| (p.r, p.g, p.b)).collect();
    v.sort();
    v
}

const ALL: [SortingAlgorithm; 4] = [
    SortingAlgorithm::Horizontal,
    SortingAlgorithm::Vertical,
    SortingAlgorithm::Diagonal,
    SortingAlgorithm::Radial,
];

#[test]
fn scenario_four_pixel_row_threshold_fifty() {
    let row = vec![grey(0), grey(10), grey(200), grey(5)];
    assert_eq!(find_intervals(&row, 50000), vec![(0, 2)]);
    let img = Raster::from_pixels(4, 1, row.clone()).unwrap();
    let out = PixelSorter::new().sort_pixels(&img, SortingAlgorithm::Horizontal, &params(50000, 0));
    assert_eq!(out.pixels, row);
}

#[test]
fn scenario_unsorted_pair_is_sorted_and_rest_untouched() {
    let row = vec![grey(10), grey(0), grey(200), grey(5)];
    let img = Raster::from_pixels(4, 1, row).unwrap();
    let out = PixelSorter::new().sort_pixels(&img, SortingAlgorithm::Horizontal, &params(50000, 0));
    assert_eq!(out.pixels, vec![grey(0), grey(10), grey(200), grey(5)]);
}

#[test]
fn sort_keeps_multiset_for_every_algorithm() {
    let sorter = PixelSorter::new();
    for (i, alg) in ALL.iter().enumerate() {
        let img = noise_image(23, 17, i as u32 + 7);
        for t in [0u32, 20000, 50000, 255000] {
            let out = sorter.sort_pixels(&img, *alg, &params(t, 0));
            assert_eq!(out.dimensions(), img.dimensions());
            assert_eq!(sorted_values(&out), sorted_values(&img));
        }
    }
}

#[test]
fn sort_pixels_leaves_input_untouched() {
    let img = noise_image(8, 8, 3);
    let copy = img.pixels.clone();
    let _ = PixelSorter::new().sort_pixels(&img, SortingAlgorithm::Vertical, &params(255000, 0));
    assert_eq!(img.pixels, copy);
}

#[test]
fn full_threshold_sorts_whole_rows() {
    let img = noise_image(16, 4, 11);
    let sorter = PixelSorter::new();
    let out = sorter.sort_pixels(&img, SortingAlgorithm::Horizontal, &params(255000, 0));
    for y in 0..4 {
        for x in 1..16 {
            let a = out.get_pixel(x - 1, y).luminance();
            let b = out.get_pixel(x, y).luminance();
            assert!(a <= b);
        }
    }
}

#[test]
fn full_threshold_sorts_whole_columns() {
    let img = noise_image(5, 9, 12);
    let out = PixelSorter::new().sort_pixels(&img, SortingAlgorithm::Vertical, &params(255000, 0));
    for x in 0..5 {
        for y in 1..9 {
            assert!(out.get_pixel(x, y - 1).luminance() <= out.get_pixel(x, y).luminance());
        }
    }
}

#[test]
fn full_threshold_sorts_main_diagonal() {
    let img = noise_image(6, 6, 13);
    let out = PixelSorter::new().sort_pixels(&img, SortingAlgorithm::Diagonal, &params(255000, 0));
    for i in 1..6 {
        assert!(out.get_pixel(i - 1, i - 1).luminance() <= out.get_pixel(i, i).luminance());
    }
}

#[test]
fn horizontal_sort_twice_equals_once_on_gradient_rows() {
    let mut pixels = Vec::new();
    for _y in 0..3 {
        for x in 0..32u32 {
            pixels.push(grey((x * 8) as u8));
        }
    }
    let img = Raster::from_pixels(32, 3, pixels).unwrap();
    let sorter = PixelSorter::new();
    let p = params(50000, 0);
    let once = sorter.sort_pixels(&img, SortingAlgorithm::Horizontal, &p);
    let twice = sorter.sort_pixels(&once, SortingAlgorithm::Horizontal, &p);
    assert_eq!(once.pixels, img.pixels);
    assert_eq!(twice.pixels, once.pixels);
}

#[test]
fn zero_threshold_on_strict_gradient_has_no_intervals() {
    let row: Vec<Pixel> = (0..20u8).map(|v| grey(v * 3)).collect();
    assert!(find_intervals(&row, 0).is_empty());
    let img = Raster::from_pixels(20, 1, row.clone()).unwrap();
    let out = PixelSorter::new().sort_pixels(&img, SortingAlgorithm::Horizontal, &params(0, 0));
    assert_eq!(out.pixels, row);
}

#[test]
fn zero_threshold_merges_flat_runs() {
    let row = vec![grey(9), grey(9), grey(3), Pixel::new(0, 0, 0)];
    assert_eq!(find_intervals(&row, 0), vec![(0, 2)]);
}

#[test]
fn find_intervals_short_inputs() {
    assert!(find_intervals(&vec![], 0).is_empty());
    assert!(find_intervals(&vec![grey(4)], 0).is_empty());
    assert_eq!(find_intervals(&vec![grey(4), grey(200)], 255000), vec![(0, 2)]);
}

#[test]
fn radial_runs_on_small_and_odd_sizes() {
    let sorter = PixelSorter::new();
    for (w, h) in [(1u32, 1u32), (2, 2), (3, 7), (7, 3), (10, 10), (64, 48)] {
        let img = noise_image(w, h, w * 31 + h);
        let out = sorter.sort_pixels(&img, SortingAlgorithm::Radial, &params(255000, 0));
        assert_eq!(out.dimensions(), (w, h));
        assert_eq!(sorted_values(&out), sorted_values(&img));
    }
}

#[test]
fn radial_leaves_corners_of_large_image() {
    let img = noise_image(40, 40, 99);
    let out = PixelSorter::new().sort_pixels(&img, SortingAlgorithm::Radial, &params(255000, 0));
    assert_eq!(out.get_pixel(0, 0), img.get_pixel(0, 0));
    assert_eq!(out.get_pixel(39, 0), img.get_pixel(39, 0));
}

#[test]
fn hue_rotation_round_trip_within_one() {
    let degrees = [0u32, 1, 37, 60, 90, 120, 179, 180, 200, 301, 359];
    let mut v: u32 = 0;
    while v < 256 * 256 * 256 {
        let p = Pixel::new((v >> 16) as u8, (v >> 8) as u8, v as u8);
        for d in degrees {
            let q = shift_pixel_hue(&shift_pixel_hue(&p, d), 360 - d);
            assert!((q.r as i32 - p.r as i32).abs() <= 1);
            assert!((q.g as i32 - p.g as i32).abs() <= 1);
            assert!((q.b as i32 - p.b as i32).abs() <= 1);
        }
        v += 4099;
    }
}

#[test]
fn hue_rotation_exact_values() {
    let red = Pixel::new(255, 0, 0);
    assert_eq!(shift_pixel_hue(&red, 120), Pixel::new(0, 255, 0));
    assert_eq!(shift_pixel_hue(&red, 240), Pixel::new(0, 0, 255));
    assert_eq!(shift_pixel_hue(&red, 60), Pixel::new(255, 255, 0));
    assert_eq!(shift_pixel_hue(&red, 30), Pixel::new(255, 128, 0));
    assert_eq!(shift_pixel_hue(&Pixel::new(100, 50, 50), 360), Pixel::new(100, 50, 50));
    assert_eq!(shift_pixel_hue(&grey(77), 123), grey(77));
}

#[test]
fn hue_to_rgb_exact_values() {
    assert_eq!(hue_to_rgb_pixel(0), Pixel::new(255, 0, 0));
    assert_eq!(hue_to_rgb_pixel(60), Pixel::new(255, 255, 0));
    assert_eq!(hue_to_rgb_pixel(180), Pixel::new(0, 255, 255));
    assert_eq!(hue_to_rgb_pixel(300), Pixel::new(255, 0, 255));
    assert_eq!(hue_to_rgb_pixel(420), Pixel::new(255, 255, 0));
}

#[test]
fn tint_blend_exact_values() {
    let red = Pixel::new(255, 0, 0);
    assert_eq!(blend_tint_preserve_luminance(&grey(128), &red, 20), Pixel::new(128, 102, 102));
    assert_eq!(blend_tint_preserve_luminance(&grey(10), &red, 20), Pixel::new(10, 9, 9));
    assert_eq!(blend_tint_preserve_luminance(&grey(250), &red, 20), Pixel::new(250, 235, 235));
    assert_eq!(blend_tint_preserve_luminance(&grey(128), &red, 0), grey(128));
}

#[test]
fn apply_tint_to_image_uses_hue_color() {
    let sorter = PixelSorter::new();
    let mut img = Raster::filled(2, 2, grey(128)).unwrap();
    sorter.apply_tint_to_image(&mut img, 120);
    for p in img.pixels.iter() {
        assert_eq!(*p, Pixel::new(102, 128, 102));
    }
}

#[test]
fn pre_sort_hue_shift_is_applied() {
    let img = Raster::from_pixels(2, 1, vec![Pixel::new(255, 0, 0), Pixel::new(255, 0, 0)]).unwrap();
    let out = PixelSorter::new().sort_pixels(&img, SortingAlgorithm::Horizontal, &params(50000, 120));
    assert_eq!(out.pixels, vec![Pixel::new(0, 255, 0), Pixel::new(0, 255, 0)]);
}

#[test]
fn preview_sort_matches_sort_on_grey_row() {
    let img = Raster::from_pixels(3, 1, vec![grey(30), grey(20), grey(10)]).unwrap();
    let out = PixelSorter::new().preview_sort(&img, SortingAlgorithm::Horizontal, &params(50000, 0));
    assert_eq!(out.pixels, vec![grey(10), grey(20), grey(30)]);
}

#[test]
fn algorithm_cycle_wraps_and_lists_all() {
    assert_eq!(SortingAlgorithm::Radial.next(), SortingAlgorithm::Horizontal);
    assert_eq!(SortingAlgorithm::Diagonal.next(), SortingAlgorithm::Radial);
    assert_eq!(SortingAlgorithm::all().len(), 4);
    assert_eq!(SortingAlgorithm::Radial.name(), "Radial");
}

#[test]
fn raster_constructors() {
    assert!(Raster::from_pixels(2, 2, vec![grey(1); 3]).is_none());
    let img = Raster::filled(3, 2, grey(9)).unwrap();
    assert_eq!(img.pixels.len(), 6);
    let mut img = img;
    img.put_pixel(2, 1, grey(4));
    assert_eq!(img.get_pixel(2, 1), grey(4));
    assert_eq!(img.pixels[5], grey(4));
}

#[test]
fn image_hue_shift_round_trip_within_one() {
    let sorter = PixelSorter::new();
    let img = noise_image(12, 9, 5);
    let mut shifted = img.clone();
    sorter.apply_hue_shift(&mut shifted, 77);
    assert_ne!(shifted.pixels, img.pixels);
    sorter.apply_hue_shift(&mut shifted, 283);
    for (a, b) in shifted.pixels.iter().zip(img.pixels.iter()) {
        assert!((a.r as i32 - b.r as i32).abs() <= 1);
        assert!((a.g as i32 - b.g as i32).abs() <= 1);
        assert!((a.b as i32 - b.b as i32).abs() <= 1);
    }
}
