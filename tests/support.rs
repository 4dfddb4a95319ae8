use pixelsort::buttons::{accept_press, default_buttons, ButtonFunction, DEBOUNCE_MS};
use pixelsort::config::{Config, ConfigBuilder, ConfigError};
use pixelsort::pixel::Pixel;
use pixelsort::processor::{is_likely_corrupted, ImageError, ImageProcessor};
use pixelsort::raster::Raster;

#[test]
fn config_error_variants() {
    let mut c = Config::default();
    c.display.width = 0;
    assert_eq!(c.validate(), Err(ConfigError::InvalidDisplayDimensions));

    let mut c = Config::default();
    c.display.image_display_height = 481;
    assert_eq!(c.validate(), Err(ConfigError::ImageAreaLargerThanScreen));

    let mut c = Config::default();
    c.processing.default_threshold = 255001;
    assert_eq!(c.validate(), Err(ConfigError::InvalidThreshold));

    let mut c = Config::default();
    c.processing.default_interval = 0;
    assert_eq!(c.validate(), Err(ConfigError::InvalidInterval));

    let mut c = Config::default();
    c.gpio.pins.save_image = 20;
    assert_eq!(c.validate(), Err(ConfigError::DuplicatePin(20)));
}

#[test]
fn update_display_size_sets_image_area() {
    let mut c = Config::default();
    assert_eq!(c.update_display_size(0, 5), Err(ConfigError::InvalidDisplayDimensions));
    assert_eq!(c.display.width, 800);
    assert!(c.update_display_size(1000, 500).is_ok());
    assert_eq!(c.display.image_display_width, 600);
    assert_eq!(c.display.image_display_height, 375);
}

#[test]
fn builder_pins_and_sizes() {
    let c = ConfigBuilder::new().gpio_pin("next_algorithm", 7).gpio_pin("bogus", 9).max_image_size(640, 480);
    assert_eq!(c.config.gpio.pins.next_algorithm, 7);
    assert_eq!(c.config.gpio.pins.load_image, 18);
    assert_eq!(c.config.processing.max_image_width, 640);
    let dup = ConfigBuilder::new().gpio_pin("save_image", 18).build();
    assert!(matches!(dup, Err(ConfigError::DuplicatePin(18))));
}

#[test]
fn presets_and_resolutions() {
    assert!(!Config::development_desktop().gpio.enabled);
    assert_eq!(Config::raspberry_pi_hdmi().processing.max_image_width, 2560);
    assert!(!Config::development_desktop().is_raspberry_pi_resolution());
    assert_eq!(Config::default().paths.config_file, "pixelsort_config.toml");
}

#[test]
fn button_ids_round_trip() {
    for b in default_buttons() {
        assert_eq!(ButtonFunction::from_id(b.function.id()), Some(b.function));
    }
    assert_eq!(default_buttons()[4].pin, 26);
}

#[test]
fn validate_image_errors() {
    let p = ImageProcessor::new();
    let empty = Raster::from_pixels(0, 0, vec![]).unwrap();
    assert_eq!(p.validate_image(&empty), Err(ImageError::InvalidDimensions { width: 0, height: 0 }));
    let wide = Raster::filled(2000, 1, Pixel::new(0, 0, 0)).unwrap();
    assert_eq!(
        p.validate_image(&wide),
        Err(ImageError::TooLarge { width: 2000, height: 1, max_width: 1920, max_height: 1080 })
    );
    let mut p2 = ImageProcessor::new();
    p2.set_max_dimensions(4000, 4000);
    assert!(p2.validate_image(&wide).is_ok());
}

#[test]
fn image_info_average_and_size() {
    let p = ImageProcessor::new();
    let img = Raster::from_pixels(2, 1, vec![Pixel::new(0, 0, 0), Pixel::new(255, 100, 3)]).unwrap();
    let info = p.get_image_info(&img);
    assert_eq!(info.average_color, Pixel::new(127, 50, 1));
    assert_eq!(info.file_size_estimate, 6);
}

#[test]
fn sample_pattern_values() {
    let p = ImageProcessor::new();
    let g = p.create_gradient_image(10, 10);
    assert_eq!(g.get_pixel(5, 5), Pixel::new(127, 127, 127));
    let pat = p.create_pattern_image(100, 60);
    assert_eq!(pat.get_pixel(0, 0), Pixel::new(150, 150, 200));
    assert_eq!(pat.get_pixel(40, 0), Pixel::new(40, 0, 50));
    let bands = p.create_color_bands_image(12, 2);
    assert_eq!(bands.get_pixel(0, 1), Pixel::new(255, 0, 0));
    assert_eq!(bands.get_pixel(2, 0), Pixel::new(255, 165, 0));
    assert_eq!(bands.get_pixel(11, 0), Pixel::new(128, 0, 128));
}

#[test]
fn resize_fits_and_keeps_small_images() {
    let p = ImageProcessor::new();
    let img = p.create_gradient_image(300, 100);
    let r = p.resize_to_fit(&img, 150, 150);
    assert_eq!(r.dimensions(), (150, 50));
    assert_eq!(r.pixels.len(), 150 * 50);
    let same = p.resize_to_fit(&img, 400, 400);
    assert_eq!(same.pixels, img.pixels);
    let thumb = p.create_thumbnail(&img, 30);
    assert_eq!(thumb.dimensions(), (30, 10));
}

#[test]
fn corrupted_frame_detection() {
    assert!(is_likely_corrupted(&Raster::filled(5, 5, Pixel::new(1, 2, 3)).unwrap()));
    assert!(is_likely_corrupted(&Raster::filled(20, 20, Pixel::new(1, 2, 3)).unwrap()));
    let p = ImageProcessor::new();
    assert!(!is_likely_corrupted(&p.create_gradient_image(20, 20)));
}

#[test]
fn debounce_window() {
    assert!(accept_press(None, 5, DEBOUNCE_MS));
    assert!(!accept_press(Some(1000), 1199, DEBOUNCE_MS));
    assert!(accept_press(Some(1000), 1200, DEBOUNCE_MS));
    assert!(!accept_press(Some(1000), 900, DEBOUNCE_MS));
}

#[test]
fn crop_region_pads_with_black() {
    let p = ImageProcessor::new();
    let g = p.create_gradient_image(10, 10);
    let c = pixelsort::raster::crop_region(&g, 8, 8, 4, 3);
    assert_eq!(c.dimensions(), (4, 3));
    assert_eq!(c.get_pixel(0, 0), g.get_pixel(8, 8));
    assert_eq!(c.get_pixel(1, 1), g.get_pixel(9, 9));
    assert_eq!(c.get_pixel(2, 0), Pixel::new(0, 0, 0));
}

#[test]
fn noise_pixel_lifts_alternate_cells() {
    let h: u64 = 0x00C8_1E05;
    assert_eq!(pixelsort::processor::noise_pixel(h, 0, 0), Pixel::new(55, 80, 250));
    assert_eq!(pixelsort::processor::noise_pixel(h, 20, 0), Pixel::new(5, 30, 200));
    assert_eq!(pixelsort::processor::noise_pixel(0xFFFF_FFFF, 0, 0), Pixel::new(255, 255, 255));
}
