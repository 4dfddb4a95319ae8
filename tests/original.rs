use pixelsort::buttons::ButtonFunction;
use pixelsort::config::{Config, ConfigBuilder};
use pixelsort::pixel::Pixel;
use pixelsort::processor::ImageProcessor;
use pixelsort::sorter::{PixelSorter, SortingAlgorithm, SortingParameters};

#[test]
fn test_button_function_from_id() {
    assert!(matches!(ButtonFunction::from_id(1), Some(ButtonFunction::LoadImage)));
    assert!(matches!(ButtonFunction::from_id(5), Some(ButtonFunction::SaveImage)));
    assert!(ButtonFunction::from_id(0).is_none());
    assert!(ButtonFunction::from_id(6).is_none());
}

#[test]
fn test_button_descriptions() {
    assert_eq!(ButtonFunction::LoadImage.description(), "Load new image");
    assert_eq!(ButtonFunction::SaveImage.description(), "Save image");
}

#[test]
fn test_image_processor_creation() {
    let processor = ImageProcessor::new();
    assert!(!processor.supported_formats().is_empty());
    assert!(processor.max_dimensions().0 > 0);
    assert!(processor.max_dimensions().1 > 0);
}

#[test]
fn test_gradient_image_creation() {
    let processor = ImageProcessor::new();
    let image = processor.create_gradient_image(100, 100);
    assert_eq!(image.dimensions(), (100, 100));

    let top_left = image.get_pixel(0, 0);
    let bottom_right = image.get_pixel(99, 99);
    assert!(top_left.r < bottom_right.r);
    assert!(top_left.g < bottom_right.g);
}

#[test]
fn test_image_info() {
    let processor = ImageProcessor::new();
    let image = processor.create_gradient_image(10, 10);
    let info = processor.get_image_info(&image);

    assert_eq!(info.width, 10);
    assert_eq!(info.height, 10);
    assert_eq!(info.pixel_count, 100);
    assert_eq!(info.width as f32 / info.height as f32, 1.0);
}

#[test]
fn test_resize_to_fit() {
    let processor = ImageProcessor::new();
    let large_image = processor.create_gradient_image(2000, 1000);
    let resized = processor.resize_to_fit(&large_image, 800, 600);

    assert!(resized.width <= 800);
    assert!(resized.height <= 600);

    let original_ratio = 2000.0 / 1000.0;
    let resized_ratio = resized.width as f32 / resized.height as f32;
    assert!((original_ratio - resized_ratio).abs() < 0.01);
}

#[test]
fn test_pixel_brightness() {
    let sorter = PixelSorter::new();
    let white = Pixel::new(255, 255, 255);
    let black = Pixel::new(0, 0, 0);
    let red = Pixel::new(255, 0, 0);

    assert!(sorter.pixel_brightness(&white) > sorter.pixel_brightness(&black));
    assert!(sorter.pixel_brightness(&white) > sorter.pixel_brightness(&red));
}

#[test]
fn test_algorithm_cycling() {
    let algorithm = SortingAlgorithm::Horizontal;
    let next = algorithm.next();
    assert_eq!(next.name(), "Vertical");
}

#[test]
fn test_sorting_parameters_default() {
    let params = SortingParameters::default();
    assert_eq!(params.threshold, 50000);
    assert_eq!(params.hue_shift, 0);
}

#[test]
fn test_default_config() {
    let config = Config::default();
    assert!(config.validate().is_ok());
    assert!(config.is_raspberry_pi_resolution());
}

#[test]
fn test_config_builder() {
    let config = ConfigBuilder::new()
        .display_size(1024, 768)
        .fullscreen(false)
        .gpio_enabled(false)
        .default_threshold(75000)
        .build()
        .unwrap();

    assert_eq!(config.display.width, 1024);
    assert_eq!(config.display.height, 768);
    assert!(!config.display.fullscreen);
    assert!(!config.gpio.enabled);
    assert_eq!(config.processing.default_threshold, 75000);
}

#[test]
fn test_config_validation() {
    let mut config = Config::default();

    config.processing.default_threshold = 300000;
    assert!(config.validate().is_err());

    config.processing.default_threshold = 50000;
    config.gpio.pins.load_image = 18;
    config.gpio.pins.next_algorithm = 18;
    assert!(config.validate().is_err());
}

#[test]
fn test_preset_configs() {
    assert!(Config::raspberry_pi_7inch().validate().is_ok());
    assert!(Config::development_desktop().validate().is_ok());
    assert!(Config::raspberry_pi_hdmi().validate().is_ok());
}
