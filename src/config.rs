//! Kiosk configuration: display, GPIO wiring, processing defaults and
//! paths, with validation, a builder and presets.
use vstd::prelude::*;
use crate::pixel::MAX_LUMA;

verus! {

#[derive(Clone, Copy, Debug, PartialEq, Eq, Structural)]
pub struct DisplayConfig {
    pub width: u32,
    pub height: u32,
    pub fullscreen: bool,
    pub image_display_width: u32,
    pub image_display_height: u32,
}

#[derive(Clone, Copy, Debug, PartialEq, Eq, Structural)]
pub struct GpioPins {
    pub load_image: u8,
    pub next_algorithm: u8,
    pub threshold_up: u8,
    pub threshold_down: u8,
    pub save_image: u8,
}

#[derive(Clone, Copy, Debug, PartialEq, Eq, Structural)]
pub struct GpioConfig {
    pub enabled: bool,
    pub debounce_ms: u64,
    pub pins: GpioPins,
}

#[derive(Clone, Copy, Debug, PartialEq, Eq, Structural)]
pub struct ProcessingConfig {
    /// In thousandths of a luminance unit (`0 ..= 255000`).
    pub default_threshold: u32,
    pub default_interval: usize,
    pub max_image_width: u32,
    pub max_image_height: u32,
    pub preview_scale_factor: u32,
}

#[derive(Clone, Debug)]
pub struct PathConfig {
    pub sample_images_dir: String,
    pub default_save_dir: String,
    pub config_file: String,
}

#[derive(Clone, Debug)]
pub struct Config {
    pub display: DisplayConfig,
    pub gpio: GpioConfig,
    pub processing: ProcessingConfig,
    pub paths: PathConfig,
}

/// Why a configuration is rejected.
#[derive(Clone, Copy, Debug, PartialEq, Eq, Structural)]
pub enum ConfigError {
    InvalidDisplayDimensions,
    ImageAreaLargerThanScreen,
    InvalidThreshold,
    InvalidInterval,
    DuplicatePin(u8),
}

pub open spec fn default_display() -> DisplayConfig {
    DisplayConfig {
        width: 800,
        height: 480,
        fullscreen: true,
        image_display_width: 480,
        image_display_height: 360,
    }
}

pub open spec fn default_gpio() -> GpioConfig {
    GpioConfig {
        enabled: true,
        debounce_ms: 200,
        pins: GpioPins {
            load_image: 18,
            next_algorithm: 19,
            threshold_up: 20,
            threshold_down: 21,
            save_image: 26,
        },
    }
}

pub open spec fn default_processing() -> ProcessingConfig {
    ProcessingConfig {
        default_threshold: 50000,
        default_interval: 10,
        max_image_width: 1920,
        max_image_height: 1080,
        preview_scale_factor: 4,
    }
}

/// The default paths.
pub open spec fn is_default_paths(p: PathConfig) -> bool {
    &&& p.sample_images_dir@ == "sample_images"@
    &&& p.default_save_dir@ == "output"@
    &&& p.config_file@ == "pixelsort_config.toml"@
}

/// The pins in id order of their functions.
pub open spec fn pin_list(p: GpioPins) -> Seq<u8> {
    seq![p.load_image, p.next_algorithm, p.threshold_up, p.threshold_down, p.save_image]
}

/// The first pin, in list order, that occurs again later in `s[i..]`.
pub open spec fn first_duplicate(s: Seq<u8>, i: int) -> Option<u8>
    decreases s.len() - i,
{
    if i < 0 || i >= s.len() {
        None
    } else if exists|j: int| i < j < s.len() && s[j] == s[i] {
        Some(s[i])
    } else {
        first_duplicate(s, i + 1)
    }
}

/// The first check that `c` fails, if any.
pub open spec fn config_error(c: Config) -> Option<ConfigError> {
    if c.display.width == 0 || c.display.height == 0 {
        Some(ConfigError::InvalidDisplayDimensions)
    } else if c.display.image_display_width > c.display.width || c.display.image_display_height
        > c.display.height {
        Some(ConfigError::ImageAreaLargerThanScreen)
    } else if c.processing.default_threshold > MAX_LUMA {
        Some(ConfigError::InvalidThreshold)
    } else if c.processing.default_interval == 0 {
        Some(ConfigError::InvalidInterval)
    } else {
        match first_duplicate(pin_list(c.gpio.pins), 0) {
            Some(p) => Some(ConfigError::DuplicatePin(p)),
            None => None,
        }
    }
}

fn default_paths() -> (p: PathConfig)
    ensures
        is_default_paths(p),
{
    PathConfig {
        sample_images_dir: "sample_images".to_owned(),
        default_save_dir: "output".to_owned(),
        config_file: "pixelsort_config.toml".to_owned(),
    }
}

impl Default for Config {
    fn default() -> (c: Config)
        ensures
            c.display == default_display(),
            c.gpio == default_gpio(),
            c.processing == default_processing(),
            is_default_paths(c.paths),
    {
        Config {
            display: DisplayConfig {
                width: 800,
                height: 480,
                fullscreen: true,
                image_display_width: 480,
                image_display_height: 360,
            },
            gpio: GpioConfig {
                enabled: true,
                debounce_ms: 200,
                pins: GpioPins {
                    load_image: 18,
                    next_algorithm: 19,
                    threshold_up: 20,
                    threshold_down: 21,
                    save_image: 26,
                },
            },
            processing: ProcessingConfig {
                default_threshold: 50000,
                default_interval: 10,
                max_image_width: 1920,
                max_image_height: 1080,
                preview_scale_factor: 4,
            },
            paths: default_paths(),
        }
    }
}

/// The first duplicated pin of `pins`, scanning pairs in order.
fn find_duplicate_pin(pins: &Vec<u8>) -> (r: Option<u8>)
    ensures
        r == first_duplicate(pins@, 0),
{
    let n = pins.len();
    let mut i: usize = 0;
    while i < n
        invariant
            n == pins@.len(),
            i <= n,
            first_duplicate(pins@, 0) == first_duplicate(pins@, i as int),
        decreases n - i,
    {
        let mut j: usize = i + 1;
        while j < n
            invariant
                n == pins@.len(),
                i < n,
                i + 1 <= j <= n,
                forall|k: int| i < k < j ==> pins@[k] != pins@[i as int],
                first_duplicate(pins@, 0) == first_duplicate(pins@, i as int),
            decreases n - j,
        {
            if pins[j] == pins[i] {
                proof {
                    assert(pins@[j as int] == pins@[i as int]);
                    assert(first_duplicate(pins@, i as int) == Some(pins@[i as int]));
                }
                return Some(pins[i]);
            }
            j = j + 1;
        }
        i = i + 1;
    }
    None
}

impl Config {
    /// Checks, in order: display size non-zero, image area within the
    /// screen, threshold at most 255 luminance units, interval non-zero, no
    /// pin used twice.
    pub fn validate(&self) -> (r: Result<(), ConfigError>)
        ensures
            match config_error(*self) {
                Some(e) => r == Err::<(), ConfigError>(e),
                None => r is Ok,
            },
    {
        if self.display.width == 0 || self.display.height == 0 {
            return Err(ConfigError::InvalidDisplayDimensions);
        }
        if self.display.image_display_width > self.display.width || self.display.image_display_height
            > self.display.height {
            return Err(ConfigError::ImageAreaLargerThanScreen);
        }
        if self.processing.default_threshold > MAX_LUMA {
            return Err(ConfigError::InvalidThreshold);
        }
        if self.processing.default_interval == 0 {
            return Err(ConfigError::InvalidInterval);
        }
        let pins = vec![
            self.gpio.pins.load_image,
            self.gpio.pins.next_algorithm,
            self.gpio.pins.threshold_up,
            self.gpio.pins.threshold_down,
            self.gpio.pins.save_image,
        ];
        proof {
            assert(pins@ =~= pin_list(self.gpio.pins));
        }
        match find_duplicate_pin(&pins) {
            Some(p) => Err(ConfigError::DuplicatePin(p)),
            None => Ok(()),
        }
    }

    /// Whether the display size is one of the common Raspberry Pi panel
    /// resolutions.
    pub fn is_raspberry_pi_resolution(&self) -> (r: bool)
        ensures
            r == ((self.display.width == 800 && self.display.height == 480) || (self.display.width
                == 1024 && self.display.height == 600) || (self.display.width == 1280
                && self.display.height == 720) || (self.display.width == 1920 && self.display.height
                == 1080)),
    {
        (self.display.width == 800 && self.display.height == 480) || (self.display.width == 1024
            && self.display.height == 600) || (self.display.width == 1280 && self.display.height
            == 720) || (self.display.width == 1920 && self.display.height == 1080)
    }

    /// Sets the display size; the image area becomes 60% of the width and
    /// 75% of the height (rounded down). Rejects a zero size and then
    /// changes nothing.
    pub fn update_display_size(&mut self, width: u32, height: u32) -> (r: Result<(), ConfigError>)
        ensures
            width == 0 || height == 0 ==> r == Err::<(), ConfigError>(
                ConfigError::InvalidDisplayDimensions,
            ) && final(self).display == old(self).display,
            width != 0 && height != 0 ==> r is Ok && final(self).display == (DisplayConfig {
                width,
                height,
                fullscreen: old(self).display.fullscreen,
                image_display_width: (width * 3 / 5) as u32,
                image_display_height: (height * 3 / 4) as u32,
            }),
            final(self).gpio == old(self).gpio,
            final(self).processing == old(self).processing,
            final(self).paths == old(self).paths,
    {
        if width == 0 || height == 0 {
            return Err(ConfigError::InvalidDisplayDimensions);
        }
        self.display.width = width;
        self.display.height = height;
        self.display.image_display_width = (width as u64 * 3 / 5) as u32;
        self.display.image_display_height = (height as u64 * 3 / 4) as u32;
        Ok(())
    }

    /// 800x480 touchscreen, everything else default.
    pub fn raspberry_pi_7inch() -> (c: Config)
        ensures
            c.display == default_display(),
            c.gpio == default_gpio(),
            c.processing == default_processing(),
            is_default_paths(c.paths),
    {
        let d = Config::default();
        Config {
            display: DisplayConfig {
                width: 800,
                height: 480,
                fullscreen: true,
                image_display_width: 480,
                image_display_height: 360,
            },
            ..d
        }
    }

    /// 1024x768 window without GPIO.
    pub fn development_desktop() -> (c: Config)
        ensures
            c.display == (DisplayConfig {
                width: 1024,
                height: 768,
                fullscreen: false,
                image_display_width: 600,
                image_display_height: 450,
            }),
            c.gpio == (GpioConfig { enabled: false, ..default_gpio() }),
            c.processing == default_processing(),
            is_default_paths(c.paths),
    {
        let d = Config::default();
        Config {
            display: DisplayConfig {
                width: 1024,
                height: 768,
                fullscreen: false,
                image_display_width: 600,
                image_display_height: 450,
            },
            gpio: GpioConfig { enabled: false, ..d.gpio },
            ..d
        }
    }

    /// 1920x1080 HDMI display, with larger images allowed.
    pub fn raspberry_pi_hdmi() -> (c: Config)
        ensures
            c.display == (DisplayConfig {
                width: 1920,
                height: 1080,
                fullscreen: true,
                image_display_width: 1200,
                image_display_height: 900,
            }),
            c.gpio == default_gpio(),
            c.processing == (ProcessingConfig {
                max_image_width: 2560,
                max_image_height: 1440,
                ..default_processing()
            }),
            is_default_paths(c.paths),
    {
        let d = Config::default();
        Config {
            display: DisplayConfig {
                width: 1920,
                height: 1080,
                fullscreen: true,
                image_display_width: 1200,
                image_display_height: 900,
            },
            processing: ProcessingConfig {
                max_image_width: 2560,
                max_image_height: 1440,
                ..d.processing
            },
            ..d
        }
    }
}

/// Builds a `Config` from the defaults, checked on `build`.
pub struct ConfigBuilder {
    pub config: Config,
}

/// `a` and `b` hold the same text.
fn same_text(a: &str, b: &str) -> (r: bool)
    ensures
        r == (a@ == b@),
{
    a.to_owned() == b.to_owned()
}

impl ConfigBuilder {
    pub fn new() -> (b: ConfigBuilder)
        ensures
            b.config.display == default_display(),
            b.config.gpio == default_gpio(),
            b.config.processing == default_processing(),
            is_default_paths(b.config.paths),
    {
        ConfigBuilder { config: Config::default() }
    }

    pub fn display_size(self, width: u32, height: u32) -> (b: ConfigBuilder)
        ensures
            b.config.display == (DisplayConfig { width, height, ..self.config.display }),
            b.config.gpio == self.config.gpio,
            b.config.processing == self.config.processing,
            b.config.paths == self.config.paths,
    {
        let mut b = self;
        b.config.display.width = width;
        b.config.display.height = height;
        b
    }

    pub fn fullscreen(self, enabled: bool) -> (b: ConfigBuilder)
        ensures
            b.config.display == (DisplayConfig { fullscreen: enabled, ..self.config.display }),
            b.config.gpio == self.config.gpio,
            b.config.processing == self.config.processing,
            b.config.paths == self.config.paths,
    {
        let mut b = self;
        b.config.display.fullscreen = enabled;
        b
    }

    pub fn gpio_enabled(self, enabled: bool) -> (b: ConfigBuilder)
        ensures
            b.config.display == self.config.display,
            b.config.gpio == (GpioConfig { enabled, ..self.config.gpio }),
            b.config.processing == self.config.processing,
            b.config.paths == self.config.paths,
    {
        let mut b = self;
        b.config.gpio.enabled = enabled;
        b
    }

    /// Wires the function named `function` (`load_image`, `next_algorithm`,
    /// `threshold_up`, `threshold_down` or `save_image`) to `pin`; any other
    /// name changes nothing.
    pub fn gpio_pin(self, function: &str, pin: u8) -> (b: ConfigBuilder)
        ensures
            b.config.display == self.config.display,
            b.config.processing == self.config.processing,
            b.config.paths == self.config.paths,
            b.config.gpio.enabled == self.config.gpio.enabled,
            b.config.gpio.debounce_ms == self.config.gpio.debounce_ms,
            b.config.gpio.pins == (if function@ == "load_image"@ {
                GpioPins { load_image: pin, ..self.config.gpio.pins }
            } else if function@ == "next_algorithm"@ {
                GpioPins { next_algorithm: pin, ..self.config.gpio.pins }
            } else if function@ == "threshold_up"@ {
                GpioPins { threshold_up: pin, ..self.config.gpio.pins }
            } else if function@ == "threshold_down"@ {
                GpioPins { threshold_down: pin, ..self.config.gpio.pins }
            } else if function@ == "save_image"@ {
                GpioPins { save_image: pin, ..self.config.gpio.pins }
            } else {
                self.config.gpio.pins
            }),
    {
        let mut b = self;
        if same_text(function, "load_image") {
            b.config.gpio.pins.load_image = pin;
        } else if same_text(function, "next_algorithm") {
            b.config.gpio.pins.next_algorithm = pin;
        } else if same_text(function, "threshold_up") {
            b.config.gpio.pins.threshold_up = pin;
        } else if same_text(function, "threshold_down") {
            b.config.gpio.pins.threshold_down = pin;
        } else if same_text(function, "save_image") {
            b.config.gpio.pins.save_image = pin;
        }
        b
    }

    pub fn max_image_size(self, width: u32, height: u32) -> (b: ConfigBuilder)
        ensures
            b.config.display == self.config.display,
            b.config.gpio == self.config.gpio,
            b.config.processing == (ProcessingConfig {
                max_image_width: width,
                max_image_height: height,
                ..self.config.processing
            }),
            b.config.paths == self.config.paths,
    {
        let mut b = self;
        b.config.processing.max_image_width = width;
        b.config.processing.max_image_height = height;
        b
    }

    /// Sets the default threshold, in thousandths of a luminance unit.
    pub fn default_threshold(self, threshold: u32) -> (b: ConfigBuilder)
        ensures
            b.config.display == self.config.display,
            b.config.gpio == self.config.gpio,
            b.config.processing == (ProcessingConfig {
                default_threshold: threshold,
                ..self.config.processing
            }),
            b.config.paths == self.config.paths,
    {
        let mut b = self;
        b.config.processing.default_threshold = threshold;
        b
    }

    /// The configuration, if it passes `Config::validate`.
    pub fn build(self) -> (r: Result<Config, ConfigError>)
        ensures
            match config_error(self.config) {
                Some(e) => r == Err::<Config, ConfigError>(e),
                None => r == Ok::<Config, ConfigError>(self.config),
            },
    {
        match self.config.validate() {
            Ok(()) => Ok(self.config),
            Err(e) => Err(e),
        }
    }
}

} // verus!
