use ascii_art::bitmap::{Bitmap, Rgb};
use ascii_art::converter::{AsciiConverter, ConfigError};
use ascii_art::plan::{base_width, target_height, OutputMode, Size};
use ascii_art::ratio::CharRatio;

const ONE: CharRatio = CharRatio { significand: 1, exponent: 0 };
const HALF: CharRatio = CharRatio { significand: 1, exponent: -1 };

fn checkerboard() -> Bitmap {
    let samples: Vec<u8> = vec![0, 0, 0, 255, 255, 255, 255, 255, 255, 0, 0, 0];
    Bitmap::new(2, 2, samples).unwrap()
}

fn grey(width: u32, height: u32, level: u8) -> Bitmap {
    let samples: Vec<u8> = vec![level; 3 * width as usize * height as usize];
    Bitmap::new(width, height, samples).unwrap()
}

fn converter(
    image: Bitmap,
    size: Size,
    mode: OutputMode,
    custom_width: Option<u32>,
    char_ratio: Option<CharRatio>,
) -> AsciiConverter {
    match AsciiConverter::new_with_width(image, size, mode, custom_width, char_ratio) {
        Ok(made) => made,
        Err(error) => panic!("rejected: {:?}", error),
    }
}

fn rejection(
    image: Bitmap,
    custom_width: Option<u32>,
    char_ratio: Option<CharRatio>,
) -> Option<ConfigError> {
    match AsciiConverter::new_with_width(image, Size::Medium, OutputMode::Monochrome, custom_width, char_ratio) {
        Ok(_) => None,
        Err(error) => Some(error),
    }
}

#[test]
fn checkerboard_in_monochrome() {
    let made = converter(checkerboard(), Size::Medium, OutputMode::Monochrome, Some(2), Some(ONE));
    assert_eq!(made.get_dimensions(), (2, 2));
    assert_eq!(made.convert(), " @\n@ \n");
}

#[test]
fn small_preset_is_sixty_columns() {
    assert_eq!(base_width(Size::Small, None), 60);
    let made = converter(grey(4, 4, 10), Size::Small, OutputMode::Monochrome, None, None);
    assert_eq!(made.get_dimensions().0, 60);
}

#[test]
fn presets_have_their_widths() {
    assert_eq!(base_width(Size::Medium, None), 100);
    assert_eq!(base_width(Size::Large, None), 150);
}

#[test]
fn custom_width_overrides_preset() {
    assert_eq!(base_width(Size::Large, Some(40)), 40);
    let made = converter(grey(4, 4, 10), Size::Large, OutputMode::Monochrome, Some(40), None);
    assert_eq!(made.get_dimensions().0, 40);
}

#[test]
fn single_pixel_gives_single_glyph() {
    let made = converter(grey(1, 1, 255), Size::Medium, OutputMode::Monochrome, Some(1), Some(ONE));
    assert_eq!(made.get_dimensions(), (1, 1));
    assert_eq!(made.convert(), "@\n");
}

#[test]
fn default_ratio_is_one_half() {
    assert_eq!(CharRatio::half(), HALF);
    let made = converter(grey(10, 10, 0), Size::Medium, OutputMode::Monochrome, None, None);
    assert_eq!(made.get_dimensions(), (100, 50));
}

#[test]
fn height_follows_the_formula() {
    assert_eq!(target_height(1920, 1080, 100, HALF), 28);
    assert_eq!(target_height(100, 100, 60, HALF), 30);
    assert_eq!(target_height(3, 2, 150, CharRatio { significand: 3, exponent: -3 }), 37);
    assert_eq!(target_height(3, 2, 150, CharRatio { significand: 3, exponent: 1 }), 600);
    assert_eq!(target_height(7, 5, 0, ONE), 0);
    assert_eq!(target_height(7, 0, 5, ONE), 0);
}

#[test]
fn height_takes_every_power_of_two() {
    assert_eq!(target_height(1, 1, 1, CharRatio { significand: 1, exponent: 31 }), 2147483648);
    assert_eq!(target_height(1, 1, 1, CharRatio { significand: 1, exponent: 32 }), u32::MAX);
    assert_eq!(target_height(1, 1, 1, CharRatio { significand: 1, exponent: 63 }), u32::MAX);
    assert_eq!(target_height(1, 1, 1, CharRatio { significand: 1, exponent: 64 }), u32::MAX);
    assert_eq!(target_height(1, 1, 1, CharRatio { significand: 1, exponent: i32::MAX }), u32::MAX);
    assert_eq!(target_height(1, 1, 1, CharRatio { significand: 0, exponent: i32::MAX }), 0);
    assert_eq!(target_height(u32::MAX, 1, 1, CharRatio { significand: 1, exponent: 63 }), 2147483648);
    assert_eq!(
        target_height(u32::MAX, u32::MAX, u32::MAX, CharRatio { significand: u32::MAX, exponent: 0 }),
        u32::MAX
    );
    assert_eq!(
        target_height(1, u32::MAX, u32::MAX, CharRatio { significand: u32::MAX, exponent: -64 }),
        4294967293
    );
    assert_eq!(
        target_height(1, u32::MAX, u32::MAX, CharRatio { significand: u32::MAX, exponent: -95 }),
        1
    );
    assert_eq!(
        target_height(1, u32::MAX, u32::MAX, CharRatio { significand: u32::MAX, exponent: -96 }),
        0
    );
    assert_eq!(target_height(1, 1, 1, CharRatio { significand: 1, exponent: -1 }), 0);
    assert_eq!(target_height(1, 1, 1, CharRatio { significand: 1, exponent: i32::MIN }), 0);
    assert_eq!(target_height(1, 1024, 1024, CharRatio { significand: 1024, exponent: -30 }), 1);
}

#[test]
fn height_is_truncated_not_rounded() {
    assert_eq!(target_height(10, 29, 1, ONE), 2);
    assert_eq!(target_height(1000, 1999, 1, ONE), 1);
    assert_eq!(target_height(3, 1, 2, ONE), 0);
}

#[test]
fn height_stops_at_the_largest_number() {
    assert_eq!(target_height(1, u32::MAX, u32::MAX, ONE), u32::MAX);
    assert_eq!(target_height(1, u32::MAX, 1, ONE), u32::MAX);
    assert_eq!(target_height(1, 65536, 65536, ONE), u32::MAX);
    assert_eq!(target_height(2, 65536, 65536, ONE), 2147483648);
}

#[test]
fn wide_image_may_have_no_rows() {
    let made = converter(grey(100, 1, 200), Size::Medium, OutputMode::Monochrome, Some(10), None);
    assert_eq!(made.get_dimensions(), (10, 0));
    assert_eq!(made.convert(), "");
}

#[test]
fn empty_image_is_rejected() {
    assert_eq!(rejection(Bitmap::new(0, 0, Vec::new()).unwrap(), None, None), Some(ConfigError::EmptyImage));
    assert_eq!(rejection(Bitmap::new(0, 7, Vec::new()).unwrap(), None, None), Some(ConfigError::EmptyImage));
    assert_eq!(rejection(Bitmap::new(7, 0, Vec::new()).unwrap(), None, None), Some(ConfigError::EmptyImage));
    assert_eq!(rejection(Bitmap::new(0, 0, Vec::new()).unwrap(), Some(0), None), Some(ConfigError::EmptyImage));
}

#[test]
fn zero_width_is_rejected() {
    assert_eq!(rejection(grey(2, 2, 0), Some(0), None), Some(ConfigError::ZeroWidth));
    assert_eq!(
        rejection(grey(2, 2, 0), Some(0), Some(CharRatio { significand: 0, exponent: 0 })),
        Some(ConfigError::ZeroWidth)
    );
}

#[test]
fn ratio_must_be_positive() {
    assert_eq!(
        rejection(grey(2, 2, 0), None, Some(CharRatio { significand: 0, exponent: 0 })),
        Some(ConfigError::NonPositiveRatio)
    );
    assert_eq!(
        rejection(grey(2, 2, 0), None, Some(CharRatio { significand: 0, exponent: -149 })),
        Some(ConfigError::NonPositiveRatio)
    );
    assert_eq!(rejection(grey(2, 2, 0), None, Some(CharRatio { significand: 1, exponent: -149 })), None);
}

#[test]
fn unaddressable_grid_is_rejected() {
    let huge = CharRatio { significand: u32::MAX, exponent: 0 };
    assert_eq!(rejection(grey(1, 1, 0), Some(u32::MAX), Some(huge)), Some(ConfigError::TooLarge));
}

#[test]
fn sound_settings_are_accepted() {
    assert_eq!(rejection(grey(2, 2, 0), Some(1), Some(ONE)), None);
    assert_eq!(rejection(grey(2, 2, 0), None, None), None);
}

#[test]
fn bitmap_wants_three_samples_a_pixel() {
    assert!(Bitmap::new(2, 2, vec![0; 12]).is_some());
    assert!(Bitmap::new(2, 2, vec![0; 11]).is_none());
    assert!(Bitmap::new(2, 2, vec![0; 13]).is_none());
    assert!(Bitmap::new(1, 1, Vec::new()).is_none());
    assert!(Bitmap::new(u32::MAX, u32::MAX, vec![0; 3]).is_none());
}

#[test]
fn bitmap_hands_out_its_pixels() {
    let bitmap = Bitmap::new(2, 2, vec![1, 2, 3, 4, 5, 6, 7, 8, 9, 10, 11, 12]).unwrap();
    assert_eq!(bitmap.width(), 2);
    assert_eq!(bitmap.height(), 2);
    assert_eq!(bitmap.get_pixel(0, 0), Rgb { r: 1, g: 2, b: 3 });
    assert_eq!(bitmap.get_pixel(1, 0), Rgb { r: 4, g: 5, b: 6 });
    assert_eq!(bitmap.get_pixel(0, 1), Rgb { r: 7, g: 8, b: 9 });
    assert_eq!(bitmap.get_pixel(1, 1), Rgb { r: 10, g: 11, b: 12 });
}

#[test]
fn converting_twice_gives_the_same_text() {
    let made = converter(checkerboard(), Size::Small, OutputMode::Monochrome, None, None);
    let first = made.convert();
    let second = made.convert();
    assert_eq!(first, second);
    assert_eq!(first.lines().count(), 30);
}

#[test]
fn converter_maps_brightness_to_glyphs() {
    let made = converter(grey(1, 1, 0), Size::Small, OutputMode::Monochrome, None, None);
    assert_eq!(made.pixel_to_ascii(0), ' ');
    assert_eq!(made.pixel_to_ascii(128), '=');
    assert_eq!(made.pixel_to_ascii(255), '@');
}
