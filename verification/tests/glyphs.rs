use ascii_art::glyph::{luminance, pixel_to_ascii, RAMP};

#[test]
fn ramp_runs_from_blank_to_dense() {
    assert_eq!(RAMP, [' ', '.', ':', '-', '=', '+', '*', '#', '%', '@']);
}

#[test]
fn ends_of_the_scale_map_to_ends_of_the_ramp() {
    assert_eq!(pixel_to_ascii(0), ' ');
    assert_eq!(pixel_to_ascii(255), '@');
}

#[test]
fn glyph_follows_the_formula() {
    for brightness in 0..=255u8 {
        let index = brightness as usize * 9 / 255;
        assert_eq!(pixel_to_ascii(brightness), RAMP[index]);
    }
    assert_eq!(pixel_to_ascii(28), ' ');
    assert_eq!(pixel_to_ascii(29), '.');
    assert_eq!(pixel_to_ascii(128), '=');
    assert_eq!(pixel_to_ascii(226), '#');
    assert_eq!(pixel_to_ascii(227), '%');
    assert_eq!(pixel_to_ascii(254), '%');
}

#[test]
fn brighter_never_maps_to_an_earlier_glyph() {
    let position = |glyph: char| RAMP.iter().position(|&c| c == glyph).unwrap();
    for brightness in 0..255u8 {
        assert!(position(pixel_to_ascii(brightness)) <= position(pixel_to_ascii(brightness + 1)));
    }
}

#[test]
fn luminance_weighs_the_channels() {
    assert_eq!(luminance(0, 0, 0), 0);
    assert_eq!(luminance(255, 255, 255), 255);
    assert_eq!(luminance(255, 0, 0), 76);
    assert_eq!(luminance(0, 255, 0), 149);
    assert_eq!(luminance(0, 0, 255), 29);
    assert_eq!(luminance(8, 80, 32), 53);
    assert_eq!(luminance(10, 20, 30), 18);
}

#[test]
fn luminance_of_grey_is_its_level() {
    for level in 0..=255u8 {
        assert_eq!(luminance(level, level, level), level);
    }
}
