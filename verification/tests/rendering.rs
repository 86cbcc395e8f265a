use ascii_art::bitmap::{Bitmap, Rgb};
use ascii_art::converter::AsciiConverter;
use ascii_art::plan::{OutputMode, Size};
use ascii_art::ratio::CharRatio;
use ascii_art::render::{join_rows, render, render_row, render_sequential};

const ONE: CharRatio = CharRatio { significand: 1, exponent: 0 };

fn checkerboard() -> Bitmap {
    let samples: Vec<u8> = vec![0, 0, 0, 255, 255, 255, 255, 255, 255, 0, 0, 0];
    Bitmap::new(2, 2, samples).unwrap()
}

/// A bitmap in which no two rows and no two columns are alike.
fn gradient(width: u32, height: u32) -> Bitmap {
    let mut samples: Vec<u8> = Vec::new();
    for y in 0..height {
        for x in 0..width {
            samples.push(((x * 37 + y * 11) % 256) as u8);
            samples.push(((x * 5 + y * 91) % 256) as u8);
            samples.push(((x * 53 + y * 29) % 256) as u8);
        }
    }
    Bitmap::new(width, height, samples).unwrap()
}

/// What is left of a text when every directive, from an escape character to
/// the next `m`, is taken out.
fn without_directives(text: &str) -> String {
    let mut shown = String::new();
    let mut escaped = false;
    for c in text.chars() {
        if escaped {
            escaped = c != 'm';
        } else if c == '\x1b' {
            escaped = true;
        } else {
            shown.push(c);
        }
    }
    shown
}

fn convert(image: Bitmap, mode: OutputMode, width: u32, ratio: CharRatio) -> String {
    match AsciiConverter::new_with_width(image, Size::Medium, mode, Some(width), Some(ratio)) {
        Ok(made) => made.convert(),
        Err(error) => panic!("rejected: {:?}", error),
    }
}

#[test]
fn rows_are_joined_with_line_feeds() {
    let rows: Vec<String> = vec![String::from("ab"), String::new(), String::from("c")];
    assert_eq!(join_rows(&rows), "ab\n\nc\n");
    assert_eq!(join_rows(&Vec::new()), "");
}

#[test]
fn row_holds_one_glyph_for_each_pixel() {
    let bitmap = Bitmap::new(3, 2, vec![0, 0, 0, 128, 128, 128, 255, 255, 255, 255, 0, 0, 0, 255, 0, 0, 0, 255])
        .unwrap();
    assert_eq!(render_row(&bitmap, 0, OutputMode::Monochrome), " =@");
    assert_eq!(render_row(&bitmap, 1, OutputMode::Monochrome), ":+.");
}

#[test]
fn rendering_keeps_the_rows_in_order() {
    let bitmap = Bitmap::new(1, 4, vec![0, 0, 0, 100, 100, 100, 200, 200, 200, 255, 255, 255]).unwrap();
    assert_eq!(render(&bitmap, OutputMode::Monochrome), " \n-\n#\n@\n");
}

#[test]
fn parallel_rendering_equals_sequential_rendering() {
    let bitmap = gradient(37, 211);
    let parallel = render(&bitmap, OutputMode::Monochrome);
    let sequential = render_sequential(&bitmap, OutputMode::Monochrome);
    assert_eq!(parallel, sequential);
    let rows: Vec<String> = (0..211).map(|y| render_row(&bitmap, y, OutputMode::Monochrome)).collect();
    assert_eq!(parallel, join_rows(&rows));
    let mut distinct = rows.clone();
    distinct.sort();
    distinct.dedup();
    assert!(distinct.len() > 100);
}

#[test]
fn output_has_a_line_for_each_row() {
    let text = convert(gradient(40, 30), OutputMode::Monochrome, 20, ONE);
    let lines: Vec<&str> = text.split('\n').collect();
    assert_eq!(lines.len(), 16);
    assert_eq!(lines[15], "");
    for line in &lines[..15] {
        assert_eq!(line.chars().count(), 20);
    }
    assert!(text.ends_with('\n'));
}

/// The switch of the colored crate is one for the whole process, so all
/// that depends on it is asserted here, one setting after the other.
#[test]
fn colour_follows_the_switch() {
    colored::control::set_override(true);

    let coloured = convert(gradient(40, 30), OutputMode::Color, 20, ONE);
    let plain = convert(gradient(40, 30), OutputMode::Monochrome, 20, ONE);
    assert_ne!(coloured, plain);
    assert_eq!(without_directives(&coloured), plain);
    assert_eq!(coloured.matches('\n').count(), 15);
    for line in coloured.lines() {
        assert_eq!(without_directives(line).chars().count(), 20);
    }

    let bitmap = gradient(23, 64);
    let parallel = render(&bitmap, OutputMode::Color);
    let sequential = render_sequential(&bitmap, OutputMode::Color);
    assert_eq!(parallel, sequential);
    assert_eq!(without_directives(&parallel), render(&bitmap, OutputMode::Monochrome));

    let red = Bitmap::new(1, 1, vec![255, 0, 0]).unwrap();
    let text = render(&red, OutputMode::Color);
    let exact = "\x1b[38;2;255;0;0m:\x1b[0m\n";
    let basic = text.len() == 11
        && text.starts_with("\x1b[")
        && (text.as_bytes()[2] == b'3' || text.as_bytes()[2] == b'9')
        && (b'0'..=b'7').contains(&text.as_bytes()[3])
        && text.ends_with("m:\x1b[0m\n");
    assert!(text == exact || basic, "unexpected painting: {:?}", text);

    colored::control::set_override(false);

    let bare = convert(checkerboard(), OutputMode::Color, 2, ONE);
    assert_eq!(bare, " @\n@ \n");
    assert_eq!(render(&red, OutputMode::Color), ":\n");
}

#[test]
fn enlarging_repeats_the_nearest_pixel() {
    let text = convert(checkerboard(), OutputMode::Monochrome, 4, ONE);
    assert_eq!(text, "  @@\n  @@\n@@  \n@@  \n");
}

#[test]
fn shrinking_keeps_the_nearest_pixel() {
    let bitmap = Bitmap::new(
        4,
        2,
        vec![
            0, 0, 0, 255, 255, 255, 0, 0, 0, 128, 128, 128, 0, 0, 0, 60, 60, 60, 0, 0, 0, 200, 200, 200,
        ],
    )
    .unwrap();
    let text = convert(bitmap, OutputMode::Monochrome, 2, ONE);
    assert_eq!(text, ":#\n");
}

#[test]
fn resampling_gives_the_asked_dimensions() {
    let bitmap = gradient(7, 5);
    assert!(bitmap.can_resize(3, 11));
    let scaled = bitmap.resize_exact(3, 11);
    assert_eq!((scaled.width(), scaled.height()), (3, 11));
    assert_eq!(scaled.get_pixel(0, 0), bitmap.get_pixel(1, 0));
    assert_eq!(scaled.get_pixel(2, 10), bitmap.get_pixel(5, 4));
    let same = bitmap.resize_exact(7, 5);
    for y in 0..5 {
        for x in 0..7 {
            assert_eq!(same.get_pixel(x, y), bitmap.get_pixel(x, y));
        }
    }
    assert!(!bitmap.can_resize(u32::MAX, u32::MAX));
}

#[test]
fn resampling_takes_whole_pixels_by_column_and_row() {
    let bitmap = gradient(13, 9);
    for (new_width, new_height) in [(5u32, 4u32), (13, 4), (5, 9), (40, 31), (1, 1), (13, 10)] {
        let scaled = bitmap.resize_exact(new_width, new_height);
        let column_of = |x: u32| {
            (0..13).find(|&column| {
                (0..new_height).all(|y| {
                    (0..9).any(|row| scaled.get_pixel(x, y) == bitmap.get_pixel(column, row))
                })
            })
        };
        let row_of = |y: u32| {
            (0..9).find(|&row| {
                (0..new_width).all(|x| {
                    (0..13).any(|column| scaled.get_pixel(x, y) == bitmap.get_pixel(column, row))
                })
            })
        };
        for y in 0..new_height {
            for x in 0..new_width {
                let column = column_of(x).unwrap();
                let row = row_of(y).unwrap();
                assert_eq!(scaled.get_pixel(x, y), bitmap.get_pixel(column, row));
            }
        }
    }
}

#[test]
fn resampling_an_empty_bitmap_gives_black() {
    let empty = Bitmap::new(0, 0, Vec::new()).unwrap();
    let scaled = empty.resize_exact(2, 3);
    assert_eq!((scaled.width(), scaled.height()), (2, 3));
    for y in 0..3 {
        for x in 0..2 {
            assert_eq!(scaled.get_pixel(x, y), Rgb { r: 0, g: 0, b: 0 });
        }
    }
    let same = empty.resize_exact(0, 0);
    assert_eq!((same.width(), same.height()), (0, 0));
}

#[test]
fn one_pixel_fills_every_cell() {
    let text = convert(Bitmap::new(1, 1, vec![255, 255, 255]).unwrap(), OutputMode::Monochrome, 3, ONE);
    assert_eq!(text, "@@@\n@@@\n@@@\n");
}

#[test]
fn grid_without_columns_renders_as_empty_lines() {
    let bitmap = Bitmap::new(0, 3, Vec::new()).unwrap();
    assert_eq!(render(&bitmap, OutputMode::Monochrome), "\n\n\n");
    assert_eq!(render_sequential(&bitmap, OutputMode::Color), "\n\n\n");
}
