use ansi_colours::ColourExt;
use ansi_term::Color;
use image::{Pixel, Rgb, RgbImage};
use tinyfs_rs::render::{
    color_for, intensity_to_ascii, pixel_color, rgb_to_color, to_ascii, ColorLevel, Paint,
};

const TRUE_COLOR: ColorLevel = ColorLevel { has_basic: true, has_256: true, has_16m: true };
const PALETTE: ColorLevel = ColorLevel { has_basic: true, has_256: true, has_16m: false };
const BASIC: ColorLevel = ColorLevel { has_basic: true, has_256: false, has_16m: false };

#[test]
fn brightness_maps_to_five_shades() {
    assert_eq!(intensity_to_ascii(0), ' ');
    assert_eq!(intensity_to_ascii(63), ' ');
    assert_eq!(intensity_to_ascii(64), '\u{2591}');
    assert_eq!(intensity_to_ascii(127), '\u{2591}');
    assert_eq!(intensity_to_ascii(128), '\u{2592}');
    assert_eq!(intensity_to_ascii(191), '\u{2592}');
    assert_eq!(intensity_to_ascii(192), '\u{2593}');
    assert_eq!(intensity_to_ascii(254), '\u{2593}');
    assert_eq!(intensity_to_ascii(255), '\u{2588}');
}

#[test]
fn the_colour_follows_the_level_of_the_terminal() {
    assert_eq!(rgb_to_color((1, 2, 3)), Paint::Rgb(1, 2, 3));
    assert_eq!(color_for((1, 2, 3), TRUE_COLOR, 9), Paint::Rgb(1, 2, 3));
    assert_eq!(color_for((1, 2, 3), PALETTE, 9), Paint::Fixed(9));
    assert_eq!(color_for((1, 2, 3), BASIC, 9), Paint::White);
    let odd = ColorLevel { has_basic: false, has_256: false, has_16m: true };
    assert_eq!(color_for((1, 2, 3), odd, 9), Paint::Rgb(1, 2, 3));
    let none = ColorLevel { has_basic: false, has_256: false, has_16m: false };
    assert_eq!(color_for((1, 2, 3), none, 9), Paint::White);
}

#[test]
fn the_palette_colour_is_the_closest_one() {
    assert_eq!(pixel_color((0, 0, 0), PALETTE), Paint::Fixed(16));
    assert_eq!(pixel_color((0, 1, 2), PALETTE), Paint::Fixed(16));
    assert_eq!(pixel_color((95, 135, 175), PALETTE), Paint::Fixed(67));
    assert_eq!(pixel_color((255, 255, 255), PALETTE), Paint::Fixed(231));
    assert_eq!(pixel_color((175, 0, 215), PALETTE), Paint::Fixed(128));
    assert_eq!(pixel_color((95, 135, 175), TRUE_COLOR), Paint::Rgb(95, 135, 175));
    assert_eq!(pixel_color((95, 135, 175), BASIC), Paint::White);
}

#[test]
fn without_colours_the_text_is_one_character_per_pixel() {
    let pixels = [(0, 0, 0), (255, 255, 255), (128, 128, 128), (90, 90, 90), (200, 200, 200), (64, 64, 64)];
    assert_eq!(
        to_ascii(&pixels, 3, 2, None),
        " \u{2588}\u{2592}\n\u{2591}\u{2593}\u{2591}\n"
    );
    assert_eq!(to_ascii(&pixels, 6, 1, None), " \u{2588}\u{2592}\u{2591}\u{2593}\u{2591}\n");
    assert_eq!(
        to_ascii(&pixels, 1, 6, None),
        " \n\u{2588}\n\u{2592}\n\u{2591}\n\u{2593}\n\u{2591}\n"
    );
}

#[test]
fn brightness_weighs_green_most() {
    // 2126, 7152 and 722 ten thousandths of red, green and blue.
    assert_eq!(to_ascii(&[(255, 0, 0)], 1, 1, None), " \n");
    assert_eq!(to_ascii(&[(0, 255, 0)], 1, 1, None), "\u{2592}\n");
    assert_eq!(to_ascii(&[(0, 0, 255)], 1, 1, None), " \n");
    assert_eq!(to_ascii(&[(255, 255, 0)], 1, 1, None), "\u{2593}\n");
    assert_eq!(to_ascii(&[(255, 255, 254)], 1, 1, None), "\u{2593}\n");
}

#[test]
fn an_empty_picture_has_its_line_feeds_only() {
    assert_eq!(to_ascii(&[], 0, 0, None), "");
    assert_eq!(to_ascii(&[], 0, 3, None), "\n\n\n");
    assert_eq!(to_ascii(&[], 5, 0, Some(TRUE_COLOR)), "");
    assert_eq!(to_ascii(&[], 0, 2, Some(TRUE_COLOR)), "\n\n");
}

#[test]
fn true_colour_writes_a_code_where_the_colour_changes() {
    let pixels = [(255, 255, 255), (255, 255, 255), (0, 0, 0), (7, 80, 200)];
    assert_eq!(
        to_ascii(&pixels, 2, 2, Some(TRUE_COLOR)),
        "\x1b[38;2;255;255;255m\u{2588}\u{2588}\n\x1b[38;2;0;0;0m \x1b[38;2;7;80;200m\u{2591}\n\x1b[0m"
    );
}

#[test]
fn the_palette_writes_indexed_codes() {
    let pixels = [(95, 135, 175), (95, 135, 176), (255, 255, 255), (0, 0, 0)];
    assert_eq!(
        to_ascii(&pixels, 4, 1, Some(PALETTE)),
        "\x1b[38;5;67m\u{2592}\u{2592}\x1b[38;5;231m\u{2588}\x1b[38;5;16m \n\x1b[0m"
    );
}

#[test]
fn a_basic_terminal_gets_white_once() {
    let pixels = [(95, 135, 175), (1, 2, 3), (255, 255, 255)];
    assert_eq!(
        to_ascii(&pixels, 3, 1, Some(BASIC)),
        "\x1b[37m\u{2592} \u{2588}\n\x1b[0m"
    );
}

// The rendering as written with the outside crates' own types.
fn reference(image: &RgbImage, color_support: Option<ColorLevel>) -> String {
    let (width, height) = image.dimensions();
    let mut ascii = String::new();
    let mut last_color: Option<Color> = None;
    for y in 0..height {
        for x in 0..width {
            let pixel = image.get_pixel(x, y);
            let intensity = pixel.to_luma()[0];
            let ascii_char = intensity_to_ascii(intensity);
            if let Some(color_level) = color_support {
                let color = if color_level.has_16m {
                    Color::RGB(pixel[0], pixel[1], pixel[2])
                } else if color_level.has_256 {
                    Color::RGB(pixel[0], pixel[1], pixel[2]).to_256()
                } else {
                    Color::White
                };
                let ansi = if let Some(last_color) = last_color {
                    last_color.infix(color).to_string()
                } else {
                    color.prefix().to_string()
                };
                ascii.push_str(&ansi);
                last_color = Some(color);
            }
            ascii.push(ascii_char);
        }
        ascii.push('\n');
    }
    if let Some(color) = last_color {
        ascii.push_str(&color.suffix().to_string())
    }
    ascii
}

#[test]
fn the_text_agrees_with_the_outside_crates() {
    let (width, height) = (23usize, 9usize);
    let mut pixels = Vec::new();
    let mut image = RgbImage::new(width as u32, height as u32);
    for y in 0..height {
        for x in 0..width {
            let i = y * width + x;
            // Runs of equal colours, and colours of every brightness.
            let pixel = (
                ((i / 3) * 37 % 256) as u8,
                ((i / 2) * 91 % 256) as u8,
                ((i / 4) * 13 % 256) as u8,
            );
            pixels.push(pixel);
            image.put_pixel(x as u32, y as u32, Rgb([pixel.0, pixel.1, pixel.2]));
        }
    }
    for level in [None, Some(TRUE_COLOR), Some(PALETTE), Some(BASIC)] {
        assert_eq!(to_ascii(&pixels, width, height, level), reference(&image, level));
    }
}

#[test]
fn every_channel_value_is_written_in_decimal() {
    for n in 0..=255u8 {
        assert_eq!(
            to_ascii(&[(n, 0, 255 - n)], 1, 1, Some(TRUE_COLOR)).split('m').next().unwrap(),
            format!("\x1b[38;2;{};0;{}", n, 255 - n)
        );
    }
}
