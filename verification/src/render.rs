//! Pictures as text for a terminal: one character per pixel, by its
//! brightness, coloured with ANSI escape codes as far as the terminal
//! shows colours.

use ansi_term::Color;
use image::{Pixel, Rgb};
use vstd::prelude::*;
use vstd::string::StringExecFns;

verus! {

/// What colours a terminal shows. Each field says of one range of colours
/// whether the terminal has it.
#[derive(Debug, Clone, Copy, PartialEq, Eq)]
pub struct ColorLevel {
    pub has_basic: bool,
    pub has_256: bool,
    pub has_16m: bool,
}

/// A foreground colour: white, a colour of the 256-colour palette, or red,
/// green and blue.
#[derive(Debug, Clone, Copy, PartialEq, Eq)]
pub enum Paint {
    White,
    Fixed(u8),
    Rgb(u8, u8, u8),
}

/// The brightness of a colour: its luminance by the sRGB weights, in ten
/// thousandths.
pub open spec fn luma(rgb: (u8, u8, u8)) -> u8 {
    ((2126 * rgb.0 + 7152 * rgb.1 + 722 * rgb.2) / 10000) as u8
}

/// The character that stands for a brightness: five shades from blank to
/// full block.
pub open spec fn glyph(intensity: u8) -> char {
    let shade = intensity * 4 / 255;
    if shade == 0 {
        ' '
    } else if shade == 1 {
        '\u{2591}'
    } else if shade == 2 {
        '\u{2592}'
    } else if shade == 3 {
        '\u{2593}'
    } else {
        '\u{2588}'
    }
}

/// The index, in the 256-colour palette, of the colour that
/// `ansi_colours::ansi256_from_rgb` finds closest to the given one.
pub uninterp spec fn ansi256(r: u8, g: u8, b: u8) -> u8;

/// The decimal digit `d`.
pub open spec fn digit(d: u8) -> char {
    if d == 0 {
        '0'
    } else if d == 1 {
        '1'
    } else if d == 2 {
        '2'
    } else if d == 3 {
        '3'
    } else if d == 4 {
        '4'
    } else if d == 5 {
        '5'
    } else if d == 6 {
        '6'
    } else if d == 7 {
        '7'
    } else if d == 8 {
        '8'
    } else {
        '9'
    }
}

/// `n` in decimal, without leading zeros.
pub open spec fn decimal(n: u8) -> Seq<char> {
    if n < 10 {
        seq![digit(n)]
    } else if n < 100 {
        seq![digit(n / 10), digit(n % 10)]
    } else {
        seq![digit(n / 100), digit(n / 10 % 10), digit(n % 10)]
    }
}

/// The parameters of the escape code that selects `paint` as foreground.
pub open spec fn foreground(paint: Paint) -> Seq<char> {
    match paint {
        Paint::White => seq!['3', '7'],
        Paint::Fixed(index) => seq!['3', '8', ';', '5', ';'] + decimal(index),
        Paint::Rgb(r, g, b) => seq!['3', '8', ';', '2', ';'] + decimal(r) + seq![';'] + decimal(
            g,
        ) + seq![';'] + decimal(b),
    }
}

/// The escape code that switches the foreground to `paint`.
pub open spec fn prefix(paint: Paint) -> Seq<char> {
    seq!['\x1B', '['] + foreground(paint) + seq!['m']
}

/// What is written between text in `last` and text in `next`: nothing where
/// the two are the same, else the code that switches to `next`.
pub open spec fn infix(last: Paint, next: Paint) -> Seq<char> {
    if last == next {
        Seq::empty()
    } else {
        prefix(next)
    }
}

/// The escape code that resets the terminal's colours.
pub open spec fn reset() -> Seq<char> {
    seq!['\x1B', '[', '0', 'm']
}

/// Calls `image::Pixel::to_luma` on an `image::Rgb<u8>`: the weighted sum
/// of the three channels with the weights 2126, 7152 and 722, divided by
/// 10000 and rounded down.
#[verifier::external_body]
fn luminance(rgb: (u8, u8, u8)) -> (intensity: u8)
    ensures
        intensity == luma(rgb),
{
    Rgb([rgb.0, rgb.1, rgb.2]).to_luma().0[0]
}

/// Calls `ansi_colours::ansi256_from_rgb`: the index of the palette colour
/// closest to the given one. The index depends on the three channels
/// alone; nothing more is claimed of it.
#[verifier::external_body]
fn palette_index(rgb: (u8, u8, u8)) -> (index: u8)
    ensures
        index == ansi256(rgb.0, rgb.1, rgb.2),
{
    ansi_colours::ansi256_from_rgb(rgb)
}

/// Calls `ansi_term::Colour::prefix` and writes the result out: the escape
/// character and `[`, the parameters of the colour, and `m`.
#[verifier::external_body]
fn prefix_code(paint: Paint) -> (code: String)
    ensures
        code@ == prefix(paint),
{
    let color = match paint {
        Paint::White => Color::White,
        Paint::Fixed(index) => Color::Fixed(index),
        Paint::Rgb(r, g, b) => Color::RGB(r, g, b),
    };
    color.prefix().to_string()
}

/// Calls `ansi_term::Colour::infix` and writes the result out: nothing
/// between two equal colours, else the prefix of the second.
#[verifier::external_body]
fn infix_code(last: Paint, next: Paint) -> (code: String)
    ensures
        code@ == infix(last, next),
{
    let last = match last {
        Paint::White => Color::White,
        Paint::Fixed(index) => Color::Fixed(index),
        Paint::Rgb(r, g, b) => Color::RGB(r, g, b),
    };
    let next = match next {
        Paint::White => Color::White,
        Paint::Fixed(index) => Color::Fixed(index),
        Paint::Rgb(r, g, b) => Color::RGB(r, g, b),
    };
    last.infix(next).to_string()
}

/// Calls `ansi_term::Colour::suffix` and writes the result out: the reset
/// code, whatever the colour.
#[verifier::external_body]
fn suffix_code(paint: Paint) -> (code: String)
    ensures
        code@ == reset(),
{
    let color = match paint {
        Paint::White => Color::White,
        Paint::Fixed(index) => Color::Fixed(index),
        Paint::Rgb(r, g, b) => Color::RGB(r, g, b),
    };
    color.suffix().to_string()
}

/// `String::push` appends one character to the string.
pub assume_specification[ String::push ](s: &mut String, ch: char)
    ensures
        final(s)@ == old(s)@.push(ch),
;

/// The character for a brightness.
pub fn intensity_to_ascii(intensity: u8) -> (c: char)
    ensures
        c == glyph(intensity),
{
    let ascii_chars = [' ', '\u{2591}', '\u{2592}', '\u{2593}', '\u{2588}'];
    let scaled_intensity = (intensity as usize * 4) / 255;
    ascii_chars[scaled_intensity]
}

/// The colour of a pixel as it is.
pub fn rgb_to_color(rgb: (u8, u8, u8)) -> (paint: Paint)
    ensures
        paint == Paint::Rgb(rgb.0, rgb.1, rgb.2),
{
    Paint::Rgb(rgb.0, rgb.1, rgb.2)
}

/// The colour that a pixel is shown in on a terminal of the given level,
/// `index` being the pixel's place in the palette: the pixel's own colour
/// where the terminal has 16 million colours, else its palette colour where
/// it has 256, else white.
pub open spec fn shown(rgb: (u8, u8, u8), level: ColorLevel, index: u8) -> Paint {
    if level.has_16m {
        Paint::Rgb(rgb.0, rgb.1, rgb.2)
    } else if level.has_256 {
        Paint::Fixed(index)
    } else {
        Paint::White
    }
}

/// The colour that a pixel is shown in, given its place in the palette.
pub fn color_for(rgb: (u8, u8, u8), level: ColorLevel, index: u8) -> (paint: Paint)
    ensures
        paint == shown(rgb, level, index),
{
    if level.has_16m {
        rgb_to_color(rgb)
    } else if level.has_256 {
        Paint::Fixed(index)
    } else {
        Paint::White
    }
}

/// The colour that a pixel is shown in on a terminal of the given level.
pub open spec fn paint_of(rgb: (u8, u8, u8), level: ColorLevel) -> Paint {
    shown(rgb, level, ansi256(rgb.0, rgb.1, rgb.2))
}

/// The colour that a pixel is shown in on a terminal of the given level.
pub fn pixel_color(rgb: (u8, u8, u8), level: ColorLevel) -> (paint: Paint)
    ensures
        paint == paint_of(rgb, level),
{
    color_for(rgb, level, palette_index(rgb))
}

/// The colour in force before pixel `i`: that of the pixel before it, if
/// colours are written and there is one.
pub open spec fn paint_before(
    pixels: Seq<(u8, u8, u8)>,
    color_support: Option<ColorLevel>,
    i: int,
) -> Option<Paint> {
    match color_support {
        Some(level) => if i > 0 {
            Some(paint_of(pixels[i - 1], level))
        } else {
            None
        },
        None => None,
    }
}

/// The text of pixel `i`: where colours are written, the code that changes
/// the colour in force to the pixel's, and then the pixel's character.
pub open spec fn pixel_text(
    pixels: Seq<(u8, u8, u8)>,
    color_support: Option<ColorLevel>,
    i: int,
) -> Seq<char> {
    (match color_support {
        None => Seq::empty(),
        Some(level) => match paint_before(pixels, color_support, i) {
            None => prefix(paint_of(pixels[i], level)),
            Some(last) => infix(last, paint_of(pixels[i], level)),
        },
    }).push(glyph(luma(pixels[i])))
}

/// The text of the first `n` pixels of row `y`.
pub open spec fn row_text(
    pixels: Seq<(u8, u8, u8)>,
    width: int,
    color_support: Option<ColorLevel>,
    y: int,
    n: int,
) -> Seq<char>
    decreases n,
{
    if n <= 0 {
        Seq::empty()
    } else {
        row_text(pixels, width, color_support, y, n - 1) + pixel_text(
            pixels,
            color_support,
            y * width + n - 1,
        )
    }
}

/// The text of the first `rows` rows, each ended by a line feed.
pub open spec fn rows_text(
    pixels: Seq<(u8, u8, u8)>,
    width: int,
    color_support: Option<ColorLevel>,
    rows: int,
) -> Seq<char>
    decreases rows,
{
    if rows <= 0 {
        Seq::empty()
    } else {
        rows_text(pixels, width, color_support, rows - 1) + row_text(
            pixels,
            width,
            color_support,
            rows - 1,
            width,
        ) + seq!['\n']
    }
}

/// The text of a picture of `height` rows of `width` pixels: the rows, and
/// a reset code at the end where any colour was written.
pub open spec fn rendered(
    pixels: Seq<(u8, u8, u8)>,
    width: int,
    height: int,
    color_support: Option<ColorLevel>,
) -> Seq<char> {
    rows_text(pixels, width, color_support, height) + if color_support is Some && pixels.len()
        > 0 {
        reset()
    } else {
        Seq::empty()
    }
}

/// Renders a picture, given as its pixels row by row, as text.
pub fn to_ascii(
    pixels: &[(u8, u8, u8)],
    width: usize,
    height: usize,
    color_support: Option<ColorLevel>,
) -> (ascii: String)
    requires
        pixels@.len() == width * height,
    ensures
        ascii@ == rendered(pixels@, width as int, height as int, color_support),
{
    let mut ascii = String::new();
    let mut last_color: Option<Paint> = None;
    let mut i: usize = 0;
    let mut y: usize = 0;
    while y < height
        invariant
            y <= height,
            i == y * width,
            pixels@.len() == width * height,
            last_color == paint_before(pixels@, color_support, i as int),
            ascii@ == rows_text(pixels@, width as int, color_support, y as int),
        decreases height - y,
    {
        assert((y + 1) * width <= width * height) by (nonlinear_arith)
            requires
                y + 1 <= height,
        ;
        assert((y + 1) * width == y * width + width) by (nonlinear_arith);
        let mut x: usize = 0;
        while x < width
            invariant
                x <= width,
                y < height,
                i == y * width + x,
                y * width + width <= pixels@.len(),
                last_color == paint_before(pixels@, color_support, i as int),
                ascii@ == rows_text(pixels@, width as int, color_support, y as int) + row_text(
                    pixels@,
                    width as int,
                    color_support,
                    y as int,
                    x as int,
                ),
            decreases width - x,
        {
            let pixel = pixels[i];
            let intensity = luminance(pixel);
            let ascii_char = intensity_to_ascii(intensity);
            if let Some(color_level) = color_support {
                let color = pixel_color(pixel, color_level);
                let ansi = if let Some(last_color) = last_color {
                    infix_code(last_color, color)
                } else {
                    prefix_code(color)
                };
                ascii.append(ansi.as_str());
                last_color = Some(color);
            }
            ascii.push(ascii_char);
            x += 1;
            i += 1;
        }
        ascii.push('\n');
        y += 1;
    }
    if let Some(color) = last_color {
        let code = suffix_code(color);
        ascii.append(code.as_str());
    }
    proof {
        assert(height * width == width * height) by (nonlinear_arith);
    }
    ascii
}

} // verus!
