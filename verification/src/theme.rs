use vstd::prelude::*;
use ratatui::style::Color;
use tachyonfx::ToRgbComponents;
use crate::text::{same_text, string_of};

verus! {

pub const TEXT: u32 = 0x00eb_dbb2;

pub const TEXT_ALT: u32 = 0x00a8_9984;

pub const BG0: u32 = 0x0028_2828;

pub const BG1: u32 = 0x003c_3836;

pub const BG2: u32 = 0x0050_4945;

pub const GRAY: u32 = 0x0092_8374;

pub const RED: u32 = 0x00fb_4934;

pub const GREEN: u32 = 0x00b8_bb26;

pub const YELLOW: u32 = 0x00fa_bd2f;

pub const BLUE: u32 = 0x0083_a598;

pub const PURPLE: u32 = 0x00d3_869b;

pub const AQUA: u32 = 0x008e_c07c;

pub const FG: u32 = 0x00eb_dbb2;

pub const ORANGE: u32 = 0x00fe_8019;

/// A piece of text with the colour it is shown in, if it has one of its
/// own.
pub struct Styled {
    pub text: String,
    pub color: Option<u32>,
}

/// A piece of text as a mathematical value.
pub struct StyledView {
    pub text: Seq<char>,
    pub color: Option<u32>,
}

impl View for Styled {
    type V = StyledView;

    open spec fn view(&self) -> StyledView {
        StyledView { text: self.text@, color: self.color }
    }
}

/// The views of the pieces of a line.
pub open spec fn line_view(line: Seq<Styled>) -> Seq<StyledView> {
    line.map_values(|p: Styled| p@)
}

/// The names of the theme's colours as one alternation of a regular
/// expression.
pub const TERM_COLORS_REGEX: &'static str = "(Red|Green|Yellow|Blue|Purple|Aqua|Gray|Orange)";

/// The theme's colour of the name `name`, if the theme has one.
pub open spec fn term_color_of(name: Seq<char>) -> Option<u32> {
    if name == "Red"@ {
        Some(RED)
    } else if name == "Green"@ {
        Some(GREEN)
    } else if name == "Yellow"@ {
        Some(YELLOW)
    } else if name == "Blue"@ {
        Some(BLUE)
    } else if name == "Purple"@ {
        Some(PURPLE)
    } else if name == "Aqua"@ {
        Some(AQUA)
    } else if name == "Gray"@ {
        Some(GRAY)
    } else if name == "Orange"@ {
        Some(ORANGE)
    } else {
        None
    }
}

/// Looks a colour of the theme up by its name.
pub fn term_color(name: &str) -> (c: Option<u32>)
    ensures
        c == term_color_of(name@),
{
    if same_text(name, "Red") {
        Some(RED)
    } else if same_text(name, "Green") {
        Some(GREEN)
    } else if same_text(name, "Yellow") {
        Some(YELLOW)
    } else if same_text(name, "Blue") {
        Some(BLUE)
    } else if same_text(name, "Purple") {
        Some(PURPLE)
    } else if same_text(name, "Aqua") {
        Some(AQUA)
    } else if same_text(name, "Gray") {
        Some(GRAY)
    } else if same_text(name, "Orange") {
        Some(ORANGE)
    } else {
        None
    }
}

/// The red, green and blue channels of a colour `0x00RRGGBB`; bits above
/// the 24th do not count.
pub open spec fn channels_of(hex: u32) -> (u8, u8, u8) {
    (((hex / 0x1_0000) % 0x100) as u8, ((hex / 0x100) % 0x100) as u8, (hex % 0x100) as u8)
}

/// The channels of the terminal colour that `hex` stands for.
///
/// Trusted: `ratatui::style::Color::from_u32` makes the colour
/// `Rgb(r, g, b)` of the three low bytes of its argument, and
/// `tachyonfx::ToRgbComponents::to_rgb` hands the channels of an `Rgb`
/// colour out as they are.
#[verifier::external_body]
pub(crate) fn channels(hex: u32) -> (rgb: (u8, u8, u8))
    ensures
        rgb == channels_of(hex),
{
    Color::from_u32(hex).to_rgb()
}

/// The character of the code point `code`.
///
/// Trusted: `char::from_u32` gives a character exactly for the Unicode
/// scalar values, that is the code points up to `0x10FFFF` outside the
/// surrogates `0xD800..=0xDFFF`, and the character has that code point.
#[verifier::external_body]
pub(crate) fn char_of_code(code: u32) -> (r: Option<char>)
    ensures
        r is Some <==> is_scalar_value(code),
        r matches Some(c) ==> c as u32 == code,
{
    char::from_u32(code)
}

/// `code` is the code point of a character.
pub open spec fn is_scalar_value(code: u32) -> bool {
    code <= 0x10_FFFF && !(0xD800 <= code <= 0xDFFF)
}

/// `s` is the text of the icon `code`: the character of that code point,
/// or `X` where the code point has none, and a space behind it.
pub open spec fn is_icon_text(code: u32, s: Seq<char>) -> bool {
    &&& s.len() == 2
    &&& s[1] == ' '
    &&& is_scalar_value(code) ==> s[0] as u32 == code
    &&& !is_scalar_value(code) ==> s[0] == 'X'
}

/// The text that shows the icon of the code point `icon`.
pub fn unicode_icon(icon: u32) -> (s: String)
    ensures
        is_icon_text(icon, s@),
{
    let c = match char_of_code(icon) {
        Some(c) => c,
        None => 'X',
    };
    let mut v: Vec<char> = Vec::new();
    v.push(c);
    v.push(' ');
    string_of(&v)
}

} // verus!
