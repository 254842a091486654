//! Colours and styles by name.

use vstd::prelude::*;
use crate::text::{chars_of, spells};

verus! {

/// A colour of the terminal.
#[derive(Copy, Clone, Debug, PartialEq, Eq)]
pub enum Color {
    Black,
    Blue,
    Cyan,
    Green,
    Magenta,
    Red,
    White,
    Yellow,
    BrightBlack,
    BrightBlue,
    BrightCyan,
    BrightGreen,
    BrightMagenta,
    BrightRed,
    BrightWhite,
    BrightYellow,
}

/// A way of setting text off.
#[derive(Copy, Clone, Debug, PartialEq, Eq)]
pub enum Style {
    Bold,
    Italic,
    Underline,
}

/// A text with the colour and the style to show it in, where it has any.
#[derive(Debug)]
pub struct StyledString {
    pub text: String,
    pub color: Option<Color>,
    pub style: Option<Style>,
}

/// The colour that a name stands for. Names are in lower case, the bright
/// colours with `bright` and a blank before the colour.
pub open spec fn color_named(name: Seq<char>) -> Option<Color> {
    if name == "black"@ {
        Some(Color::Black)
    } else if name == "blue"@ {
        Some(Color::Blue)
    } else if name == "cyan"@ {
        Some(Color::Cyan)
    } else if name == "green"@ {
        Some(Color::Green)
    } else if name == "magenta"@ {
        Some(Color::Magenta)
    } else if name == "red"@ {
        Some(Color::Red)
    } else if name == "white"@ {
        Some(Color::White)
    } else if name == "yellow"@ {
        Some(Color::Yellow)
    } else if name == "bright black"@ {
        Some(Color::BrightBlack)
    } else if name == "bright blue"@ {
        Some(Color::BrightBlue)
    } else if name == "bright cyan"@ {
        Some(Color::BrightCyan)
    } else if name == "bright green"@ {
        Some(Color::BrightGreen)
    } else if name == "bright magenta"@ {
        Some(Color::BrightMagenta)
    } else if name == "bright red"@ {
        Some(Color::BrightRed)
    } else if name == "bright white"@ {
        Some(Color::BrightWhite)
    } else if name == "bright yellow"@ {
        Some(Color::BrightYellow)
    } else {
        None
    }
}

/// The style that a name stands for.
pub open spec fn style_named(name: Seq<char>) -> Option<Style> {
    if name == "bold"@ {
        Some(Style::Bold)
    } else if name == "italic"@ {
        Some(Style::Italic)
    } else if name == "underline"@ {
        Some(Style::Underline)
    } else {
        None
    }
}

/// Reads a colour's name.
pub fn parse_color(name: &str) -> (color: Option<Color>)
    ensures
        color == color_named(name@),
{
    let chars = chars_of(name);
    let n = chars.as_slice();
    if spells(n, "black") {
        Some(Color::Black)
    } else if spells(n, "blue") {
        Some(Color::Blue)
    } else if spells(n, "cyan") {
        Some(Color::Cyan)
    } else if spells(n, "green") {
        Some(Color::Green)
    } else if spells(n, "magenta") {
        Some(Color::Magenta)
    } else if spells(n, "red") {
        Some(Color::Red)
    } else if spells(n, "white") {
        Some(Color::White)
    } else if spells(n, "yellow") {
        Some(Color::Yellow)
    } else if spells(n, "bright black") {
        Some(Color::BrightBlack)
    } else if spells(n, "bright blue") {
        Some(Color::BrightBlue)
    } else if spells(n, "bright cyan") {
        Some(Color::BrightCyan)
    } else if spells(n, "bright green") {
        Some(Color::BrightGreen)
    } else if spells(n, "bright magenta") {
        Some(Color::BrightMagenta)
    } else if spells(n, "bright red") {
        Some(Color::BrightRed)
    } else if spells(n, "bright white") {
        Some(Color::BrightWhite)
    } else if spells(n, "bright yellow") {
        Some(Color::BrightYellow)
    } else {
        None
    }
}

/// Reads a style's name.
pub fn parse_style(name: &str) -> (style: Option<Style>)
    ensures
        style == style_named(name@),
{
    let chars = chars_of(name);
    let n = chars.as_slice();
    if spells(n, "bold") {
        Some(Style::Bold)
    } else if spells(n, "italic") {
        Some(Style::Italic)
    } else if spells(n, "underline") {
        Some(Style::Underline)
    } else {
        None
    }
}

/// The text with the colour and the style that the names stand for. A
/// name that stands for nothing leaves the text without colour, or
/// without style.
pub fn style_string(text: &str, color: &str, style: &str) -> (styled: StyledString)
    ensures
        styled.text@ == text@,
        styled.color == color_named(color@),
        styled.style == style_named(style@),
{
    StyledString { text: text.to_owned(), color: parse_color(color), style: parse_style(style) }
}

} // verus!
