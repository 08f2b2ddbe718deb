//! The directive registry: the closed set of formatting directives and the
//! fixed mapping from a one-character code to a directive, plus the fixed
//! directive-to-colour-value table used by the renderer.

use vstd::prelude::*;

verus! {

/// A single formatting directive decoded from a two-character escape
/// sequence: sixteen colours, five styles, and the reset signal.
///
/// Colours are mutually exclusive and open a new nested scope when parsed;
/// styles are additive and mutate the current scope in place; reset is a
/// pure control signal that closes the current scope and is never stored.
#[derive(Clone, Copy, Debug, PartialEq, Eq, Structural)]
pub enum FormattingCode {
    Black,
    DarkBlue,
    DarkGreen,
    DarkAqua,
    DarkRed,
    DarkPurple,
    Gold,
    Gray,
    DarkGray,
    Blue,
    Green,
    Aqua,
    Red,
    LightPurple,
    Yellow,
    White,
    Obfuscated,
    Bold,
    Strikethrough,
    Underline,
    Italic,
    Reset,
}

/// A colour directive: one of the sixteen codes that open a nested scope.
pub open spec fn is_color(code: FormattingCode) -> bool {
    match code {
        FormattingCode::Black
        | FormattingCode::DarkBlue
        | FormattingCode::DarkGreen
        | FormattingCode::DarkAqua
        | FormattingCode::DarkRed
        | FormattingCode::DarkPurple
        | FormattingCode::Gold
        | FormattingCode::Gray
        | FormattingCode::DarkGray
        | FormattingCode::Blue
        | FormattingCode::Green
        | FormattingCode::Aqua
        | FormattingCode::Red
        | FormattingCode::LightPurple
        | FormattingCode::Yellow
        | FormattingCode::White => true,
        _ => false,
    }
}

/// A style directive: additive, applied to the current scope in place.
pub open spec fn is_style(code: FormattingCode) -> bool {
    match code {
        FormattingCode::Obfuscated
        | FormattingCode::Bold
        | FormattingCode::Strikethrough
        | FormattingCode::Underline
        | FormattingCode::Italic => true,
        _ => false,
    }
}

/// The registry mapping: which directive, if any, a code character names.
pub open spec fn code_of(c: char) -> Option<FormattingCode> {
    match c {
        '0' => Some(FormattingCode::Black),
        '1' => Some(FormattingCode::DarkBlue),
        '2' => Some(FormattingCode::DarkGreen),
        '3' => Some(FormattingCode::DarkAqua),
        '4' => Some(FormattingCode::DarkRed),
        '5' => Some(FormattingCode::DarkPurple),
        '6' => Some(FormattingCode::Gold),
        '7' => Some(FormattingCode::Gray),
        '8' => Some(FormattingCode::DarkGray),
        '9' => Some(FormattingCode::Blue),
        'a' => Some(FormattingCode::Green),
        'b' => Some(FormattingCode::Aqua),
        'c' => Some(FormattingCode::Red),
        'd' => Some(FormattingCode::LightPurple),
        'e' => Some(FormattingCode::Yellow),
        'f' => Some(FormattingCode::White),
        'k' => Some(FormattingCode::Obfuscated),
        'l' => Some(FormattingCode::Bold),
        'm' => Some(FormattingCode::Strikethrough),
        'n' => Some(FormattingCode::Underline),
        'o' => Some(FormattingCode::Italic),
        'r' => Some(FormattingCode::Reset),
        _ => None,
    }
}

/// Looks a code character up in the directive registry.
pub fn lookup_code(c: char) -> (r: Option<FormattingCode>)
    ensures
        r == code_of(c),
{
    match c {
        '0' => Some(FormattingCode::Black),
        '1' => Some(FormattingCode::DarkBlue),
        '2' => Some(FormattingCode::DarkGreen),
        '3' => Some(FormattingCode::DarkAqua),
        '4' => Some(FormattingCode::DarkRed),
        '5' => Some(FormattingCode::DarkPurple),
        '6' => Some(FormattingCode::Gold),
        '7' => Some(FormattingCode::Gray),
        '8' => Some(FormattingCode::DarkGray),
        '9' => Some(FormattingCode::Blue),
        'a' => Some(FormattingCode::Green),
        'b' => Some(FormattingCode::Aqua),
        'c' => Some(FormattingCode::Red),
        'd' => Some(FormattingCode::LightPurple),
        'e' => Some(FormattingCode::Yellow),
        'f' => Some(FormattingCode::White),
        'k' => Some(FormattingCode::Obfuscated),
        'l' => Some(FormattingCode::Bold),
        'm' => Some(FormattingCode::Strikethrough),
        'n' => Some(FormattingCode::Underline),
        'o' => Some(FormattingCode::Italic),
        'r' => Some(FormattingCode::Reset),
        _ => None,
    }
}

/// A directive that determines the CSS colour of its section: the sixteen
/// colours, and the obfuscated style, which renders as a fixed placeholder
/// colour because true glyph scrambling is out of scope.
pub open spec fn sets_color(code: FormattingCode) -> bool {
    is_color(code) || code == FormattingCode::Obfuscated
}

/// The fixed directive-to-colour-value table used in style declarations.
pub open spec fn color_value(code: FormattingCode) -> Seq<char> {
    match code {
        FormattingCode::Black => "#000000"@,
        FormattingCode::DarkBlue => "#0000AA"@,
        FormattingCode::DarkGreen => "#00AA00"@,
        FormattingCode::DarkAqua => "#00AAAA"@,
        FormattingCode::DarkRed => "#AA0000"@,
        FormattingCode::DarkPurple => "#AA00AA"@,
        FormattingCode::Gold => "#FFAA00"@,
        FormattingCode::Gray => "#AAAAAA"@,
        FormattingCode::DarkGray => "#555555"@,
        FormattingCode::Blue => "#5555FF"@,
        FormattingCode::Green => "#55FF55"@,
        FormattingCode::Aqua => "#55FFFF"@,
        FormattingCode::Red => "#FF5555"@,
        FormattingCode::LightPurple => "#FF55FF"@,
        FormattingCode::Yellow => "#FFFF55"@,
        FormattingCode::White => "#FFFFFF"@,
        FormattingCode::Obfuscated => "#293E0B"@,
        _ => Seq::empty(),
    }
}

/// Returns the CSS colour value of a colour-setting directive.
pub fn color_value_str(code: FormattingCode) -> (r: &'static str)
    requires
        sets_color(code),
    ensures
        r@ == color_value(code),
{
    match code {
        FormattingCode::Black => "#000000",
        FormattingCode::DarkBlue => "#0000AA",
        FormattingCode::DarkGreen => "#00AA00",
        FormattingCode::DarkAqua => "#00AAAA",
        FormattingCode::DarkRed => "#AA0000",
        FormattingCode::DarkPurple => "#AA00AA",
        FormattingCode::Gold => "#FFAA00",
        FormattingCode::Gray => "#AAAAAA",
        FormattingCode::DarkGray => "#555555",
        FormattingCode::Blue => "#5555FF",
        FormattingCode::Green => "#55FF55",
        FormattingCode::Aqua => "#55FFFF",
        FormattingCode::Red => "#FF5555",
        FormattingCode::LightPurple => "#FF55FF",
        FormattingCode::Yellow => "#FFFF55",
        FormattingCode::White => "#FFFFFF",
        _ => "#293E0B",
    }
}

} // verus!
