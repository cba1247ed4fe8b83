use vstd::prelude::*;

use csscolorparser::ParseColorError;

verus! {

/// The reason `csscolorparser` gives for refusing a colour.
#[verifier::external_type_specification]
#[verifier::external_body]
pub struct ExParseColorError(ParseColorError);

/// The colour that `csscolorparser::parse` reads from `s`, as the red,
/// green, blue and alpha bytes that `Color::to_rgba8` gives of it; `None`
/// where the parser refuses `s`.
pub uninterp spec fn css_color_rgba8(s: Seq<char>) -> Option<[u8; 4]>;

/// `csscolorparser::parse`, its colour turned into bytes by
/// `Color::to_rgba8`. Claims only that the outcome is a function of `s`
/// (named `css_color_rgba8`); which strings are colours, and which bytes
/// they give, is the parser's.
#[verifier::external_body]
fn parse_css_rgba8(s: &str) -> (r: Result<[u8; 4], ParseColorError>)
    ensures
        match r {
            Ok(c) => css_color_rgba8(s@) == Some(c),
            Err(_) => css_color_rgba8(s@) is None,
        },
{
    match csscolorparser::parse(s) {
        Ok(color) => Ok(color.to_rgba8()),
        Err(e) => Err(e),
    }
}

/// Why a colour given by the user could not be used.
#[derive(Clone, Copy, Debug, PartialEq, Eq)]
pub enum ColorError {
    /// The text is no CSS colour; the parser's reason.
    Invalid(ParseColorError),
}

/// Reads a CSS colour (a name such as `red`, `#ff0000`, `rgb(255,0,0)`, ...)
/// as red, green and blue bytes; its alpha is dropped.
pub fn parse_color(s: &str) -> (r: Result<[u8; 3], ColorError>)
    ensures
        match r {
            Ok(rgb) => css_color_rgba8(s@) matches Some(c) && rgb@ == c@.take(3),
            Err(_) => css_color_rgba8(s@) is None,
        },
{
    match parse_css_rgba8(s) {
        Ok(c) => {
            let rgb = [c[0], c[1], c[2]];
            assert(rgb@ =~= c@.take(3));
            Ok(rgb)
        },
        Err(e) => Err(ColorError::Invalid(e)),
    }
}

} // verus!
