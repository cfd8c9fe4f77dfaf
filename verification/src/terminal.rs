//! What the command line and the environment select: the output format and
//! the region of the plane.

use vstd::prelude::*;
use crate::renderer::OutputFormat;
use crate::text::{contains, lowercase_of, str_contains, str_eq, to_lowercase};

verus! {

/// The format that suits a terminal, from the values of its two environment
/// variables (`None` where a variable is not set): 24-bit color where
/// `COLORTERM` says so, else 256 colors where `TERM` names them, else plain
/// glyphs.
pub open spec fn detected_format(colorterm: Option<&str>, term: Option<&str>) -> OutputFormat {
    if colorterm matches Some(value) && (value@ == "truecolor"@ || value@ == "24bit"@) {
        OutputFormat::AnsiTrueColor
    } else if term matches Some(value) && contains(value@, "256color"@) {
        OutputFormat::Ansi256
    } else {
        OutputFormat::Ascii
    }
}

/// The format that suits the terminal whose `COLORTERM` and `TERM` are given.
pub fn detect_terminal_capabilities(colorterm: Option<&str>, term: Option<&str>) -> (format:
    OutputFormat)
    ensures
        format == detected_format(colorterm, term),
{
    if let Some(value) = colorterm {
        if str_eq(value, "truecolor") || str_eq(value, "24bit") {
            return OutputFormat::AnsiTrueColor;
        }
    }
    if let Some(value) = term {
        if str_contains(value, "256color") {
            return OutputFormat::Ansi256;
        }
    }
    OutputFormat::Ascii
}

/// What a format name asks for: the terminal's best format, or a given one.
#[derive(Debug, Clone, Copy, PartialEq, Eq, Structural)]
pub enum FormatChoice {
    Auto,
    Fixed(OutputFormat),
}

/// The choice that a lowercase format name makes, if any.
pub open spec fn format_named(name: Seq<char>) -> Option<FormatChoice> {
    if name == "auto"@ {
        Some(FormatChoice::Auto)
    } else if name == "ascii"@ {
        Some(FormatChoice::Fixed(OutputFormat::Ascii))
    } else if name == "extended"@ {
        Some(FormatChoice::Fixed(OutputFormat::AsciiExtended))
    } else if name == "ansi256"@ {
        Some(FormatChoice::Fixed(OutputFormat::Ansi256))
    } else if name == "truecolor"@ {
        Some(FormatChoice::Fixed(OutputFormat::AnsiTrueColor))
    } else {
        None
    }
}

impl FormatChoice {
    /// The choice that `name` makes, compared as it stands.
    pub fn from_lowercase(name: &str) -> (choice: Option<Self>)
        ensures
            choice == format_named(name@),
    {
        if str_eq(name, "auto") {
            Some(FormatChoice::Auto)
        } else if str_eq(name, "ascii") {
            Some(FormatChoice::Fixed(OutputFormat::Ascii))
        } else if str_eq(name, "extended") {
            Some(FormatChoice::Fixed(OutputFormat::AsciiExtended))
        } else if str_eq(name, "ansi256") {
            Some(FormatChoice::Fixed(OutputFormat::Ansi256))
        } else if str_eq(name, "truecolor") {
            Some(FormatChoice::Fixed(OutputFormat::AnsiTrueColor))
        } else {
            None
        }
    }

    /// The choice that `s` makes, whatever the case of its letters.
    pub fn from_str(s: &str) -> (choice: Option<Self>)
        ensures
            choice == format_named(lowercase_of(s@)),
    {
        let lower = to_lowercase(s);
        Self::from_lowercase(lower.as_str())
    }

    /// The format of this choice on the terminal whose `COLORTERM` and `TERM`
    /// are given.
    pub fn resolve(self, colorterm: Option<&str>, term: Option<&str>) -> (format: OutputFormat)
        ensures
            format == match self {
                FormatChoice::Auto => detected_format(colorterm, term),
                FormatChoice::Fixed(fixed) => fixed,
            },
    {
        match self {
            FormatChoice::Auto => detect_terminal_capabilities(colorterm, term),
            FormatChoice::Fixed(fixed) => fixed,
        }
    }
}

/// The region of a lowercase preset name, if any: `x_min`, `x_max`, `y_min`
/// and `y_max`, each in ten-thousandths.
pub open spec fn preset_named(name: Seq<char>) -> Option<(i32, i32, i32, i32)> {
    if name == "default"@ {
        Some((-20000i32, 10000i32, -10000i32, 10000i32))
    } else if name == "seahorse"@ {
        Some((-7500i32, -7350i32, 950i32, 1100i32))
    } else if name == "spiral"@ {
        Some((-7269i32, -7266i32, 1889i32, 1892i32))
    } else if name == "elephant"@ {
        Some((2750i32, 2850i32, 50i32, 150i32))
    } else if name == "julia"@ {
        Some((-15000i32, 15000i32, -15000i32, 15000i32))
    } else {
        None
    }
}

/// The region shown where none is asked for: the whole set.
pub fn default_region() -> (region: (i32, i32, i32, i32))
    ensures
        Some(region) == preset_named("default"@),
{
    (-20000, 10000, -10000, 10000)
}

/// The region that `name` selects, compared as it stands.
pub fn preset_from_lowercase(name: &str) -> (region: Option<(i32, i32, i32, i32)>)
    ensures
        region == preset_named(name@),
{
    if str_eq(name, "default") {
        Some((-20000, 10000, -10000, 10000))
    } else if str_eq(name, "seahorse") {
        Some((-7500, -7350, 950, 1100))
    } else if str_eq(name, "spiral") {
        Some((-7269, -7266, 1889, 1892))
    } else if str_eq(name, "elephant") {
        Some((2750, 2850, 50, 150))
    } else if str_eq(name, "julia") {
        Some((-15000, 15000, -15000, 15000))
    } else {
        None
    }
}

/// The region that `preset` selects, whatever the case of its letters, in
/// ten-thousandths.
pub fn get_preset_coords(preset: &str) -> (region: Option<(i32, i32, i32, i32)>)
    ensures
        region == preset_named(lowercase_of(preset@)),
{
    let lower = to_lowercase(preset);
    preset_from_lowercase(lower.as_str())
}

} // verus!
