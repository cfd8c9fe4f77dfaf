//! Colors and the named palettes.
//!
//! What a palette computes in real numbers is the caller's arithmetic. Here
//! stand the decisions around it: the color of the set, the ends of a blend,
//! the sectors of the color wheel, and the names and tables of the palettes.

use vstd::prelude::*;
use vstd::string::*;
use crate::gradient::Gradient;
use crate::number::{is_nan, is_nan_bits, key_of, key_of_bits, unit_key_of_bits, ONE, ZERO};
use crate::text::{lowercase_of, str_eq, to_lowercase};

verus! {

/// An RGB color with three 8-bit channels.
#[derive(Debug, Clone, Copy, PartialEq, Eq, Structural)]
pub struct Color {
    pub r: u8,
    pub g: u8,
    pub b: u8,
}

impl Color {
    /// Black, the color of every point that never escaped.
    pub open spec fn black() -> Color {
        Color { r: 0, g: 0, b: 0 }
    }

    /// Builds a color from its three channels.
    pub fn new(r: u8, g: u8, b: u8) -> (c: Self)
        ensures
            c == (Color { r, g, b }),
    {
        Self { r, g, b }
    }

    /// The blend of `self` and `other` at the weight of bits `t`, held to the
    /// range from zero to one. At zero it is `self` and at one it is `other`,
    /// channel for channel. Strictly between the two, and where `t` is no
    /// number, it is what `between` makes of the two colors and the weight.
    pub fn lerp<F: FnOnce(Color, Color, u64) -> Color>(
        self,
        other: Color,
        t: u64,
        between: F,
    ) -> (color: Color)
        requires
            is_nan(t) || key_of(ZERO) < key_of(t) < key_of(ONE) ==> call_requires(
                between,
                (self, other, t),
            ),
        ensures
            !is_nan(t) && key_of(t) <= key_of(ZERO) ==> color == self,
            !is_nan(t) && key_of(t) >= key_of(ONE) ==> color == other,
            is_nan(t) || key_of(ZERO) < key_of(t) < key_of(ONE) ==> call_ensures(
                between,
                (self, other, t),
                color,
            ),
    {
        if is_nan_bits(t) {
            return between(self, other, t);
        }
        let key = unit_key_of_bits(t);
        if key == key_of_bits(ZERO) {
            self
        } else if key == key_of_bits(ONE) {
            other
        } else {
            between(self, other, t)
        }
    }
}

/// The sector of the color wheel in which a hue of `degrees` whole degrees
/// lies: six sectors of sixty degrees from zero, the last of which also takes
/// every hue outside the wheel.
pub open spec fn sector_of(degrees: i32) -> u8 {
    if 0 <= degrees <= 59 {
        0
    } else if 60 <= degrees <= 119 {
        1
    } else if 120 <= degrees <= 179 {
        2
    } else if 180 <= degrees <= 239 {
        3
    } else if 240 <= degrees <= 299 {
        4
    } else {
        5
    }
}

/// The sector of the color wheel in which a hue of `degrees` whole degrees lies.
pub fn hue_sector(degrees: i32) -> (sector: u8)
    ensures
        sector == sector_of(degrees),
        sector <= 5,
{
    if degrees < 0 || degrees >= 300 {
        5
    } else {
        (degrees / 60) as u8
    }
}

/// The red, green and blue parts of a hue of `degrees` whole degrees, chosen
/// by its sector from the chroma `c`, the second-largest part `x` and `zero`.
pub open spec fn channels_of<T>(degrees: i32, c: T, x: T, zero: T) -> (T, T, T) {
    if sector_of(degrees) == 0 {
        (c, x, zero)
    } else if sector_of(degrees) == 1 {
        (x, c, zero)
    } else if sector_of(degrees) == 2 {
        (zero, c, x)
    } else if sector_of(degrees) == 3 {
        (zero, x, c)
    } else if sector_of(degrees) == 4 {
        (x, zero, c)
    } else {
        (c, zero, x)
    }
}

/// The red, green and blue parts of a hue of `degrees` whole degrees.
pub fn hue_channels<T>(degrees: i32, c: T, x: T, zero: T) -> (parts: (T, T, T))
    ensures
        parts == channels_of(degrees, c, x, zero),
{
    let sector = hue_sector(degrees);
    if sector == 0 {
        (c, x, zero)
    } else if sector == 1 {
        (x, c, zero)
    } else if sector == 2 {
        (zero, c, x)
    } else if sector == 3 {
        (zero, x, c)
    } else if sector == 4 {
        (x, zero, c)
    } else {
        (c, zero, x)
    }
}

/// A palette: one of the seven named ones, or a gradient of the caller's.
#[derive(Debug)]
pub enum ColorScheme {
    Grayscale,
    Classic,
    Ocean,
    Fire,
    Psychedelic,
    Forest,
    Sunset,
    Custom(Gradient),
}

/// The palette that a lowercase name selects, if any. `Custom` has no name.
pub open spec fn scheme_named(name: Seq<char>) -> Option<ColorScheme> {
    if name == "grayscale"@ || name == "gray"@ {
        Some(ColorScheme::Grayscale)
    } else if name == "classic"@ {
        Some(ColorScheme::Classic)
    } else if name == "ocean"@ {
        Some(ColorScheme::Ocean)
    } else if name == "fire"@ {
        Some(ColorScheme::Fire)
    } else if name == "psychedelic"@ || name == "rainbow"@ {
        Some(ColorScheme::Psychedelic)
    } else if name == "forest"@ {
        Some(ColorScheme::Forest)
    } else if name == "sunset"@ {
        Some(ColorScheme::Sunset)
    } else {
        None
    }
}

/// The names under which the palettes are listed, one for each named palette.
pub open spec fn listed_names() -> Seq<Seq<char>> {
    seq![
        "grayscale"@,
        "classic"@,
        "ocean"@,
        "fire"@,
        "psychedelic"@,
        "forest"@,
        "sunset"@,
    ]
}

/// The stops of a table palette, positions in ten-thousandths of the range;
/// `None` for the palettes that are not tables.
pub open spec fn table_of(scheme: ColorScheme) -> Option<Seq<(u16, Color)>> {
    match scheme {
        ColorScheme::Classic => Some(
            seq![
                (0u16, Color { r: 0, g: 7, b: 100 }),
                (1600u16, Color { r: 32, g: 107, b: 203 }),
                (4200u16, Color { r: 237, g: 255, b: 255 }),
                (6425u16, Color { r: 255, g: 170, b: 0 }),
                (8575u16, Color { r: 0, g: 2, b: 0 }),
                (10000u16, Color { r: 0, g: 7, b: 100 }),
            ],
        ),
        ColorScheme::Ocean => Some(
            seq![
                (0u16, Color { r: 0, g: 0, b: 128 }),
                (3000u16, Color { r: 0, g: 128, b: 255 }),
                (6000u16, Color { r: 64, g: 224, b: 208 }),
                (10000u16, Color { r: 240, g: 255, b: 255 }),
            ],
        ),
        ColorScheme::Fire => Some(
            seq![
                (0u16, Color { r: 0, g: 0, b: 0 }),
                (2500u16, Color { r: 128, g: 0, b: 0 }),
                (5000u16, Color { r: 255, g: 0, b: 0 }),
                (7500u16, Color { r: 255, g: 165, b: 0 }),
                (10000u16, Color { r: 255, g: 255, b: 0 }),
            ],
        ),
        ColorScheme::Forest => Some(
            seq![
                (0u16, Color { r: 0, g: 20, b: 0 }),
                (3000u16, Color { r: 34, g: 139, b: 34 }),
                (6000u16, Color { r: 144, g: 238, b: 144 }),
                (10000u16, Color { r: 240, g: 255, b: 240 }),
            ],
        ),
        ColorScheme::Sunset => Some(
            seq![
                (0u16, Color { r: 25, g: 25, b: 112 }),
                (3000u16, Color { r: 255, g: 69, b: 0 }),
                (6000u16, Color { r: 255, g: 140, b: 0 }),
                (8000u16, Color { r: 255, g: 215, b: 0 }),
                (10000u16, Color { r: 255, g: 250, b: 205 }),
            ],
        ),
        _ => None,
    }
}

/// Every listed name selects a palette, each its own.
pub proof fn lemma_listed_names_resolve()
    ensures
        listed_names().len() == 7,
        scheme_named(listed_names()[0]) == Some(ColorScheme::Grayscale),
        scheme_named(listed_names()[1]) == Some(ColorScheme::Classic),
        scheme_named(listed_names()[2]) == Some(ColorScheme::Ocean),
        scheme_named(listed_names()[3]) == Some(ColorScheme::Fire),
        scheme_named(listed_names()[4]) == Some(ColorScheme::Psychedelic),
        scheme_named(listed_names()[5]) == Some(ColorScheme::Forest),
        scheme_named(listed_names()[6]) == Some(ColorScheme::Sunset),
{
    reveal_strlit("grayscale");
    reveal_strlit("gray");
    reveal_strlit("classic");
    reveal_strlit("ocean");
    reveal_strlit("fire");
    reveal_strlit("psychedelic");
    reveal_strlit("rainbow");
    reveal_strlit("forest");
    reveal_strlit("sunset");
    // Names differ in their length, or else in their first letter.
    assert("grayscale"@.len() == 9 && "gray"@.len() == 4 && "classic"@.len() == 7);
    assert("ocean"@.len() == 5 && "fire"@.len() == 4 && "psychedelic"@.len() == 11);
    assert("rainbow"@.len() == 7 && "forest"@.len() == 6 && "sunset"@.len() == 6);
    assert("fire"@[0] != "gray"@[0]);
    assert("forest"@[0] != "sunset"@[0]);
}

/// A table palette runs over the whole range: its first stop stands at 0,
/// its last at 10000, and the positions between them strictly increase.
pub proof fn lemma_tables_span_the_range(scheme: ColorScheme)
    requires
        table_of(scheme) is Some,
    ensures
        table_of(scheme)->0.len() >= 2,
        table_of(scheme)->0[0].0 == 0,
        table_of(scheme)->0.last().0 == 10000,
        forall|i: int, j: int|
            0 <= i < j < table_of(scheme)->0.len() ==> (#[trigger] table_of(scheme)->0[i]).0 < (
            #[trigger] table_of(scheme)->0[j]).0,
{
}

impl ColorScheme {
    /// The palette that `name` selects, compared as it stands.
    pub fn from_lowercase(name: &str) -> (scheme: Option<Self>)
        ensures
            scheme == scheme_named(name@),
    {
        if str_eq(name, "grayscale") || str_eq(name, "gray") {
            Some(ColorScheme::Grayscale)
        } else if str_eq(name, "classic") {
            Some(ColorScheme::Classic)
        } else if str_eq(name, "ocean") {
            Some(ColorScheme::Ocean)
        } else if str_eq(name, "fire") {
            Some(ColorScheme::Fire)
        } else if str_eq(name, "psychedelic") || str_eq(name, "rainbow") {
            Some(ColorScheme::Psychedelic)
        } else if str_eq(name, "forest") {
            Some(ColorScheme::Forest)
        } else if str_eq(name, "sunset") {
            Some(ColorScheme::Sunset)
        } else {
            None
        }
    }

    /// The palette that `s` selects, whatever the case of its letters.
    pub fn from_str(s: &str) -> (scheme: Option<Self>)
        ensures
            scheme == scheme_named(lowercase_of(s@)),
    {
        let lower = to_lowercase(s);
        Self::from_lowercase(lower.as_str())
    }

    /// The names of the named palettes.
    pub fn list_schemes() -> (names: Vec<&'static str>)
        ensures
            names@.len() == listed_names().len(),
            forall|i: int| 0 <= i < names@.len() ==> (#[trigger] names@[i])@ == listed_names()[i],
    {
        let mut names: Vec<&'static str> = Vec::new();
        names.push("grayscale");
        names.push("classic");
        names.push("ocean");
        names.push("fire");
        names.push("psychedelic");
        names.push("forest");
        names.push("sunset");
        names
    }

    /// The color of a point that never escaped: black, whatever the palette.
    /// A point that escaped has no color here; its palette decides.
    pub fn in_set_color(&self, iterations: usize, max_iterations: usize) -> (color: Option<Color>)
        ensures
            color == if iterations >= max_iterations {
                Some(Color::black())
            } else {
                None
            },
    {
        if iterations >= max_iterations {
            Some(Color::new(0, 0, 0))
        } else {
            None
        }
    }

    /// The stops of a table palette, positions in ten-thousandths of the range.
    pub fn table(&self) -> (stops: Option<Vec<(u16, Color)>>)
        ensures
            stops is Some == table_of(*self) is Some,
            stops matches Some(v) ==> v@ == table_of(*self)->0,
    {
        let mut v: Vec<(u16, Color)> = Vec::new();
        match self {
            ColorScheme::Classic => {
                v.push((0, Color::new(0, 7, 100)));
                v.push((1600, Color::new(32, 107, 203)));
                v.push((4200, Color::new(237, 255, 255)));
                v.push((6425, Color::new(255, 170, 0)));
                v.push((8575, Color::new(0, 2, 0)));
                v.push((10000, Color::new(0, 7, 100)));
            },
            ColorScheme::Ocean => {
                v.push((0, Color::new(0, 0, 128)));
                v.push((3000, Color::new(0, 128, 255)));
                v.push((6000, Color::new(64, 224, 208)));
                v.push((10000, Color::new(240, 255, 255)));
            },
            ColorScheme::Fire => {
                v.push((0, Color::new(0, 0, 0)));
                v.push((2500, Color::new(128, 0, 0)));
                v.push((5000, Color::new(255, 0, 0)));
                v.push((7500, Color::new(255, 165, 0)));
                v.push((10000, Color::new(255, 255, 0)));
            },
            ColorScheme::Forest => {
                v.push((0, Color::new(0, 20, 0)));
                v.push((3000, Color::new(34, 139, 34)));
                v.push((6000, Color::new(144, 238, 144)));
                v.push((10000, Color::new(240, 255, 240)));
            },
            ColorScheme::Sunset => {
                v.push((0, Color::new(25, 25, 112)));
                v.push((3000, Color::new(255, 69, 0)));
                v.push((6000, Color::new(255, 140, 0)));
                v.push((8000, Color::new(255, 215, 0)));
                v.push((10000, Color::new(255, 250, 205)));
            },
            _ => {
                return None;
            },
        }
        assert(v@ =~= table_of(*self)->0);
        Some(v)
    }
}

} // verus!
