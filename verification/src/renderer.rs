//! Encoders from a grid of iteration counts and colors to terminal text and
//! to the bytes of a PPM image.

use vstd::prelude::*;
use vstd::string::*;
use vstd::utf8::is_ascii_chars;
use crate::colorscheme::{Color, ColorScheme};
use crate::text::{
    ascii_bytes, concat, decimal, lemma_concat_len, lemma_decimal_is_ascii, push_ascii,
    push_decimal,
};

verus! {

/// How a grid is shown on a terminal.
#[derive(Debug, Clone, Copy, PartialEq, Eq, Structural)]
pub enum OutputFormat {
    Ascii,
    AsciiExtended,
    Ansi256,
    AnsiTrueColor,
}

/// One channel cut down to the six levels of the color cube.
pub open spec fn cube_level(channel: u8) -> int {
    channel as int * 5 / 255
}

/// The code of a color in the 216-color cube of the 256-color terminals.
pub open spec fn ansi256_code(r: u8, g: u8, b: u8) -> int {
    16 + 36 * cube_level(r) + 6 * cube_level(g) + cube_level(b)
}

/// The channel value that stands for a level of the cube: the levels lie
/// evenly between 0 and 255.
pub open spec fn level_channel(level: int) -> u8
    recommends
        0 <= level <= 5,
{
    (level * 51) as u8
}

/// The cube code of a color: each channel cut down to six levels, rounding
/// down, and the three levels composed above the sixteen base colors.
pub fn rgb_to_ansi256(r: u8, g: u8, b: u8) -> (code: u8)
    ensures
        code == ansi256_code(r, g, b),
        16 <= code <= 231,
{
    let r: u8 = (r as u16 * 5 / 255) as u8;
    let g: u8 = (g as u16 * 5 / 255) as u8;
    let b: u8 = (b as u16 * 5 / 255) as u8;

    16 + 36 * r + 6 * g + b
}

/// Cutting a color down to the cube is idempotent: the color that stands for
/// the levels of `(r, g, b)` has those same levels, and so the same code.
pub proof fn lemma_cube_code_idempotent(r: u8, g: u8, b: u8)
    ensures
        0 <= cube_level(r) <= 5,
        cube_level(level_channel(cube_level(r))) == cube_level(r),
        ansi256_code(
            level_channel(cube_level(r)),
            level_channel(cube_level(g)),
            level_channel(cube_level(b)),
        ) == ansi256_code(r, g, b),
{
}

/// The color in which a pixel is shown: black where the point never escaped,
/// whatever the palette gave, and else the palette's color.
pub open spec fn shown_color(iterations: usize, max_iterations: usize, color: Color) -> Color {
    if iterations >= max_iterations {
        Color::black()
    } else {
        color
    }
}

/// The grid of one render pass, row by row from the top: the iteration count
/// of each pixel, the color that the palette gives it, and the iteration
/// budget. The color of a pixel that never escaped is not read.
pub struct RenderData {
    pub iterations: Vec<Vec<usize>>,
    pub colors: Vec<Vec<Color>>,
    pub max_iterations: usize,
}

impl RenderData {
    /// A grid of the two given grids and the budget, as they are.
    pub fn new(
        iterations: Vec<Vec<usize>>,
        colors: Vec<Vec<Color>>,
        max_iterations: usize,
    ) -> (data: Self)
        ensures
            data.iterations == iterations,
            data.colors == colors,
            data.max_iterations == max_iterations,
    {
        Self { iterations, colors, max_iterations }
    }

    /// The length of the first row of counts; zero without rows.
    pub open spec fn spec_width(&self) -> nat {
        if self.iterations@.len() == 0 {
            0
        } else {
            self.iterations@[0]@.len()
        }
    }

    /// The number of rows of counts.
    pub open spec fn spec_height(&self) -> nat {
        self.iterations@.len()
    }

    /// The iteration count of the pixel in row `y` and column `x`.
    pub open spec fn count(&self, y: int, x: int) -> usize {
        self.iterations@[y]@[x]
    }

    /// The color in which the pixel in row `y` and column `x` is shown.
    pub open spec fn pixel(&self, y: int, x: int) -> Color {
        shown_color(self.count(y, x), self.max_iterations, self.colors@[y]@[x])
    }

    /// Every row of counts has the grid's width.
    pub open spec fn counts_rectangular(&self) -> bool {
        forall|y: int|
            0 <= y < self.spec_height() ==> (#[trigger] self.iterations@[y])@.len()
                == self.spec_width()
    }

    /// The colors have the shape of the counts.
    pub open spec fn colors_fit(&self) -> bool {
        &&& self.colors@.len() == self.spec_height()
        &&& forall|y: int|
            0 <= y < self.spec_height() ==> (#[trigger] self.colors@[y])@.len()
                == self.spec_width()
    }

    /// Both grids are rectangles of one shape.
    pub open spec fn well_formed(&self) -> bool {
        self.counts_rectangular() && self.colors_fit()
    }

    /// The number of pixels in a row.
    pub fn width(&self) -> (w: usize)
        ensures
            w == self.spec_width(),
    {
        if self.iterations.len() == 0 {
            0
        } else {
            self.iterations[0].len()
        }
    }

    /// The number of rows.
    pub fn height(&self) -> (h: usize)
        ensures
            h == self.spec_height(),
    {
        self.iterations.len()
    }

    /// Tests `counts_rectangular`.
    pub fn has_rectangular_counts(&self) -> (ok: bool)
        ensures
            ok == self.counts_rectangular(),
    {
        let h = self.height();
        let w = self.width();
        let mut y: usize = 0;
        while y < h
            invariant
                y <= h,
                h == self.spec_height(),
                w == self.spec_width(),
                forall|k: int| 0 <= k < y ==> (#[trigger] self.iterations@[k])@.len() == w,
            decreases h - y,
        {
            if self.iterations[y].len() != w {
                return false;
            }
            y += 1;
        }
        true
    }

    /// Tests `well_formed`.
    pub fn is_well_formed(&self) -> (ok: bool)
        ensures
            ok == self.well_formed(),
    {
        if !self.has_rectangular_counts() {
            return false;
        }
        let h = self.height();
        let w = self.width();
        if self.colors.len() != h {
            return false;
        }
        let mut y: usize = 0;
        while y < h
            invariant
                y <= h,
                h == self.spec_height(),
                h == self.colors@.len(),
                w == self.spec_width(),
                forall|k: int| 0 <= k < y ==> (#[trigger] self.colors@[k])@.len() == w,
            decreases h - y,
        {
            if self.colors[y].len() != w {
                return false;
            }
            y += 1;
        }
        true
    }
}

/// The ten glyphs of the plain ramp, from blank to dense.
pub open spec fn ascii_ramp() -> Seq<char> {
    " .:-=+*#%@"@
}

/// The twenty glyphs of the extended ramp, from blank to dense.
pub open spec fn extended_ramp() -> Seq<char> {
    " ·∙•○◦⋅⋆∗⊕⊗⊛⊚◉●◐◑◒◓█"@
}

/// The glyph of a pixel on a ramp. A point that never escaped is blank. An
/// escaped point falls into the bucket `floor(iterations / max_iterations *
/// (levels - 1))`, where `levels` is the length of the ramp.
pub open spec fn glyph(ramp: Seq<char>, iterations: usize, max_iterations: usize) -> char {
    if iterations >= max_iterations {
        ' '
    } else {
        ramp[iterations * (ramp.len() - 1) / (max_iterations as int)]
    }
}

/// The bucket of an escaped point lies below the last one: the densest glyph
/// of a ramp of two or more levels is never shown.
pub proof fn lemma_bucket_below_last(levels: nat, iterations: usize, max_iterations: usize)
    requires
        levels >= 2,
        iterations < max_iterations,
    ensures
        0 <= iterations * (levels - 1) / (max_iterations as int) < levels - 1,
{
    let a = iterations * (levels - 1);
    let m = max_iterations as int;
    assert(a < m * (levels - 1)) by (nonlinear_arith)
        requires
            a == iterations * (levels - 1),
            iterations < m,
            levels >= 2,
    ;
    assert(0 <= a / m < levels - 1) by (nonlinear_arith)
        requires
            0 <= a < m * (levels - 1),
            m > 0,
    ;
}

/// The glyph of each pixel of row `y`, one character each.
pub open spec fn glyph_cells(ramp: Seq<char>, data: RenderData, y: int) -> spec_fn(int) -> Seq<
    char,
> {
    |x: int| seq![glyph(ramp, data.count(y, x), data.max_iterations)]
}

/// The line of each row of counts: its glyphs and a line feed.
pub open spec fn glyph_lines(ramp: Seq<char>, data: RenderData) -> spec_fn(int) -> Seq<char> {
    |y: int| concat(data.spec_width(), glyph_cells(ramp, data, y)).push('\n')
}

/// The glyph art of a grid: the lines of its rows, from the top.
pub open spec fn glyph_art(ramp: Seq<char>, data: RenderData) -> Seq<char> {
    concat(data.spec_height(), glyph_lines(ramp, data))
}

/// The cell of a color on a 256-color terminal: a blank on a background of
/// the color's cube code, and a reset.
pub open spec fn ansi256_cell(color: Color) -> Seq<char> {
    "\x1b[48;5;"@ + decimal(ansi256_code(color.r, color.g, color.b) as nat) + "m \x1b[0m"@
}

/// The cell of a color on a 24-bit terminal: a blank on a background of the
/// three channels as they are, and a reset.
pub open spec fn truecolor_cell(color: Color) -> Seq<char> {
    "\x1b[48;2;"@ + decimal(color.r as nat) + ";"@ + decimal(color.g as nat) + ";"@ + decimal(
        color.b as nat,
    ) + "m \x1b[0m"@
}

/// The cell of a color, by the depth of the terminal.
pub open spec fn color_cell(truecolor: bool, color: Color) -> Seq<char> {
    if truecolor {
        truecolor_cell(color)
    } else {
        ansi256_cell(color)
    }
}

/// The cell of each pixel of row `y`.
pub open spec fn color_cells(truecolor: bool, data: RenderData, y: int) -> spec_fn(int) -> Seq<
    char,
> {
    |x: int| color_cell(truecolor, data.pixel(y, x))
}

/// The line of each row of colors: its cells and a line feed.
pub open spec fn color_lines(truecolor: bool, data: RenderData) -> spec_fn(int) -> Seq<char> {
    |y: int| concat(data.spec_width(), color_cells(truecolor, data, y)).push('\n')
}

/// The color art of a grid: the lines of its rows, from the top.
pub open spec fn color_art(truecolor: bool, data: RenderData) -> Seq<char> {
    concat(data.spec_height(), color_lines(truecolor, data))
}

/// The text that shows a grid on a terminal in a format.
pub open spec fn terminal_text(format: OutputFormat, data: RenderData) -> Seq<char> {
    match format {
        OutputFormat::Ascii => glyph_art(ascii_ramp(), data),
        OutputFormat::AsciiExtended => glyph_art(extended_ramp(), data),
        OutputFormat::Ansi256 => color_art(false, data),
        OutputFormat::AnsiTrueColor => color_art(true, data),
    }
}

/// The header of a binary PPM image: the magic number, the width and the
/// height in decimal, and the largest channel value.
pub open spec fn ppm_header(width: nat, height: nat) -> Seq<char> {
    "P6\n"@ + decimal(width) + " "@ + decimal(height) + "\n255\n"@
}

/// The three bytes of each pixel of row `y`.
pub open spec fn pixel_bytes(data: RenderData, y: int) -> spec_fn(int) -> Seq<u8> {
    |x: int| seq![data.pixel(y, x).r, data.pixel(y, x).g, data.pixel(y, x).b]
}

/// The bytes of each row of pixels.
pub open spec fn row_bytes(data: RenderData) -> spec_fn(int) -> Seq<u8> {
    |y: int| concat(data.spec_width(), pixel_bytes(data, y))
}

/// The pixels of a grid as raw bytes: row by row from the top, each row from
/// the left, three bytes a pixel.
pub open spec fn ppm_body(data: RenderData) -> Seq<u8> {
    concat(data.spec_height(), row_bytes(data))
}

/// The bytes of the binary PPM image of a grid.
pub open spec fn ppm_image(data: RenderData) -> Seq<u8> {
    ascii_bytes(ppm_header(data.spec_width(), data.spec_height())) + ppm_body(data)
}

/// The body of an image holds three bytes for each pixel of the grid.
pub proof fn lemma_ppm_body_len(data: RenderData)
    ensures
        ppm_body(data).len() == 3 * data.spec_width() * data.spec_height(),
{
    let w = data.spec_width();
    let h = data.spec_height();
    assert forall|y: int| 0 <= y < h implies (#[trigger] row_bytes(data)(y)).len() == w * 3 by {
        lemma_concat_len(w, pixel_bytes(data, y), 3);
    }
    lemma_concat_len(h, row_bytes(data), w * 3);
    assert(h * (w * 3) == 3 * w * h) by (nonlinear_arith);
}

/// The header of an image holds ASCII characters only.
pub proof fn lemma_ppm_header_is_ascii(width: nat, height: nat)
    ensures
        is_ascii_chars(ppm_header(width, height)),
{
    reveal_strlit("P6\n");
    reveal_strlit(" ");
    reveal_strlit("\n255\n");
    lemma_decimal_is_ascii(width);
    lemma_decimal_is_ascii(height);
}

/// In every format and under every palette, a pixel that never escaped is
/// shown as a point of the set: blank in glyph art, black in color art and in
/// images.
pub proof fn lemma_in_set_pixels(data: RenderData, y: int, x: int, ramp: Seq<char>)
    requires
        data.count(y, x) >= data.max_iterations,
    ensures
        glyph(ramp, data.count(y, x), data.max_iterations) == ' ',
        data.pixel(y, x) == Color::black(),
        pixel_bytes(data, y)(x) == seq![0u8, 0u8, 0u8],
{
}

fn glyph_cell(ramp: &'static str, levels: usize, iterations: usize, max_iterations: usize) -> (cell:
    &'static str)
    requires
        levels == ramp@.len(),
        levels >= 2,
    ensures
        cell@ == seq![glyph(ramp@, iterations, max_iterations)],
{
    if iterations >= max_iterations {
        proof {
            reveal_strlit(" ");
            assert(" "@ =~= seq![' ']);
        }
        " "
    } else {
        proof {
            lemma_bucket_below_last(levels as nat, iterations, max_iterations);
            assert(iterations * (levels - 1) <= 0xffff_ffff_ffff_ffff * 0xffff_ffff_ffff_ffff)
                by (nonlinear_arith)
                requires
                    0 <= iterations <= 0xffff_ffff_ffff_ffff,
                    0 <= levels - 1 <= 0xffff_ffff_ffff_ffff,
            ;
        }
        let bucket = (iterations as u128 * (levels - 1) as u128 / max_iterations as u128) as usize;
        let cell = ramp.substring_char(bucket, bucket + 1);
        assert(cell@ =~= seq![ramp@[bucket as int]]);
        cell
    }
}

fn render_glyphs(data: &RenderData, ramp: &'static str, levels: usize) -> (text: String)
    requires
        data.counts_rectangular(),
        levels == ramp@.len(),
        levels >= 2,
    ensures
        text@ == glyph_art(ramp@, *data),
{
    let h = data.height();
    let w = data.width();
    let mut text = String::new();
    let mut y: usize = 0;
    while y < h
        invariant
            y <= h,
            h == data.spec_height(),
            w == data.spec_width(),
            data.counts_rectangular(),
            levels == ramp@.len(),
            levels >= 2,
            text@ == concat(y as nat, glyph_lines(ramp@, *data)),
        decreases h - y,
    {
        let row = &data.iterations[y];
        let ghost done = text@;
        let mut x: usize = 0;
        while x < w
            invariant
                x <= w,
                y < h,
                h == data.spec_height(),
                w == row@.len(),
                row == data.iterations@[y as int],
                levels == ramp@.len(),
                levels >= 2,
                text@ == done + concat(x as nat, glyph_cells(ramp@, *data, y as int)),
            decreases w - x,
        {
            text.append(glyph_cell(ramp, levels, row[x], data.max_iterations));
            x += 1;
        }
        text.append("\n");
        proof {
            reveal_strlit("\n");
            assert(text@ =~= done + glyph_lines(ramp@, *data)(y as int));
        }
        y += 1;
    }
    text
}

fn push_cell(text: &mut String, truecolor: bool, color: Color)
    ensures
        final(text)@ == old(text)@ + color_cell(truecolor, color),
{
    if truecolor {
        text.append("\x1b[48;2;");
        push_decimal(text, color.r as usize);
        text.append(";");
        push_decimal(text, color.g as usize);
        text.append(";");
        push_decimal(text, color.b as usize);
        text.append("m \x1b[0m");
        assert(text@ =~= old(text)@ + truecolor_cell(color));
    } else {
        text.append("\x1b[48;5;");
        push_decimal(text, rgb_to_ansi256(color.r, color.g, color.b) as usize);
        text.append("m \x1b[0m");
        assert(text@ =~= old(text)@ + ansi256_cell(color));
    }
}

fn push_ppm_header(out: &mut Vec<u8>, width: usize, height: usize)
    ensures
        final(out)@ == old(out)@ + ascii_bytes(ppm_header(width as nat, height as nat)),
{
    let mut header = String::new();
    header.append("P6\n");
    push_decimal(&mut header, width);
    header.append(" ");
    push_decimal(&mut header, height);
    header.append("\n255\n");
    proof {
        assert(header@ =~= ppm_header(width as nat, height as nat));
        lemma_ppm_header_is_ascii(width as nat, height as nat);
    }
    push_ascii(out, header.as_str());
}

/// A render pass's settings: the palette, the terminal format, and whether
/// colors are smoothed. The palette and the smoothing flag say how the colors
/// of a grid are resolved; the format says how the grid is shown.
pub struct Renderer {
    color_scheme: ColorScheme,
    output_format: OutputFormat,
    use_smooth_coloring: bool,
}

impl Renderer {
    /// The palette of this renderer.
    pub closed spec fn spec_color_scheme(&self) -> ColorScheme {
        self.color_scheme
    }

    /// The format of this renderer.
    pub closed spec fn spec_output_format(&self) -> OutputFormat {
        self.output_format
    }

    /// Whether this renderer asks for smoothed colors.
    pub closed spec fn spec_smooth(&self) -> bool {
        self.use_smooth_coloring
    }

    /// A renderer with smooth coloring switched on.
    pub fn new(color_scheme: ColorScheme, output_format: OutputFormat) -> (renderer: Self)
        ensures
            renderer.spec_color_scheme() == color_scheme,
            renderer.spec_output_format() == output_format,
            renderer.spec_smooth(),
    {
        Self { color_scheme, output_format, use_smooth_coloring: true }
    }

    /// The same renderer with smooth coloring switched as `smooth` says.
    pub fn with_smooth_coloring(self, smooth: bool) -> (renderer: Self)
        ensures
            renderer.spec_color_scheme() == self.spec_color_scheme(),
            renderer.spec_output_format() == self.spec_output_format(),
            renderer.spec_smooth() == smooth,
    {
        let mut renderer = self;
        renderer.use_smooth_coloring = smooth;
        renderer
    }

    /// The palette by which the colors of a grid are to be resolved.
    pub fn color_scheme(&self) -> (scheme: &ColorScheme)
        ensures
            *scheme == self.spec_color_scheme(),
    {
        &self.color_scheme
    }

    /// The format in which a grid is shown.
    pub fn output_format(&self) -> (format: OutputFormat)
        ensures
            format == self.spec_output_format(),
    {
        self.output_format
    }

    /// Whether the colors of a grid are to be smoothed.
    pub fn use_smooth_coloring(&self) -> (smooth: bool)
        ensures
            smooth == self.spec_smooth(),
    {
        self.use_smooth_coloring
    }

    /// Whether `color` is a color of this renderer for a point of the given
    /// counts and magnitude: black where the point never escaped, and else
    /// what the palette gives, smoothed by `smooth` or plain by `discrete` as
    /// this renderer's flag says.
    pub open spec fn resolves<M, D: Fn(&ColorScheme, usize, usize) -> Color, S: Fn(
        &ColorScheme,
        usize,
        usize,
        &M,
    ) -> Color>(
        &self,
        iterations: usize,
        max_iterations: usize,
        z_norm: M,
        discrete: D,
        smooth: S,
        color: Color,
    ) -> bool {
        if iterations >= max_iterations {
            color == Color::black()
        } else if self.spec_smooth() {
            call_ensures(
                smooth,
                (&self.spec_color_scheme(), iterations, max_iterations, &z_norm),
                color,
            )
        } else {
            call_ensures(discrete, (&self.spec_color_scheme(), iterations, max_iterations), color)
        }
    }

    /// Whether the palette that this renderer would ask for the color of a
    /// point can be asked: `smooth` where this renderer smooths, `discrete`
    /// where it does not, and neither for a point that never escaped.
    pub open spec fn can_resolve<M, D: Fn(&ColorScheme, usize, usize) -> Color, S: Fn(
        &ColorScheme,
        usize,
        usize,
        &M,
    ) -> Color>(
        &self,
        iterations: usize,
        max_iterations: usize,
        z_norm: M,
        discrete: D,
        smooth: S,
    ) -> bool {
        if iterations >= max_iterations {
            true
        } else if self.spec_smooth() {
            call_requires(smooth, (&self.spec_color_scheme(), iterations, max_iterations, &z_norm))
        } else {
            call_requires(discrete, (&self.spec_color_scheme(), iterations, max_iterations))
        }
    }

    /// The color of each pixel of a grid of counts and magnitudes, in the
    /// shape of the counts. A point that never escaped is black, and the
    /// palette is not asked. An escaped point has the color that `smooth`
    /// gives where this renderer smooths, and that `discrete` gives where it
    /// does not.
    pub fn resolve_colors<M, D: Fn(&ColorScheme, usize, usize) -> Color, S: Fn(
        &ColorScheme,
        usize,
        usize,
        &M,
    ) -> Color>(
        &self,
        iterations: &Vec<Vec<usize>>,
        z_norms: &Vec<Vec<M>>,
        max_iterations: usize,
        discrete: D,
        smooth: S,
    ) -> (colors: Vec<Vec<Color>>)
        requires
            z_norms@.len() == iterations@.len(),
            forall|y: int|
                0 <= y < iterations@.len() ==> (#[trigger] z_norms@[y])@.len()
                    == iterations@[y]@.len(),
            forall|y: int, x: int|
                0 <= y < iterations@.len() && 0 <= x < iterations@[y]@.len() ==> self.can_resolve(
                    #[trigger] iterations@[y]@[x],
                    max_iterations,
                    z_norms@[y]@[x],
                    discrete,
                    smooth,
                ),
        ensures
            colors@.len() == iterations@.len(),
            forall|y: int|
                0 <= y < iterations@.len() ==> (#[trigger] colors@[y])@.len()
                    == iterations@[y]@.len(),
            forall|y: int, x: int|
                0 <= y < iterations@.len() && 0 <= x < iterations@[y]@.len() ==> self.resolves(
                    iterations@[y]@[x],
                    max_iterations,
                    z_norms@[y]@[x],
                    discrete,
                    smooth,
                    #[trigger] colors@[y]@[x],
                ),
    {
        let mut colors: Vec<Vec<Color>> = Vec::new();
        let mut y: usize = 0;
        while y < iterations.len()
            invariant
                y <= iterations@.len(),
                z_norms@.len() == iterations@.len(),
                forall|r: int|
                    0 <= r < iterations@.len() ==> (#[trigger] z_norms@[r])@.len()
                        == iterations@[r]@.len(),
                forall|r: int, c: int|
                    0 <= r < iterations@.len() && 0 <= c < iterations@[r]@.len()
                        ==> self.can_resolve(
                        #[trigger] iterations@[r]@[c],
                        max_iterations,
                        z_norms@[r]@[c],
                        discrete,
                        smooth,
                    ),
                colors@.len() == y,
                forall|r: int| 0 <= r < y ==> (#[trigger] colors@[r])@.len() == iterations@[r]@.len(),
                forall|r: int, c: int|
                    0 <= r < y && 0 <= c < iterations@[r]@.len() ==> self.resolves(
                        iterations@[r]@[c],
                        max_iterations,
                        z_norms@[r]@[c],
                        discrete,
                        smooth,
                        #[trigger] colors@[r]@[c],
                    ),
            decreases iterations@.len() - y,
        {
            let counts = &iterations[y];
            let norms = &z_norms[y];
            let mut row: Vec<Color> = Vec::new();
            let mut x: usize = 0;
            while x < counts.len()
                invariant
                    x <= counts@.len(),
                    norms@.len() == counts@.len(),
                    forall|c: int|
                        0 <= c < counts@.len() ==> self.can_resolve(
                            #[trigger] counts@[c],
                            max_iterations,
                            norms@[c],
                            discrete,
                            smooth,
                        ),
                    row@.len() == x,
                    forall|c: int|
                        0 <= c < x ==> self.resolves(
                            counts@[c],
                            max_iterations,
                            norms@[c],
                            discrete,
                            smooth,
                            #[trigger] row@[c],
                        ),
                decreases counts@.len() - x,
            {
                let count = counts[x];
                let color = match self.color_scheme.in_set_color(count, max_iterations) {
                    Some(black) => black,
                    None => if self.use_smooth_coloring {
                        smooth(&self.color_scheme, count, max_iterations, &norms[x])
                    } else {
                        discrete(&self.color_scheme, count, max_iterations)
                    },
                };
                row.push(color);
                x += 1;
            }
            colors.push(row);
            y += 1;
        }
        colors
    }

    /// What `render_to_terminal` asks of a grid: the glyph formats read the
    /// counts alone, the color formats the colors too.
    pub open spec fn can_render(&self, data: RenderData) -> bool {
        match self.spec_output_format() {
            OutputFormat::Ascii | OutputFormat::AsciiExtended => data.counts_rectangular(),
            OutputFormat::Ansi256 | OutputFormat::AnsiTrueColor => data.well_formed(),
        }
    }

    /// The color in which the pixel in row `y` and column `x` is shown.
    pub fn pixel(&self, data: &RenderData, y: usize, x: usize) -> (color: Color)
        requires
            data.well_formed(),
            y < data.spec_height(),
            x < data.spec_width(),
        ensures
            color == data.pixel(y as int, x as int),
    {
        match self.color_scheme.in_set_color(data.iterations[y][x], data.max_iterations) {
            Some(black) => black,
            None => data.colors[y][x],
        }
    }

    fn render_colors(&self, data: &RenderData, truecolor: bool) -> (text: String)
        requires
            data.well_formed(),
        ensures
            text@ == color_art(truecolor, *data),
    {
        let h = data.height();
        let w = data.width();
        let mut text = String::new();
        let mut y: usize = 0;
        while y < h
            invariant
                y <= h,
                h == data.spec_height(),
                w == data.spec_width(),
                data.well_formed(),
                text@ == concat(y as nat, color_lines(truecolor, *data)),
            decreases h - y,
        {
            let ghost done = text@;
            let mut x: usize = 0;
            while x < w
                invariant
                    x <= w,
                    y < h,
                    h == data.spec_height(),
                    w == data.spec_width(),
                    data.well_formed(),
                    text@ == done + concat(x as nat, color_cells(truecolor, *data, y as int)),
                decreases w - x,
            {
                let color = self.pixel(data, y, x);
                push_cell(&mut text, truecolor, color);
                x += 1;
            }
            text.append("\n");
            proof {
                reveal_strlit("\n");
                assert(text@ =~= done + color_lines(truecolor, *data)(y as int));
            }
            y += 1;
        }
        text
    }

    fn render_ascii(&self, data: &RenderData) -> (text: String)
        requires
            data.counts_rectangular(),
        ensures
            text@ == glyph_art(ascii_ramp(), *data),
    {
        proof {
            reveal_strlit(" .:-=+*#%@");
        }
        render_glyphs(data, " .:-=+*#%@", 10)
    }

    fn render_ascii_extended(&self, data: &RenderData) -> (text: String)
        requires
            data.counts_rectangular(),
        ensures
            text@ == glyph_art(extended_ramp(), *data),
    {
        proof {
            reveal_strlit(" ·∙•○◦⋅⋆∗⊕⊗⊛⊚◉●◐◑◒◓█");
        }
        render_glyphs(data, " ·∙•○◦⋅⋆∗⊕⊗⊛⊚◉●◐◑◒◓█", 20)
    }

    fn render_ansi_256(&self, data: &RenderData) -> (text: String)
        requires
            data.well_formed(),
        ensures
            text@ == color_art(false, *data),
    {
        self.render_colors(data, false)
    }

    fn render_ansi_truecolor(&self, data: &RenderData) -> (text: String)
        requires
            data.well_formed(),
        ensures
            text@ == color_art(true, *data),
    {
        self.render_colors(data, true)
    }

    /// The text that shows `data` on a terminal in this renderer's format.
    pub fn render_to_terminal(&self, data: &RenderData) -> (text: String)
        requires
            self.can_render(*data),
        ensures
            text@ == terminal_text(self.spec_output_format(), *data),
    {
        match self.output_format {
            OutputFormat::Ascii => self.render_ascii(data),
            OutputFormat::AsciiExtended => self.render_ascii_extended(data),
            OutputFormat::Ansi256 => self.render_ansi_256(data),
            OutputFormat::AnsiTrueColor => self.render_ansi_truecolor(data),
        }
    }

    /// Appends the binary PPM image of `data` to `out`: the header, then
    /// three bytes for each pixel.
    pub fn save_as_ppm(&self, data: &RenderData, out: &mut Vec<u8>)
        requires
            data.well_formed(),
        ensures
            final(out)@ == old(out)@ + ppm_image(*data),
            ppm_image(*data).len() == ppm_header(data.spec_width(), data.spec_height()).len() + 3
                * data.spec_width() * data.spec_height(),
    {
        let h = data.height();
        let w = data.width();
        push_ppm_header(out, w, h);
        let ghost start = out@;
        let mut y: usize = 0;
        while y < h
            invariant
                y <= h,
                h == data.spec_height(),
                w == data.spec_width(),
                data.well_formed(),
                out@ == start + concat(y as nat, row_bytes(*data)),
            decreases h - y,
        {
            let ghost done = out@;
            let mut x: usize = 0;
            while x < w
                invariant
                    x <= w,
                    y < h,
                    h == data.spec_height(),
                    w == data.spec_width(),
                    data.well_formed(),
                    out@ == done + concat(x as nat, pixel_bytes(*data, y as int)),
                decreases w - x,
            {
                let color = self.pixel(data, y, x);
                out.push(color.r);
                out.push(color.g);
                out.push(color.b);
                x += 1;
                assert(out@ =~= done + concat(x as nat, pixel_bytes(*data, y as int)));
            }
            y += 1;
            assert(out@ =~= start + concat(y as nat, row_bytes(*data)));
        }
        proof {
            lemma_ppm_body_len(*data);
            assert(out@ =~= old(out)@ + ppm_image(*data));
        }
    }
}

} // verus!
