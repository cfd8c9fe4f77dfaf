use mandelbrot::renderer::OutputFormat;
use mandelbrot::terminal::{
    default_region, detect_terminal_capabilities, get_preset_coords, preset_from_lowercase,
    FormatChoice,
};

#[test]
fn colorterm_selects_truecolor() {
    assert_eq!(
        detect_terminal_capabilities(Some("truecolor"), None),
        OutputFormat::AnsiTrueColor
    );
    assert_eq!(
        detect_terminal_capabilities(Some("24bit"), Some("dumb")),
        OutputFormat::AnsiTrueColor
    );
    assert_eq!(
        detect_terminal_capabilities(Some("truecolor"), Some("xterm-256color")),
        OutputFormat::AnsiTrueColor
    );
}

#[test]
fn colorterm_is_compared_whole_and_as_it_stands() {
    for value in ["TRUECOLOR", "truecolor ", "24bits", "yes", ""] {
        assert_eq!(detect_terminal_capabilities(Some(value), None), OutputFormat::Ascii);
    }
}

#[test]
fn term_with_the_256_color_marker_selects_ansi256() {
    for value in ["xterm-256color", "256color", "screen.256color-bce", "256color256color"] {
        assert_eq!(detect_terminal_capabilities(None, Some(value)), OutputFormat::Ansi256);
        assert_eq!(
            detect_terminal_capabilities(Some("no"), Some(value)),
            OutputFormat::Ansi256
        );
    }
}

#[test]
fn other_terminals_get_plain_glyphs() {
    assert_eq!(detect_terminal_capabilities(None, None), OutputFormat::Ascii);
    for value in ["", "xterm", "256colo", "xterm-256-color", "256COLOR", "25 6color"] {
        assert_eq!(detect_terminal_capabilities(None, Some(value)), OutputFormat::Ascii);
    }
}

#[test]
fn formats_are_found_by_name() {
    assert_eq!(FormatChoice::from_str("auto"), Some(FormatChoice::Auto));
    assert_eq!(
        FormatChoice::from_str("ascii"),
        Some(FormatChoice::Fixed(OutputFormat::Ascii))
    );
    assert_eq!(
        FormatChoice::from_str("extended"),
        Some(FormatChoice::Fixed(OutputFormat::AsciiExtended))
    );
    assert_eq!(
        FormatChoice::from_str("ansi256"),
        Some(FormatChoice::Fixed(OutputFormat::Ansi256))
    );
    assert_eq!(
        FormatChoice::from_str("truecolor"),
        Some(FormatChoice::Fixed(OutputFormat::AnsiTrueColor))
    );
}

#[test]
fn format_names_ignore_case() {
    assert_eq!(FormatChoice::from_str("AUTO"), Some(FormatChoice::Auto));
    assert_eq!(
        FormatChoice::from_str("TrueColor"),
        Some(FormatChoice::Fixed(OutputFormat::AnsiTrueColor))
    );
    assert_eq!(FormatChoice::from_lowercase("AUTO"), None);
    assert_eq!(FormatChoice::from_lowercase("auto"), Some(FormatChoice::Auto));
}

#[test]
fn unknown_format_names_are_declined() {
    for name in ["", "ppm", "ansi", "ansi-256", "24bit", "asciiextended"] {
        assert_eq!(FormatChoice::from_str(name), None);
    }
}

#[test]
fn a_fixed_choice_ignores_the_terminal() {
    let choice = FormatChoice::Fixed(OutputFormat::AsciiExtended);
    assert_eq!(
        choice.resolve(Some("truecolor"), Some("xterm-256color")),
        OutputFormat::AsciiExtended
    );
    assert_eq!(choice.resolve(None, None), OutputFormat::AsciiExtended);
}

#[test]
fn the_auto_choice_asks_the_terminal() {
    let choice = FormatChoice::Auto;
    assert_eq!(choice.resolve(Some("truecolor"), None), OutputFormat::AnsiTrueColor);
    assert_eq!(choice.resolve(None, Some("xterm-256color")), OutputFormat::Ansi256);
    assert_eq!(choice.resolve(None, Some("vt100")), OutputFormat::Ascii);
}

#[test]
fn presets_are_found_by_name() {
    assert_eq!(get_preset_coords("default"), Some((-20000, 10000, -10000, 10000)));
    assert_eq!(get_preset_coords("seahorse"), Some((-7500, -7350, 950, 1100)));
    assert_eq!(get_preset_coords("spiral"), Some((-7269, -7266, 1889, 1892)));
    assert_eq!(get_preset_coords("elephant"), Some((2750, 2850, 50, 150)));
    assert_eq!(get_preset_coords("julia"), Some((-15000, 15000, -15000, 15000)));
}

#[test]
fn the_default_region_is_the_default_preset() {
    assert_eq!(Some(default_region()), get_preset_coords("default"));
    let (x_min, x_max, y_min, y_max) = default_region();
    assert_eq!(x_min as f64 / 10000.0, -2.0);
    assert_eq!(x_max as f64 / 10000.0, 1.0);
    assert_eq!(y_min as f64 / 10000.0, -1.0);
    assert_eq!(y_max as f64 / 10000.0, 1.0);
}

#[test]
fn preset_names_ignore_case() {
    assert_eq!(get_preset_coords("SeaHorse"), Some((-7500, -7350, 950, 1100)));
    assert_eq!(preset_from_lowercase("SeaHorse"), None);
    assert_eq!(preset_from_lowercase("julia"), Some((-15000, 15000, -15000, 15000)));
}

#[test]
fn unknown_presets_are_declined() {
    for name in ["", "mandelbrot", "sea horse", "defaults"] {
        assert_eq!(get_preset_coords(name), None);
    }
}

#[test]
fn preset_bounds_are_exact_decimals() {
    let (x_min, x_max, y_min, y_max) = get_preset_coords("spiral").unwrap();
    assert_eq!(x_min as f64 / 10000.0, -0.7269);
    assert_eq!(x_max as f64 / 10000.0, -0.7266);
    assert_eq!(y_min as f64 / 10000.0, 0.1889);
    assert_eq!(y_max as f64 / 10000.0, 0.1892);
    let (x_min, x_max, y_min, y_max) = get_preset_coords("seahorse").unwrap();
    assert_eq!(x_min as f64 / 10000.0, -0.75);
    assert_eq!(x_max as f64 / 10000.0, -0.735);
    assert_eq!(y_min as f64 / 10000.0, 0.095);
    assert_eq!(y_max as f64 / 10000.0, 0.11);
}
