use mandelbrot::text::{chars_of, push_decimal, str_contains, str_eq};

fn numeral(n: usize) -> String {
    let mut text = String::new();
    push_decimal(&mut text, n);
    text
}

#[test]
fn equal_texts_are_equal() {
    assert!(str_eq("", ""));
    assert!(str_eq("classic", "classic"));
    assert!(str_eq("◐◑", "◐◑"));
}

#[test]
fn different_texts_are_not_equal() {
    assert!(!str_eq("classic", "classiC"));
    assert!(!str_eq("classic", "classi"));
    assert!(!str_eq("", " "));
    assert!(!str_eq("◐◑", "◐◒"));
}

#[test]
fn decimal_numerals_have_no_leading_zero() {
    assert_eq!(numeral(0), "0");
    assert_eq!(numeral(7), "7");
    assert_eq!(numeral(10), "10");
    assert_eq!(numeral(255), "255");
    assert_eq!(numeral(1000), "1000");
    assert_eq!(numeral(1234567890), "1234567890");
    assert_eq!(numeral(usize::MAX), usize::MAX.to_string());
}

#[test]
fn decimal_numeral_is_appended() {
    let mut text = String::from("n=");
    push_decimal(&mut text, 42);
    push_decimal(&mut text, 0);
    assert_eq!(text, "n=420");
}

#[test]
fn chars_of_lists_the_characters() {
    assert_eq!(chars_of(""), Vec::<char>::new());
    assert_eq!(chars_of("a·█"), vec!['a', '·', '█']);
}

#[test]
fn a_text_contains_its_parts() {
    assert!(str_contains("xterm-256color", "256color"));
    assert!(str_contains("xterm-256color", "xterm"));
    assert!(str_contains("xterm-256color", "-"));
    assert!(str_contains("xterm-256color", "xterm-256color"));
    assert!(str_contains("22256color", "256color"));
    assert!(str_contains("◐◑◒", "◑◒"));
}

#[test]
fn every_text_contains_the_empty_text() {
    assert!(str_contains("", ""));
    assert!(str_contains("abc", ""));
}

#[test]
fn a_text_does_not_contain_what_is_not_in_it() {
    assert!(!str_contains("", "a"));
    assert!(!str_contains("xterm", "xterm-256color"));
    assert!(!str_contains("256colo", "256color"));
    assert!(!str_contains("256 color", "256color"));
    assert!(!str_contains("◐◑◒", "◒◑"));
}
