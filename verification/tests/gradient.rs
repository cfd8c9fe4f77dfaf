use mandelbrot::colorscheme::{Color, ColorScheme};
use mandelbrot::gradient::{Gradient, Shade};

const RED: Color = Color { r: 255, g: 0, b: 0 };
const GREEN: Color = Color { r: 0, g: 255, b: 0 };
const BLUE: Color = Color { r: 0, g: 0, b: 255 };
const WHITE: Color = Color { r: 255, g: 255, b: 255 };
const BLACK: Color = Color { r: 0, g: 0, b: 0 };

fn at(position: f64, color: Color) -> (u64, Color) {
    (position.to_bits(), color)
}

fn shade(gradient: &Gradient, t: f64) -> Shade {
    gradient.get_color(t.to_bits())
}

fn rainbow() -> Gradient {
    Gradient::new(vec![at(0.75, BLUE), at(0.25, RED), at(0.5, GREEN)])
}

#[test]
fn gradient_orders_its_stops() {
    assert_eq!(
        rainbow().stops(),
        &vec![at(0.25, RED), at(0.5, GREEN), at(0.75, BLUE)]
    );
}

#[test]
fn gradient_orders_negative_positions_below_positive_ones() {
    let gradient = Gradient::new(vec![
        at(0.5, BLUE),
        at(-0.5, RED),
        at(f64::INFINITY, WHITE),
        at(-2.0, GREEN),
        at(f64::NEG_INFINITY, BLACK),
    ]);
    assert_eq!(
        gradient.stops(),
        &vec![
            at(f64::NEG_INFINITY, BLACK),
            at(-2.0, GREEN),
            at(-0.5, RED),
            at(0.5, BLUE),
            at(f64::INFINITY, WHITE),
        ]
    );
}

#[test]
fn gradient_keeps_the_order_of_equal_positions() {
    let gradient = Gradient::new(vec![
        at(0.5, BLUE),
        at(0.1, RED),
        at(0.5, GREEN),
        at(0.1, WHITE),
        at(0.5, BLACK),
    ]);
    assert_eq!(
        gradient.stops(),
        &vec![at(0.1, RED), at(0.1, WHITE), at(0.5, BLUE), at(0.5, GREEN), at(0.5, BLACK)]
    );
}

#[test]
fn gradient_takes_the_two_zeros_for_one_position() {
    let gradient =
        Gradient::new(vec![at(0.5, BLUE), at(0.0, RED), at(-0.0, GREEN), at(0.0, WHITE)]);
    assert_eq!(
        gradient.stops(),
        &vec![at(0.0, RED), at(-0.0, GREEN), at(0.0, WHITE), at(0.5, BLUE)]
    );
}

#[test]
fn gradient_of_sorted_stops_is_unchanged() {
    let stops = vec![at(0.0, RED), at(0.3, GREEN), at(1.0, BLUE)];
    assert_eq!(Gradient::new(stops.clone()).stops(), &stops);
    assert_eq!(Gradient::new(Vec::new()).stops(), &Vec::new());
}

#[test]
fn gradient_orders_as_a_stable_sort_does() {
    let positions = [0.9, 0.1, 0.5, 0.1, 1.0, 0.0, 0.5, 0.25, 0.9, 0.1, -0.0, 0.75];
    let stops: Vec<(f64, Color)> = positions
        .iter()
        .enumerate()
        .map(|(i, &position)| (position, Color::new(i as u8, 0, 0)))
        .collect();
    let mut expected = stops.clone();
    expected.sort_by(|a, b| a.0.partial_cmp(&b.0).unwrap());
    let gradient = Gradient::new(stops.iter().map(|&(p, c)| at(p, c)).collect());
    let expected: Vec<(u64, Color)> = expected.iter().map(|&(p, c)| at(p, c)).collect();
    assert_eq!(gradient.stops(), &expected);
}

#[test]
fn gradient_clone_has_the_same_stops() {
    let gradient = rainbow();
    assert_eq!(gradient.clone().stops(), gradient.stops());
}

#[test]
fn empty_gradient_is_black() {
    let gradient = Gradient::new(Vec::new());
    assert_eq!(shade(&gradient, 0.0), Shade::Solid(BLACK));
    assert_eq!(shade(&gradient, 1.0), Shade::Solid(BLACK));
    assert_eq!(shade(&gradient, f64::NAN), Shade::Solid(BLACK));
}

#[test]
fn gradient_shows_its_first_stop_at_zero_and_its_last_at_one() {
    let gradient = Gradient::new(vec![at(1.0, BLUE), at(0.0, RED), at(0.4, GREEN)]);
    assert_eq!(shade(&gradient, 0.0), Shade::Solid(RED));
    assert_eq!(shade(&gradient, 1.0), Shade::Solid(BLUE));
    assert_eq!(shade(&rainbow(), 0.0), Shade::Solid(RED));
    assert_eq!(shade(&rainbow(), 1.0), Shade::Solid(BLUE));
}

#[test]
fn gradient_is_flat_outside_its_stops() {
    let gradient = rainbow();
    assert_eq!(shade(&gradient, 0.1), Shade::Solid(RED));
    assert_eq!(shade(&gradient, 0.25), Shade::Solid(RED));
    assert_eq!(shade(&gradient, 0.75), Shade::Solid(BLUE));
    assert_eq!(shade(&gradient, 0.9), Shade::Solid(BLUE));
}

#[test]
fn gradient_holds_positions_to_the_unit_range() {
    let gradient = Gradient::new(vec![at(-1.0, RED), at(0.5, GREEN), at(2.0, BLUE)]);
    let low = Shade::Blend { from: at(-1.0, RED), to: at(0.5, GREEN) };
    let high = Shade::Blend { from: at(0.5, GREEN), to: at(2.0, BLUE) };
    assert_eq!(shade(&gradient, 0.0), low);
    assert_eq!(shade(&gradient, 1.0), high);
    for t in [-0.0, -0.5, -1.0, -3.0, f64::NEG_INFINITY, -f64::MIN_POSITIVE] {
        assert_eq!(shade(&gradient, t), low);
    }
    for t in [1.5, 2.0, 3.0, f64::INFINITY, f64::MAX] {
        assert_eq!(shade(&gradient, t), high);
    }
}

#[test]
fn gradient_blends_the_two_neighbours() {
    let gradient = rainbow();
    let low = Shade::Blend { from: at(0.25, RED), to: at(0.5, GREEN) };
    let high = Shade::Blend { from: at(0.5, GREEN), to: at(0.75, BLUE) };
    assert_eq!(shade(&gradient, 0.26), low);
    assert_eq!(shade(&gradient, 0.5), low);
    assert_eq!(shade(&gradient, 0.5000001), high);
    assert_eq!(shade(&gradient, 0.74), high);
}

#[test]
fn gradient_of_one_stop_is_that_stop() {
    let gradient = Gradient::new(vec![at(0.5, RED)]);
    for t in [0.0, 0.5, 0.7, 1.0, f64::NAN] {
        assert_eq!(shade(&gradient, t), Shade::Solid(RED));
    }
}

#[test]
fn gradient_at_no_number_shows_its_first_stop() {
    assert_eq!(shade(&rainbow(), f64::NAN), Shade::Solid(RED));
    assert_eq!(shade(&rainbow(), -f64::NAN), Shade::Solid(RED));
    assert_eq!(
        rainbow().get_color(0x7ff0_0000_0000_0001),
        Shade::Solid(RED)
    );
}

#[test]
fn coincident_stops_are_never_blended_with_each_other() {
    let gradient = Gradient::new(vec![at(0.0, RED), at(0.5, GREEN), at(0.5, BLUE), at(1.0, WHITE)]);
    assert_eq!(
        shade(&gradient, 0.5),
        Shade::Blend { from: at(0.0, RED), to: at(0.5, GREEN) }
    );
    assert_eq!(
        shade(&gradient, 0.6),
        Shade::Blend { from: at(0.5, BLUE), to: at(1.0, WHITE) }
    );
    for step in 0..=100 {
        let t = step as f64 / 100.0;
        if let Shade::Blend { from, to } = shade(&gradient, t) {
            let (low, high) = (f64::from_bits(from.0), f64::from_bits(to.0));
            assert!(low < t && t <= high);
        }
    }
}

#[test]
fn stops_that_all_coincide_show_the_first() {
    let gradient = Gradient::new(vec![at(1.0, RED), at(1.0, GREEN)]);
    assert_eq!(shade(&gradient, 0.5), Shade::Solid(RED));
    assert_eq!(shade(&gradient, 1.0), Shade::Solid(RED));
    let gradient = Gradient::new(vec![at(0.5, RED), at(0.5, GREEN)]);
    assert_eq!(shade(&gradient, 0.4), Shade::Solid(RED));
    assert_eq!(shade(&gradient, 0.5), Shade::Solid(RED));
    assert_eq!(shade(&gradient, 0.6), Shade::Solid(GREEN));
}

#[test]
fn classic_positions_bracket_every_progress() {
    let stops: Vec<(u64, Color)> = ColorScheme::Classic
        .table()
        .unwrap()
        .iter()
        .map(|&(position, color)| at(position as f64 / 10000.0, color))
        .collect();
    let gradient = Gradient::new(stops.clone());
    assert_eq!(gradient.stops(), &stops);
    assert_eq!(shade(&gradient, 0.0), Shade::Solid(Color::new(0, 7, 100)));
    assert_eq!(shade(&gradient, 1.0), Shade::Solid(Color::new(0, 7, 100)));
    assert_eq!(shade(&gradient, 0.16), Shade::Blend { from: stops[0], to: stops[1] });
    assert_eq!(shade(&gradient, 0.29), Shade::Blend { from: stops[1], to: stops[2] });
    assert_eq!(shade(&gradient, 0.5), Shade::Blend { from: stops[2], to: stops[3] });
    assert_eq!(shade(&gradient, 0.7), Shade::Blend { from: stops[3], to: stops[4] });
    assert_eq!(shade(&gradient, 0.999), Shade::Blend { from: stops[4], to: stops[5] });
}
