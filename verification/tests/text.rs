use tilings::text::{calc_max_digits, fmt_scaled, str_digits, wrap_f64};

fn fmt_float_f64(f: f64, decimal_precision: u32) -> String {
    let pow = 10_i32.pow(decimal_precision);
    fmt_scaled((f * pow as f64).round() as i32, decimal_precision)
}

fn fmt_float_f32(f: f32, decimal_precision: u32) -> String {
    let pow = 10_i32.pow(decimal_precision);
    fmt_scaled((f * pow as f32).round() as i32, decimal_precision)
}

#[test]
fn test_fmt_float() {
    let float = std::f32::consts::PI;

    assert_eq!("3.", fmt_float_f32(float, 0));
    assert_eq!("3.1", fmt_float_f32(float, 1));
    assert_eq!("3.14", fmt_float_f32(float, 2));
    assert_eq!("3.142", fmt_float_f32(float, 3));
    assert_eq!("3.1416", fmt_float_f32(float, 4));

    let float = std::f64::consts::PI;

    assert_eq!("3.", fmt_float_f64(float, 0));
    assert_eq!("3.1", fmt_float_f64(float, 1));
    assert_eq!("3.14", fmt_float_f64(float, 2));
    assert_eq!("3.142", fmt_float_f64(float, 3));
    assert_eq!("3.1416", fmt_float_f64(float, 4));

    let float = 1.0_f32;

    assert_eq!("1.", fmt_float_f32(float, 0));
    assert_eq!("1.0", fmt_float_f32(float, 1));
    assert_eq!("1.00", fmt_float_f32(float, 2));
    assert_eq!("1.000", fmt_float_f32(float, 3));
    assert_eq!("1.0000", fmt_float_f32(float, 4));

    let float = 1.0_f64;

    assert_eq!("1.", fmt_float_f64(float, 0));
    assert_eq!("1.0", fmt_float_f64(float, 1));
    assert_eq!("1.00", fmt_float_f64(float, 2));
    assert_eq!("1.000", fmt_float_f64(float, 3));
    assert_eq!("1.0000", fmt_float_f64(float, 4));
}

#[test]
fn fmt_scaled_exact_values() {
    assert_eq!("3.1416", fmt_scaled(31416, 4));
    assert_eq!("1.0", fmt_scaled(10, 1));
    assert_eq!("-3.1", fmt_scaled(-31, 1));
    assert_eq!("3.", fmt_scaled(3, 0));
    assert_eq!("-3.", fmt_scaled(-3, 0));
    assert_eq!("0.5", fmt_scaled(5, 1));
    assert_eq!("-0.5", fmt_scaled(-5, 1));
    assert_eq!("0.0", fmt_scaled(0, 1));
}

#[test]
fn fmt_scaled_fills_fraction_zeros_on_the_right() {
    // the remainder's digits come first, then zeros up to the precision
    assert_eq!("1.50", fmt_scaled(105, 2));
    assert_eq!("0.50", fmt_scaled(5, 2));
    assert_eq!("-0.50", fmt_scaled(-5, 2));
    assert_eq!("0.500", fmt_scaled(500, 3));
    assert_eq!("1.10", fmt_scaled(101, 2));
    assert_eq!("2.12", fmt_scaled(212, 2));
}

#[test]
fn fmt_float_of_small_fractions() {
    assert_eq!("1.50", fmt_float_f64(1.05, 2));
    assert_eq!("0.500", fmt_float_f64(0.5, 3));
    assert_eq!("-0.50", fmt_float_f64(-0.05, 2));
}

#[test]
fn str_digits_counts_parts() {
    assert_eq!((1, 5), str_digits("3.1416"));
    assert_eq!((2, 2), str_digits("-3.1"));
    assert_eq!((1, 1), str_digits("3."));
    assert_eq!((3, 0), str_digits("123"));
    assert_eq!((0, 0), str_digits(""));
    assert_eq!((1, 2), str_digits("1.2.3"));
}

#[test]
fn calc_max_digits_is_componentwise() {
    assert_eq!((0, 0), calc_max_digits(&[]));
    assert_eq!((3, 5), calc_max_digits(&["3.1416", "-10.1", "2."]));
}

#[test]
fn wrap_f64_pads_both_sides() {
    assert_eq!("  3.1    ", wrap_f64("3.1", (3, 6)));
    assert_eq!("3.1416", wrap_f64("3.1416", (1, 5)));
}

#[test]
fn wrapped_numbers_line_up() {
    let vals = ["3.1416", "-10.1", "2."];
    let max = calc_max_digits(&vals);
    for v in vals.iter() {
        let w = wrap_f64(v, max);
        assert_eq!(max, str_digits(&w));
        assert_eq!(w.len(), (max.0 + max.1) as usize);
    }
}
