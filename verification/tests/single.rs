use page_widgets::single::{round_nearest_even, round_single, Single};

fn value(x: Single) -> f32 {
    // Both numbers are exact in single precision, and so is their quotient.
    x.mant as f32 / x.unit as f32
}

#[test]
fn halves_go_to_the_even_neighbor() {
    assert_eq!(round_nearest_even(0, 2), 0);
    assert_eq!(round_nearest_even(1, 2), 0);
    assert_eq!(round_nearest_even(3, 2), 2);
    assert_eq!(round_nearest_even(5, 2), 2);
    assert_eq!(round_nearest_even(7, 2), 4);
    assert_eq!(round_nearest_even(25, 10), 2);
    assert_eq!(round_nearest_even(35, 10), 4);
}

#[test]
fn other_quotients_go_to_the_nearest() {
    assert_eq!(round_nearest_even(7, 7), 1);
    assert_eq!(round_nearest_even(10, 4), 2);
    assert_eq!(round_nearest_even(11, 4), 3);
    assert_eq!(round_nearest_even(9, 4), 2);
    assert_eq!(round_nearest_even(24, 10), 2);
    assert_eq!(round_nearest_even(26, 10), 3);
    assert_eq!(round_nearest_even(1, 3), 0);
    assert_eq!(round_nearest_even(2, 3), 1);
}

#[test]
fn zero_stays_zero() {
    let x = round_single(0, 200);
    assert_eq!((x.mant, x.unit), (0, 1));
    assert_eq!(x.floor(), 0);
    assert_eq!(x.round(), 0);
}

#[test]
fn one_has_the_least_mantissa() {
    let x = round_single(200, 200);
    assert_eq!((x.mant, x.unit), (0x80_0000, 0x80_0000));
    assert_eq!(x.floor(), 1);
    assert_eq!(x.fract().mant, 0);
}

#[test]
fn a_fortieth_is_rounded_upwards() {
    // 5 / 200 = 0.025 lies between two single-precision numbers.
    let x = round_single(5, 200);
    assert_eq!(x.unit, 1 << 29);
    assert_eq!(x.mant, 13421773);
    assert_eq!(value(x).to_bits(), 0.025_f32.to_bits());
}

#[test]
fn quotients_agree_with_floating_point() {
    let numbers: Vec<u64> = (0..300)
        .chain([1000, 4095, 4096, 65535, 65536, 1_000_000, 0x7f_ffff, 0x80_0000, 0xff_ffff])
        .collect();
    for &d in numbers.iter().filter(|&&d| d > 0) {
        for &n in numbers.iter() {
            let x = round_single(n, d);
            let expected = n as f32 / d as f32;
            assert_eq!(value(x).to_bits(), expected.to_bits(), "{} / {}", n, d);
        }
    }
}

#[test]
fn mantissas_have_24_digits() {
    for d in 1..200u64 {
        for n in 1..200u64 {
            let x = round_single(n, d);
            assert!(0x80_0000 <= x.mant && x.mant <= 0x100_0000);
            assert!(x.unit.is_power_of_two());
        }
    }
}

#[test]
fn integer_and_fraction_make_up_the_number() {
    let x = round_single(255, 200);
    assert_eq!(x.floor(), 1);
    let rest = x.fract();
    assert_eq!(rest.unit, x.unit);
    assert_eq!(rest.mant + x.unit, x.mant);
    assert_eq!(value(rest).to_bits(), (value(x) - 1.0).to_bits());
}

#[test]
fn products_agree_with_floating_point() {
    for n in 0..200u64 {
        let x = round_single(n, 200).fract();
        for f in [1u64, 2, 3, 7, 10, 60, 255, 1000] {
            let expected = value(x) * f as f32;
            assert_eq!(value(x.times(f)).to_bits(), expected.to_bits(), "{} / 200 * {}", n, f);
        }
    }
}

#[test]
fn rounding_to_an_integer_agrees_with_floating_point() {
    for d in 1..50u64 {
        for n in 0..500u64 {
            let x = round_single(n, d);
            assert_eq!(x.round(), value(x).round() as u64, "{} / {}", n, d);
            assert_eq!(x.floor(), value(x).floor() as u64, "{} / {}", n, d);
        }
    }
}

#[test]
fn a_half_is_rounded_upwards() {
    assert_eq!(round_single(1, 2).round(), 1);
    assert_eq!(round_single(3, 2).round(), 2);
    assert_eq!(round_single(5, 2).round(), 3);
    assert_eq!(round_single(49, 100).round(), 0);
}
