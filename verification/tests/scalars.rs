//! The fixed-point scalar, the activation catalog, and the numeric text
//! helpers.

use spectrum_reader::activation::Activation;
use spectrum_reader::fixed::{HALF, QUARTER, SCALE};
use spectrum_reader::text::{parse_i64, parse_u64, parse_usize, push_int, split_bytes};
use spectrum_reader::Fixed;

fn fx(x: f64) -> Fixed {
    Fixed::from_raw((x * (SCALE as f64)).round() as i64)
}

#[test]
fn fixed_arithmetic_is_exact_on_small_values() {
    assert_eq!(fx(2.0).add(fx(3.0)), fx(5.0));
    assert_eq!(fx(2.0).sub(fx(3.0)), fx(-1.0));
    assert_eq!(fx(2.0).mul(fx(3.0)), fx(6.0));
    assert_eq!(fx(-2.5).mul(fx(2.0)), fx(-5.0));
    assert_eq!(fx(1.5).neg(), fx(-1.5));
    assert_eq!(Fixed::one().raw(), SCALE);
    assert_eq!(Fixed::zero().raw(), 0);
    assert_eq!(Fixed::from_units(7).raw(), 7 * SCALE);
}

#[test]
fn fixed_arithmetic_saturates() {
    let top = Fixed::from_raw(i64::MAX);
    assert_eq!(top.add(Fixed::one()).raw(), i64::MAX);
    let bottom = Fixed::from_raw(i64::MIN);
    assert_eq!(bottom.sub(Fixed::one()).raw(), i64::MIN);
    assert_eq!(bottom.neg().raw(), i64::MAX);
    assert_eq!(top.mul(top).raw(), i64::MAX);
    assert_eq!(top.mul(bottom).raw(), i64::MIN);
}

#[test]
fn fixed_ceiling_to_milliseconds() {
    assert_eq!(fx(0.0).ceil_units_u32(), 0);
    assert_eq!(fx(1.0).ceil_units_u32(), 1);
    assert_eq!(fx(1.25).ceil_units_u32(), 2);
    assert_eq!(fx(-3.5).ceil_units_u32(), 0);
    assert_eq!(Fixed::from_raw(i64::MAX).ceil_units_u32(), u32::MAX);
}

#[test]
fn activation_values() {
    assert_eq!(Activation::identity().of(fx(-2.5)), fx(-2.5));
    assert_eq!(Activation::relu().of(fx(-2.5)), fx(0.0));
    assert_eq!(Activation::relu().of(fx(2.5)), fx(2.5));
    assert_eq!(Activation::sigmoid().of(fx(0.0)), Fixed::from_raw(HALF));
    assert_eq!(Activation::sigmoid().of(fx(4.0)), Fixed::one());
    assert_eq!(Activation::sigmoid().of(fx(-4.0)), Fixed::zero());
    assert_eq!(Activation::sigmoid().of(fx(1.0)), Fixed::from_raw(QUARTER + HALF));
}

#[test]
fn activation_derivatives() {
    assert_eq!(Activation::identity().deriv_of(fx(-9.0)), Fixed::one());
    assert_eq!(Activation::relu().deriv_of(fx(2.0)), Fixed::one());
    assert_eq!(Activation::relu().deriv_of(fx(-2.0)), Fixed::zero());
    assert_eq!(Activation::relu().deriv_of(fx(0.0)), Fixed::zero());
    assert_eq!(Activation::sigmoid().deriv_of(fx(0.0)), Fixed::from_raw(QUARTER));
    assert_eq!(Activation::sigmoid().deriv_of(fx(3.0)), Fixed::zero());
}

#[test]
fn activation_names_round_trip() {
    for a in [Activation::identity(), Activation::relu(), Activation::sigmoid()] {
        let mut name: Vec<u8> = Vec::new();
        a.push_name(&mut name);
        assert_eq!(Activation::from_name(&name), Some(a));
    }
    assert_eq!(Activation::from_name(b"tanh"), None);
    assert_eq!(Activation::from_name(b""), None);
    let mut name: Vec<u8> = Vec::new();
    Activation::identity().push_name(&mut name);
    assert_eq!(name, b"none".to_vec());
}

#[test]
fn numeric_text_round_trips() {
    for value in [0i64, 1, -1, 42, -1048576, i64::MAX, i64::MIN] {
        let mut text: Vec<u8> = Vec::new();
        push_int(value, &mut text);
        assert_eq!(parse_i64(&text), Some(value));
    }
    assert_eq!(parse_u64(b"0"), Some(0));
    assert_eq!(parse_u64(b"18446744073709551615"), Some(u64::MAX));
    assert_eq!(parse_u64(b"18446744073709551616"), None);
    assert_eq!(parse_u64(b""), None);
    assert_eq!(parse_u64(b"12a"), None);
    assert_eq!(parse_u64(b"007"), Some(7));
    assert_eq!(parse_usize(b"5"), Some(5));
    assert_eq!(parse_i64(b"-"), None);
    assert_eq!(parse_i64(b"-0"), Some(0));
    assert_eq!(parse_i64(b"9223372036854775808"), None);
    assert_eq!(parse_i64(b"-9223372036854775808"), Some(i64::MIN));
}

#[test]
fn split_bytes_matches_separators() {
    let parts = split_bytes(b"a,bb,,c", b',');
    let views: Vec<&[u8]> = parts.iter().map(|p| p.as_slice()).collect();
    assert_eq!(views, vec![b"a" as &[u8], b"bb", b"", b"c"]);
    let parts = split_bytes(b"", b',');
    assert_eq!(parts.len(), 1);
    assert_eq!(parts[0].len(), 0);
    let parts = split_bytes(b"x\n", b'\n');
    assert_eq!(parts.len(), 2);
    assert_eq!(parts[1].len(), 0);
}
