use avm_core::avm1::interpreter::number_from_float_bits;
use avm_core::is_swf_case_sensitive;
use avm_core::number::Number;

fn num(x: f64) -> Number {
    Number::from_bits(x.to_bits())
}

#[test]
fn case_sensitivity_starts_with_version_seven() {
    assert!(!is_swf_case_sensitive(0));
    assert!(!is_swf_case_sensitive(6));
    assert!(is_swf_case_sensitive(7));
    assert!(is_swf_case_sensitive(255));
}

#[test]
fn integers_become_the_numbers_of_the_same_value() {
    for i in [0, 1, -1, 2, 3, 7, 255, 256, -1000, i32::MAX, i32::MIN, 123456789, 1 << 30] {
        let n = Number::from_i32(i);
        assert_eq!(n.to_bits(), (i as f64).to_bits(), "bits of {}", i);
        assert_eq!(n.to_i32(), i);
        assert_eq!(n.as_exact_i32(), Some(i));
    }
}

#[test]
fn conversion_to_integer_truncates_and_wraps() {
    assert_eq!(num(2.9).to_i32(), 2);
    assert_eq!(num(-2.9).to_i32(), -2);
    assert_eq!(num(0.999).to_i32(), 0);
    assert_eq!(num(4294967296.0).to_i32(), 0);
    assert_eq!(num(4294967297.0).to_i32(), 1);
    assert_eq!(num(2147483648.0).to_i32(), i32::MIN);
    assert_eq!(num(-2147483649.0).to_i32(), i32::MAX);
    assert_eq!(num(f64::NAN).to_i32(), 0);
    assert_eq!(num(f64::INFINITY).to_i32(), 0);
    assert_eq!(num(f64::NEG_INFINITY).to_i32(), 0);
    assert_eq!(num(1e300).to_i32(), 0);
    assert_eq!(num(5e-324).to_i32(), 0);
    assert_eq!(num(-0.0).to_i32(), 0);
    assert_eq!(num(9007199254740993.0).to_i32(), 9007199254740992i64 as i32);
}

#[test]
fn numbers_are_classified_by_their_bits() {
    assert!(num(f64::NAN).is_nan());
    assert!(Number::nan().is_nan());
    assert!(!num(1.0).is_nan());
    assert!(num(f64::INFINITY).is_infinite());
    assert!(!num(f64::INFINITY).is_finite());
    assert!(num(0.0).is_zero());
    assert!(num(-0.0).is_zero());
    assert!(num(-0.0).is_negative());
    assert!(!num(5e-324).is_zero());
    assert!(num(-3.5).is_negative());
}

#[test]
fn numeric_equality_follows_the_floating_point_rules() {
    assert!(num(1.5).numeric_eq(num(1.5)));
    assert!(num(0.0).numeric_eq(num(-0.0)));
    assert!(!num(f64::NAN).numeric_eq(num(f64::NAN)));
    assert!(!num(1.0).numeric_eq(num(2.0)));
}

#[test]
fn only_integers_of_32_bits_are_exact() {
    assert_eq!(num(1.5).as_exact_i32(), None);
    assert_eq!(num(2147483648.0).as_exact_i32(), None);
    assert_eq!(num(f64::NAN).as_exact_i32(), None);
    assert_eq!(num(-0.0).as_exact_i32(), Some(0));
    assert_eq!(num(-2147483648.0).as_exact_i32(), Some(i32::MIN));
}

#[test]
fn pixels_become_twips() {
    assert_eq!(num(1.0).to_twips(), 20);
    assert_eq!(num(0.5).to_twips(), 10);
    assert_eq!(num(0.04).to_twips(), 0);
    assert_eq!(num(-1.26).to_twips(), -25);
    assert_eq!(num(1e12).to_twips(), i32::MAX);
    assert_eq!(num(-1e12).to_twips(), i32::MIN);
    assert_eq!(num(f64::NAN).to_twips(), 0);
    assert_eq!(num(f64::INFINITY).to_twips(), 0);
    let mut samples = vec![0.0, 3.3, -7.75, 107374182.4, -107374182.45, 1e-310, 123456.789, 0.05, 0.15, 1.0 / 3.0, 2.0 / 3.0, 0.35, 1e15 + 0.3];
    let mut state: u64 = 0x9E3779B97F4A7C15;
    for _ in 0..20000 {
        state ^= state << 13;
        state ^= state >> 7;
        state ^= state << 17;
        let x = f64::from_bits(state);
        if x.is_finite() && x.abs() < 1e12 {
            samples.push(x);
        }
        samples.push(((state % 4_000_000) as f64 - 2_000_000.0) / 1000.0);
    }
    for x in samples {
        assert_eq!(num(x).to_twips(), (x * 20.0) as i32, "twips of {}", x);
    }
}

#[test]
fn single_precision_numbers_widen_exactly() {
    for x in [0.0f32, -0.0, 1.0, -1.5, 3.1415927, 1e-40, -1e-45, 1.17549435e-38, f32::MAX, f32::MIN_POSITIVE, f32::INFINITY, f32::NEG_INFINITY] {
        assert_eq!(number_from_float_bits(x.to_bits()).to_bits(), (x as f64).to_bits(), "widening {}", x);
    }
    assert!(number_from_float_bits(f32::NAN.to_bits()).is_nan());
}
