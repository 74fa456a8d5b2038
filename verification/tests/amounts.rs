use memhold::gib::{requested_bytes, GIB, MAX_GIB};

fn bytes(gib: f64) -> Option<u64> {
    requested_bytes(gib.to_bits())
}

#[test]
fn one_and_a_half_gib() {
    assert_eq!(bytes(1.5), Some(1536 * 1024 * 1024));
}

#[test]
fn ordinary_amounts() {
    assert_eq!(bytes(1.0), Some(GIB));
    assert_eq!(bytes(0.5), Some(GIB / 2));
    assert_eq!(bytes(3.999), Some((3.999f64 * 1073741824.0) as u64));
    assert_eq!(bytes(0.1), Some(107374182));
    assert_eq!(bytes(4.0), Some(4 * GIB));
    assert_eq!(bytes(5.5), Some(5905580032));
}

#[test]
fn limit_is_included() {
    assert_eq!(bytes(6.0), Some(MAX_GIB * GIB));
    assert_eq!(bytes(f64::from_bits(6.0f64.to_bits() + 1)), None);
    assert_eq!(bytes(f64::from_bits(6.0f64.to_bits() - 1)), Some(MAX_GIB * GIB - 1));
    assert_eq!(bytes(6.5), None);
    assert_eq!(bytes(7.999), None);
    assert_eq!(bytes(8.0), None);
    assert_eq!(bytes(1e300), None);
    assert_eq!(bytes(f64::MAX), None);
}

#[test]
fn zero_of_either_sign_is_release() {
    assert_eq!(bytes(0.0), Some(0));
    assert_eq!(bytes(-0.0), Some(0));
}

#[test]
fn negative_amounts_are_refused() {
    assert_eq!(bytes(-1.0), None);
    assert_eq!(bytes(-1e-300), None);
    assert_eq!(bytes(-f64::from_bits(1)), None);
}

#[test]
fn special_patterns_are_refused() {
    assert_eq!(bytes(f64::NAN), None);
    assert_eq!(bytes(-f64::NAN), None);
    assert_eq!(bytes(f64::INFINITY), None);
    assert_eq!(bytes(f64::NEG_INFINITY), None);
}

#[test]
fn less_than_a_byte_is_nothing() {
    assert_eq!(bytes(1.0 / 1073741824.0), Some(1));
    assert_eq!(bytes(0.999 / 1073741824.0), Some(0));
    assert_eq!(bytes(f64::MIN_POSITIVE), Some(0));
    assert_eq!(bytes(f64::from_bits(1)), Some(0));
}

#[test]
fn amounts_agree_with_the_machine() {
    let mut gib: f64 = 1e-12;
    while gib < 20.0 {
        let expected = if gib > 6.0 { None } else { Some((gib * 1073741824.0) as u64) };
        assert_eq!(bytes(gib), expected);
        gib = gib * 1.0137;
    }
}
