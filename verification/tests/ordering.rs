use liftplan::keys::WeightKey;
use liftplan::rounding::{round_to_5, round_to_5_or_10};
use std::cmp::Ordering;

fn key_of(v: f32) -> WeightKey {
    if v.is_nan() {
        WeightKey::NotANumber
    } else if v.is_infinite() {
        WeightKey::Infinite
    } else {
        WeightKey::Finite((v * 10.0).floor() as i64)
    }
}

#[test]
fn quantized_equality_within_bucket() {
    // 135.04 and 135.09 land in the same floored tenths bucket.
    assert_eq!(key_of(135.04), key_of(135.09));
}

#[test]
fn quantized_equality_bucket_boundary() {
    // 135.05 and 134.95 floor to different buckets.
    assert_ne!(key_of(135.05), key_of(134.95));
    assert_eq!(key_of(134.95), WeightKey::Finite(1349));
    assert_eq!(key_of(135.05), WeightKey::Finite(1350));
}

#[test]
fn nan_sorts_above_everything() {
    let nan = key_of(f32::NAN);
    let finite = key_of(135.0);
    let inf = key_of(f32::INFINITY);
    assert_eq!(nan.partial_cmp(&finite), Some(Ordering::Greater));
    assert_eq!(nan.partial_cmp(&inf), Some(Ordering::Greater));
    assert_eq!(nan.partial_cmp(&key_of(f32::NAN)), Some(Ordering::Equal));
    assert_eq!(nan, key_of(f32::NAN));
}

#[test]
fn infinities_sort_below_finite_values() {
    let pos = key_of(f32::INFINITY);
    let neg = key_of(f32::NEG_INFINITY);
    let finite = key_of(-4000.0);
    assert_eq!(pos.partial_cmp(&finite), Some(Ordering::Less));
    assert_eq!(pos.partial_cmp(&neg), Some(Ordering::Equal));
    assert_eq!(pos, neg);
    assert!(pos < finite);
}

#[test]
fn finite_keys_order_by_bucket() {
    assert!(WeightKey::Finite(1349) < WeightKey::Finite(1350));
    assert!(WeightKey::Finite(1350) <= WeightKey::Finite(1350));
    assert!(WeightKey::Finite(-5) < WeightKey::Finite(0));
}

#[test]
fn round_311_4_to_5_gives_315() {
    let rounded = (311.4f32).round() as u64;
    assert_eq!(rounded, 311);
    assert_eq!(round_to_5(rounded), 315);
}

#[test]
fn rounding_never_decreases_and_divides() {
    for n in 0u64..60 {
        let a = round_to_5(n);
        assert!(a >= n);
        assert_eq!(a % 5, 0);
        let b = round_to_5_or_10(n);
        assert!(b >= n);
        assert!(b % 10 == 0 || b % 10 == 5);
        assert_eq!(a, b);
    }
}

#[test]
fn rounding_keeps_multiples() {
    assert_eq!(round_to_5(0), 0);
    assert_eq!(round_to_5(10), 10);
    assert_eq!(round_to_5(11), 15);
    assert_eq!(round_to_5_or_10(7), 10);
    assert_eq!(round_to_5_or_10(185), 185);
}
