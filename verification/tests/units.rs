use sable_dtl::amount::{allocate_by_weights, Bps, Money, Ratio};
use sable_dtl::error::SableError;

#[test]
fn bps_application_rounds_to_nearest_cent() {
    let amount = Money::from_cents(10_005);
    let fee = amount.apply_bps(Bps::new(25).unwrap()).unwrap();
    assert_eq!(fee.cents(), 25);
}

#[test]
fn allocations_preserve_total() {
    let rows = allocate_by_weights(
        Money::from_cents(100),
        &[
            ("a".to_string(), 1),
            ("b".to_string(), 1),
            ("c".to_string(), 1),
        ],
    )
    .unwrap();
    let total: i64 = rows.iter().map(|row| row.amount.cents()).sum();
    assert_eq!(Money::from_cents(total), Money::from_cents(100));
}

#[test]
fn allocation_gives_the_remainder_to_the_last_row() {
    let rows = allocate_by_weights(
        Money::from_cents(100),
        &[("a".to_string(), 1), ("b".to_string(), 1), ("c".to_string(), 1)],
    )
    .unwrap();
    let cents: Vec<i64> = rows.iter().map(|row| row.amount.cents()).collect();
    assert_eq!(cents, vec![33, 33, 34]);
    assert_eq!(rows[2].label, "c");
}

#[test]
fn allocation_with_uneven_weights_sums_to_total() {
    let rows = allocate_by_weights(
        Money::from_cents(1_000_001),
        &[("x".to_string(), 3), ("y".to_string(), 5), ("z".to_string(), 11)],
    )
    .unwrap();
    let total: i64 = rows.iter().map(|row| row.amount.cents()).sum();
    assert_eq!(total, 1_000_001);
}

#[test]
fn bps_rounds_half_away_from_zero_for_negative_amounts() {
    let fee = Money::from_cents(-10_005).apply_bps(Bps::new(25).unwrap()).unwrap();
    assert_eq!(fee.cents(), -25);
    let half = Money::from_cents(200).apply_bps(Bps::new(25).unwrap()).unwrap();
    assert_eq!(half.cents(), 1);
}

#[test]
fn bps_above_full_is_refused() {
    assert!(matches!(Bps::new(10_001), Err(SableError::InvalidBasisPoints(10_001))));
    assert_eq!(Bps::new(10_000).unwrap().value(), 10_000);
    assert_eq!(Bps::full().value(), 10_000);
    assert_eq!(Bps::one_percent().value(), 100);
}

#[test]
fn bps_checked_arithmetic() {
    let a = Bps::new(9_000).unwrap();
    let b = Bps::new(2_000).unwrap();
    assert!(matches!(a.checked_add(b), Err(SableError::InvalidBasisPoints(_))));
    assert_eq!(a.checked_sub(b).unwrap().value(), 7_000);
    assert!(b.checked_sub(a).is_err());
}

#[test]
fn money_formats_in_major_units() {
    assert_eq!(Money::from_cents(123_456).format_major(), "1234.56");
    assert_eq!(Money::from_cents(-5).format_major(), "-0.05");
    assert_eq!(Money::from_cents(0).format_major(), "0.00");
    assert_eq!(Money::dollars(24_000).cents(), 2_400_000);
}

#[test]
fn money_checked_arithmetic_reports_overflow() {
    let max = Money::from_cents(i64::MAX);
    assert!(matches!(max.checked_add(Money::from_cents(1)), Err(SableError::ArithmeticOverflow)));
    assert_eq!(Money::from_cents(5).checked_sub(Money::from_cents(7)).unwrap().cents(), -2);
    assert!(Money::from_cents(i64::MIN).checked_abs().is_err());
    assert_eq!(Money::from_cents(40).checked_mul_i64(3).unwrap().cents(), 120);
}

#[test]
fn money_floor_subtraction_never_goes_negative() {
    let a = Money::from_cents(100);
    assert_eq!(a.saturating_sub_floor_zero(Money::from_cents(150)).cents(), 0);
    assert_eq!(a.saturating_sub_floor_zero(Money::from_cents(30)).cents(), 70);
}

#[test]
fn money_min_max_and_signs() {
    let a = Money::from_cents(-3);
    let b = Money::from_cents(8);
    assert_eq!(a.min(b).cents(), -3);
    assert_eq!(a.max(b).cents(), 8);
    assert!(a.is_negative() && b.is_positive() && Money::zero().is_zero());
}

#[test]
fn ratio_applies_with_rounding_and_refuses_zero_denominator() {
    assert!(matches!(Ratio::new(1, 0), Err(SableError::InvalidRatio)));
    let third = Ratio::new(1, 3).unwrap();
    assert_eq!(third.apply(Money::from_cents(100)).unwrap().cents(), 33);
    let two_thirds = Ratio::new(2, 3).unwrap();
    assert_eq!(two_thirds.apply(Money::from_cents(100)).unwrap().cents(), 67);
}
