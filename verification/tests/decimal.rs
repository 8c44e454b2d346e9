use staking_engine::decimal::{mul_ratio, Decimal, DECIMAL_FRACTIONAL};
use staking_engine::types::Timestamp;

const ONE: u128 = 1_000_000_000_000_000_000;

#[test]
fn decimal_constants() {
    assert_eq!(DECIMAL_FRACTIONAL, ONE);
    assert_eq!(Decimal::zero().atomics(), 0);
    assert_eq!(Decimal::one().atomics(), ONE);
    assert_eq!(Decimal::percent(10).atomics(), ONE / 10);
    assert_eq!(Decimal::percent(100), Decimal::one());
    assert_eq!(Decimal::percent(u64::MAX).atomics(), u64::MAX as u128 * (ONE / 100));
    assert_eq!(Decimal::raw(7).atomics(), 7);
    assert!(Decimal::zero().is_zero());
    assert!(!Decimal::raw(1).is_zero());
}

#[test]
fn decimal_product_rounds_down() {
    let half = Decimal::percent(50);
    assert_eq!(half.checked_mul(half), Some(Decimal::percent(25)));
    assert_eq!(
        Decimal::percent(150).checked_mul(Decimal::percent(200)),
        Some(Decimal::percent(300))
    );
    // 3 * 0.5 atomic units is 1.5, of which one stays
    assert_eq!(Decimal::raw(3).checked_mul(half), Some(Decimal::raw(1)));
    assert_eq!(Decimal::raw(1).checked_mul(half), Some(Decimal::zero()));
    assert_eq!(Decimal::one().checked_mul(Decimal::raw(12_345)), Some(Decimal::raw(12_345)));
}

#[test]
fn decimal_product_uses_the_full_width() {
    // the product of the counts does not fit in 128 bits, the result does
    let big = Decimal::raw(u128::MAX / 2);
    assert_eq!(big.checked_mul(Decimal::percent(200)), Some(Decimal::raw(u128::MAX - 1)));
    assert_eq!(big.checked_mul(Decimal::percent(201)), None);
    assert_eq!(Decimal::raw(u128::MAX).checked_mul(Decimal::raw(u128::MAX)), None);
    assert_eq!(Decimal::raw(u128::MAX).checked_mul(Decimal::one()), Some(Decimal::raw(u128::MAX)));
}

#[test]
fn decimal_quotient_rounds_down() {
    assert_eq!(
        Decimal::one().checked_div(Decimal::percent(400)),
        Some(Decimal::percent(25))
    );
    assert_eq!(
        Decimal::one().checked_div(Decimal::percent(300)),
        Some(Decimal::raw(333_333_333_333_333_333))
    );
    assert_eq!(
        Decimal::percent(200).checked_div(Decimal::percent(300)),
        Some(Decimal::raw(666_666_666_666_666_666))
    );
    assert_eq!(Decimal::raw(1).checked_div(Decimal::percent(200)), Some(Decimal::zero()));
}

#[test]
fn decimal_quotient_by_zero_or_too_large_is_none() {
    assert_eq!(Decimal::one().checked_div(Decimal::zero()), None);
    assert_eq!(Decimal::zero().checked_div(Decimal::zero()), None);
    assert_eq!(Decimal::raw(u128::MAX).checked_div(Decimal::percent(50)), None);
    assert_eq!(
        Decimal::raw(u128::MAX).checked_div(Decimal::one()),
        Some(Decimal::raw(u128::MAX))
    );
}

#[test]
fn decimal_from_ratio() {
    assert_eq!(Decimal::from_ratio(1, 1), Some(Decimal::one()));
    assert_eq!(Decimal::from_ratio(200, 1), Some(Decimal::raw(200 * ONE)));
    assert_eq!(Decimal::from_ratio(1, 3), Some(Decimal::raw(333_333_333_333_333_333)));
    assert_eq!(Decimal::from_ratio(2, 3), Some(Decimal::raw(666_666_666_666_666_666)));
    assert_eq!(Decimal::from_ratio(0, 9), Some(Decimal::zero()));
    assert_eq!(Decimal::from_ratio(1, 0), None);
    // the largest whole number that a decimal holds
    assert_eq!(
        Decimal::from_ratio(340_282_366_920_938_463_463, 1),
        Some(Decimal::raw(340_282_366_920_938_463_463 * ONE))
    );
    assert_eq!(Decimal::from_ratio(340_282_366_920_938_463_464, 1), None);
    assert_eq!(Decimal::from_ratio(u128::MAX, u128::MAX), Some(Decimal::one()));
}

#[test]
fn decimal_sum_and_difference() {
    let a = Decimal::percent(70);
    let b = Decimal::percent(30);
    assert_eq!(a.checked_add(b), Some(Decimal::one()));
    assert_eq!(a.checked_sub(b), Some(Decimal::percent(40)));
    assert_eq!(b.checked_sub(a), None);
    assert_eq!(a.checked_sub(a), Some(Decimal::zero()));
    assert_eq!(Decimal::raw(u128::MAX).checked_add(Decimal::raw(1)), None);
    assert_eq!(
        Decimal::raw(u128::MAX - 1).checked_add(Decimal::raw(1)),
        Some(Decimal::raw(u128::MAX))
    );
}

#[test]
fn decimal_floor() {
    assert_eq!(Decimal::raw(12 * ONE + 999_999_999_999_999_999).to_uint_floor(), 12);
    assert_eq!(Decimal::raw(75 * ONE).to_uint_floor(), 75);
    assert_eq!(Decimal::raw(ONE - 1).to_uint_floor(), 0);
    assert_eq!(Decimal::raw(u128::MAX).to_uint_floor(), 340_282_366_920_938_463_463);
}

#[test]
fn ratio_of_integers_rounds_down_at_full_width() {
    assert_eq!(mul_ratio(7, 3, 2), Some(10));
    assert_eq!(mul_ratio(5, 99, 100), Some(4));
    assert_eq!(mul_ratio(0, 5, 7), Some(0));
    assert_eq!(mul_ratio(1, 1, 0), None);
    assert_eq!(mul_ratio(u128::MAX, u128::MAX, u128::MAX), Some(u128::MAX));
    assert_eq!(mul_ratio(u128::MAX, 2, 1), None);
    assert_eq!(mul_ratio(u128::MAX, 6, 4), None);
    assert_eq!(mul_ratio(u128::MAX - 1, 3, 6), Some((u128::MAX - 1) / 2));
}

#[test]
fn timestamps_count_in_nanoseconds() {
    let t = Timestamp::from_nanos(1_571_797_419_879_305_533);
    assert_eq!(t.nanos(), 1_571_797_419_879_305_533);
    assert_eq!(t.seconds(), 1_571_797_419);
    assert_eq!(
        t.plus_seconds(60),
        Some(Timestamp::from_nanos(1_571_797_479_879_305_533))
    );
    assert_eq!(t.plus_seconds(0), Some(t));
    assert_eq!(t.plus_seconds(u64::MAX), None);
    assert_eq!(Timestamp::from_nanos(u64::MAX).plus_seconds(1), None);
    assert_eq!(
        Timestamp::from_nanos(u64::MAX - 1_000_000_000).plus_seconds(1),
        Some(Timestamp::from_nanos(u64::MAX))
    );
    let later = Timestamp::from_nanos(1_571_797_421_000_000_000);
    assert_eq!(later.seconds_since(&t), 2);
    assert_eq!(t.seconds_since(&later), 0);
    assert_eq!(t.seconds_since(&t), 0);
    assert!(t.is_before(&later));
    assert!(!later.is_before(&t));
    assert!(!t.is_before(&t));
}
