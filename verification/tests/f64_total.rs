use bitoxide::f64_total::F64Total;
use std::cmp::Ordering;

fn total(x: f64) -> F64Total {
    F64Total::from_bits(x.to_bits())
}

fn samples() -> Vec<f64> {
    vec![
        f64::NEG_INFINITY,
        f64::MIN,
        -1.5,
        -1.0,
        -f64::MIN_POSITIVE,
        -0.0,
        0.0,
        f64::MIN_POSITIVE,
        0.5,
        1.0,
        25.0,
        1e300,
        f64::MAX,
        f64::INFINITY,
        f64::NAN,
        -f64::NAN,
    ]
}

#[test]
fn order_agrees_with_the_total_order_of_doubles() {
    for a in samples() {
        for b in samples() {
            let expected = a.total_cmp(&b);
            assert_eq!(total(a).total_lt(&total(b)), expected == Ordering::Less);
            assert_eq!(total(a).total_le(&total(b)), expected != Ordering::Greater);
            assert_eq!(total(a) == total(b), expected == Ordering::Equal);
            assert_eq!(total(a).rank().cmp(&total(b).rank()), expected);
            assert_eq!(total(a).partial_cmp(&total(b)), Some(expected));
            assert_eq!(total(a) < total(b), expected == Ordering::Less);
            assert_eq!(total(a) >= total(b), expected != Ordering::Less);
        }
    }
}

#[test]
fn rank_of_the_zeros_and_their_neighbours() {
    assert_eq!(total(0.0).rank(), 0);
    assert_eq!(total(-0.0).rank(), -1);
    assert_eq!(F64Total::from_bits(1).rank(), 1);
    assert_eq!(F64Total::from_bits(u64::MAX).rank(), i64::MIN);
    assert_eq!(F64Total::from_bits(0x7FFF_FFFF_FFFF_FFFF).rank(), i64::MAX);
}

#[test]
fn nan_is_ordered_and_equal_to_itself() {
    let nan = total(f64::NAN);
    assert!(nan == nan);
    assert!(total(f64::INFINITY).total_lt(&nan));
    assert!(total(-f64::NAN).total_lt(&total(f64::NEG_INFINITY)));
}

#[test]
fn bits_round_trip() {
    for x in samples() {
        assert_eq!(total(x).to_bits(), x.to_bits());
    }
    assert_eq!(total(1.0).total_max(total(2.0)), total(2.0));
    assert_eq!(total(2.0).total_max(total(1.0)), total(2.0));
    assert_eq!(total(-0.0).total_max(total(0.0)), total(0.0));
}
