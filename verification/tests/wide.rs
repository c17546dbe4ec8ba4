use peer_stats::wide::Wide;

#[test]
fn product_of_small_numbers() {
    let p = Wide::product(6, 7);
    assert_eq!((p.hi, p.lo), (0, 42));
    let zero = Wide::product(0, u128::MAX);
    assert_eq!((zero.hi, zero.lo), (0, 0));
}

#[test]
fn product_carries_into_the_high_half() {
    let p = Wide::product(u128::MAX, u128::MAX);
    assert_eq!((p.hi, p.lo), (u128::MAX - 1, 1));
    let q = Wide::product(1u128 << 64, 1u128 << 64);
    assert_eq!((q.hi, q.lo), (1, 0));
    let r = Wide::product(u128::MAX, 2);
    assert_eq!((r.hi, r.lo), (1, u128::MAX - 1));
}

#[test]
fn plus_carries_into_the_high_half() {
    let a = Wide { hi: 1, lo: u128::MAX };
    let b = Wide { hi: 2, lo: 5 };
    let s = a.plus(b);
    assert_eq!((s.hi, s.lo), (4, 4));
    let t = Wide::from_u128(7).plus(Wide::from_u128(8));
    assert_eq!((t.hi, t.lo), (0, 15));
}

#[test]
fn at_most_orders_by_the_high_half_first() {
    let small = Wide { hi: 1, lo: u128::MAX };
    let large = Wide { hi: 2, lo: 0 };
    assert!(small.at_most(large));
    assert!(!large.at_most(small));
    assert!(small.at_most(small));
    assert!(Wide::from_u128(3).at_most(Wide::from_u128(4)));
    assert!(!Wide::from_u128(4).at_most(Wide::from_u128(3)));
}

#[test]
fn divided_by_rounds_down() {
    let q = Wide::from_u128(100).divided_by(7);
    assert_eq!((q.hi, q.lo), (0, 14));
    let p = Wide::product(u128::MAX, 1_000_000_007).divided_by(1_000_000_007);
    assert_eq!((p.hi, p.lo), (0, u128::MAX));
    let r = Wide { hi: 1, lo: 0 }.divided_by(2);
    assert_eq!((r.hi, r.lo), (0, 1u128 << 127));
    let s = Wide { hi: u128::MAX, lo: u128::MAX }.divided_by(u64::MAX);
    // (2^256 - 1) / (2^64 - 1) = 2^192 + 2^128 + 2^64 + 1
    assert_eq!((s.hi, s.lo), ((1u128 << 64) + 1, (1u128 << 64) + 1));
    let one = Wide { hi: 3, lo: 9 }.divided_by(1);
    assert_eq!((one.hi, one.lo), (3, 9));
}

#[test]
fn floor_sqrt_rounds_down() {
    assert_eq!(Wide::from_u128(0).floor_sqrt(), 0);
    assert_eq!(Wide::from_u128(1).floor_sqrt(), 1);
    assert_eq!(Wide::from_u128(15).floor_sqrt(), 3);
    assert_eq!(Wide::from_u128(16).floor_sqrt(), 4);
    assert_eq!(Wide::from_u128(17).floor_sqrt(), 4);
    assert_eq!(Wide::product(u128::MAX, u128::MAX).floor_sqrt(), u128::MAX);
    assert_eq!(Wide { hi: u128::MAX, lo: u128::MAX }.floor_sqrt(), u128::MAX);
    assert_eq!(Wide { hi: 1, lo: 0 }.floor_sqrt(), 1u128 << 64);
    let below = Wide { hi: 0, lo: u128::MAX };
    assert_eq!(below.floor_sqrt(), (1u128 << 64) - 1);
}
