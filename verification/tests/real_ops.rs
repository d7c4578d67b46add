use gm8core::math::Real;

fn r_int(i: i64) -> Real {
    Real::from_int(i)
}

fn r_frac(num: i64, den: i64) -> Real {
    Real::from_frac(num, den)
}

#[test]
fn add() {
    assert_eq!(r_int(3), r_int(1).add(r_int(2)));
}

#[test]
fn sub() {
    assert_eq!(r_int(1), r_int(3).sub(r_int(2)));
}

#[test]
fn mul() {
    assert_eq!(r_int(6), r_int(3).mul(r_int(2)));
    assert_eq!(r_int(-2), r_int(2).mul(r_int(-1)));
}

#[test]
fn div() {
    assert_eq!(r_int(3), r_int(6).div(r_int(2)));
    assert_eq!(r_int(-1), r_int(2).div(r_int(-2)));
}

#[test]
fn prec_19() {
    let increment = r_frac(2, 10);
    let mut x = increment;
    let target = r_int(19);
    loop {
        x = x.add(increment);
        if x == target {
            break;
        } else if x > target {
            panic!();
        }
    }
}

#[test]
fn lt() {
    assert_eq!(r_int(3) < r_int(4), true);
    assert_eq!(r_int(3) < r_int(3), false);
    assert_eq!(r_int(-3) < r_int(-4), false);
    assert_eq!(r_frac(3, 10) < r_frac(1, 10).add(r_frac(2, 10)), false);
}

#[test]
fn le() {
    assert_eq!(r_int(3) <= r_int(4), true);
    assert_eq!(r_int(3) <= r_int(3), true);
    assert_eq!(r_int(-3) <= r_int(-4), false);
    assert_eq!(r_frac(3, 10) <= r_frac(1, 10).add(r_frac(2, 10)), true);
}

#[test]
fn gt() {
    assert_eq!(r_int(4) > r_int(3), true);
    assert_eq!(r_int(3) > r_int(3), false);
    assert_eq!(r_int(-4) > r_int(-3), false);
    assert_eq!(r_frac(1, 10).add(r_frac(2, 10)) > r_frac(3, 10), false);
}

#[test]
fn ge() {
    assert_eq!(r_int(4) >= r_int(3), true);
    assert_eq!(r_int(3) >= r_int(3), true);
    assert_eq!(r_int(-4) >= r_int(-3), false);
    assert_eq!(r_frac(1, 10).add(r_frac(2, 10)) >= r_frac(3, 10), true);
}

#[test]
fn round() {
    for i in 0..1000 {
        assert_eq!(0, r_int(i).add(r_frac(1, 2)).round() % 2);
    }
}

#[test]
fn tenth_plus_two_tenths_is_three_tenths() {
    let sum = r_frac(1, 10).add(r_frac(2, 10));
    let three_tenths = r_frac(3, 10);
    assert_eq!(three_tenths, sum);
    assert_eq!(three_tenths <= sum, true);
    assert_eq!(three_tenths >= sum, true);
    assert_eq!(three_tenths < sum, false);
    assert_eq!(three_tenths > sum, false);
}

#[test]
fn summing_two_tenths_hundred_times() {
    let increment = r_frac(2, 10);
    let target = r_int(20);
    let mut x = Real::zero();
    for i in 1..=100 {
        x = x.add(increment);
        if i < 100 {
            assert!(x != target);
        }
    }
    assert_eq!(x, target);
}

#[test]
fn add_then_sub_returns() {
    let a = r_frac(7, 10);
    let b = r_frac(123_456_789, 1000);
    assert_eq!(a.add(b).sub(b), a);
}

#[test]
fn round64_ties_to_even() {
    assert_eq!(r_frac(5, 2).round64(), 2);
    assert_eq!(r_frac(7, 2).round64(), 4);
    assert_eq!(r_frac(-5, 2).round64(), -2);
    assert_eq!(r_frac(49, 20).round64(), 2);
    assert_eq!(r_frac(51, 20).round64(), 3);
}

#[test]
fn round_wraps_to_32_bits() {
    assert_eq!(r_int(3_000_000_000).round(), -1_294_967_296);
    assert_eq!(r_int(-3).round(), -3);
}

#[test]
fn floor_truncates_downward() {
    assert_eq!(r_frac(7, 2).floor(), 3);
    assert_eq!(r_frac(-7, 2).floor(), -4);
    assert_eq!(r_int(5).floor(), 5);
}

#[test]
fn neg_and_abs() {
    assert_eq!(r_int(4).neg(), r_int(-4));
    assert_eq!(r_int(-4).abs(), r_int(4));
    assert_eq!(r_int(4).abs(), r_int(4));
}

#[test]
fn to_radians_of_half_turn() {
    let rad = r_int(180).to_radians();
    let pi = Real::from_units(314_159_265_358_979);
    assert_eq!(rad, pi);
}
