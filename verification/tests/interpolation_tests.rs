use rasterizer::fixed::{Frac, Fx, FX_SCALE};
use rasterizer::primitives::{interpolate, interpolate_old, Interpolate};

#[test]
fn interpolation_count_first_last_step() {
    // 5 steps from 10 to 25: 6 entries, evenly spaced by exactly 3.
    let values = interpolate_old(0, 10, 5, 25);
    assert_eq!(values.len(), 6);
    let den = 5i128;
    assert_eq!(values[0].num, 10 * den);
    assert_eq!(values[0].den as i128, den);
    assert_eq!(values[5].num, 25 * den);
    for k in 0..5 {
        assert_eq!(values[k + 1].num - values[k].num, 25 - 10);
    }
}

#[test]
fn interpolation_same_value_repeats() {
    // a nearly horizontal edge: values may repeat after truncation
    let itp = interpolate(0, 0, 10, 1);
    let a: i64 = itp.nth(3).trunc();
    let b: i64 = itp.nth(4).trunc();
    assert_eq!(a, 0);
    assert_eq!(b, 0);
    assert_eq!(itp.nth(10).trunc(), 1);
}

#[test]
fn interpolation_degenerate_single_entry() {
    let values = interpolate_old(3, 7, 3, 99);
    assert_eq!(values.len(), 1);
    assert_eq!(values[0].num, 7);
    assert_eq!(values[0].den, 1);
}

#[test]
fn interpolation_lazy_matches_eager() {
    let itp = interpolate(-2, -8, 2, 8);
    let values = interpolate_old(-2, -8, 2, 8);
    assert_eq!(itp.len(), 5);
    for k in 0..5 {
        let v: Frac = itp.nth(k);
        assert_eq!(v.num, values[k as usize].num);
        assert_eq!(v.den, values[k as usize].den);
    }
}

#[test]
fn frac_truncates_toward_zero() {
    let a = Frac { num: -7, den: 2 };
    assert_eq!(a.trunc(), -3);
    let b = Frac { num: 7, den: 2 };
    assert_eq!(b.trunc(), 3);
}

#[test]
fn fx_from_int_scales() {
    let one = Fx::from_int(1);
    assert_eq!(one.raw, FX_SCALE);
    let neg = Fx::from_int(-3);
    assert_eq!(neg.raw, -3 * FX_SCALE);
}

#[test]
fn interpolate_keeps_endpoints() {
    let itp: Interpolate = interpolate(4, 100, 8, 60);
    assert_eq!(itp.nth(0).trunc(), 100);
    assert_eq!(itp.nth(4).trunc(), 60);
}
