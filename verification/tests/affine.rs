use svg2cetz::affine::{
    apply_transform, apply_transform_exact, transform_multiply, transform_multiply_exact, Transform,
};
use svg2cetz::fixed::Fixed;

fn n(units: i64) -> Fixed {
    Fixed::from_raw(units)
}

#[test]
fn identity_is_neutral_for_composition() {
    let t = Transform::new(n(10_000_000), n(0), n(0), n(-10_000_000), n(5), n(7));
    assert_eq!(transform_multiply(&Transform::identity(), &t), t);
    assert_eq!(transform_multiply(&t, &Transform::identity()), t);
}

#[test]
fn apply_scales_and_flips() {
    let t = Transform::new(n(10_000_000), n(0), n(0), n(-10_000_000), n(0), n(0));
    let p = apply_transform((n(100_000_000_000), n(50_000_000_000)), &t);
    assert_eq!(p.0.raw(), 1_000_000_000);
    assert_eq!(p.1.raw(), -500_000_000);
}

#[test]
fn composition_is_outer_after_inner() {
    let scale = Transform::new(n(2_000_000_000), n(0), n(0), n(3_000_000_000), n(0), n(0));
    let shift = Transform::new(n(1_000_000_000), n(0), n(0), n(1_000_000_000), n(5), n(7));
    let both = transform_multiply(&scale, &shift);
    assert_eq!(both.e.raw(), 10);
    assert_eq!(both.f.raw(), 21);
    let other = transform_multiply(&shift, &scale);
    assert_eq!(other.e.raw(), 5);
    assert_eq!(other.f.raw(), 7);
    assert_ne!(both, other);
}

#[test]
fn composition_formula_is_exact_on_whole_numbers() {
    let one = 1_000_000_000;
    let o = Transform::new(n(2 * one), n(3 * one), n(5 * one), n(7 * one), n(11 * one), n(13 * one));
    let i = Transform::new(n(17 * one), n(19 * one), n(23 * one), n(29 * one), n(31 * one), n(37 * one));
    let r = transform_multiply(&o, &i);
    assert_eq!(r.a.raw(), (2 * 17 + 5 * 19) * one);
    assert_eq!(r.b.raw(), (3 * 17 + 7 * 19) * one);
    assert_eq!(r.c.raw(), (2 * 23 + 5 * 29) * one);
    assert_eq!(r.d.raw(), (3 * 23 + 7 * 29) * one);
    assert_eq!(r.e.raw(), (2 * 31 + 5 * 37 + 11) * one);
    assert_eq!(r.f.raw(), (3 * 31 + 7 * 37 + 13) * one);
    let p = (n(41 * one), n(43 * one));
    assert_eq!(apply_transform(p, &r), apply_transform(apply_transform(p, &i), &o));
}

#[test]
fn composition_applies_in_turn_up_to_rounding() {
    let o = Transform::new(
        n(707_106_781),
        n(707_106_781),
        n(-707_106_781),
        n(707_106_781),
        n(123_456_789),
        n(-987_654_321),
    );
    let i = Transform::new(
        n(333_333_333),
        n(10_000_000),
        n(-10_000_001),
        n(666_666_667),
        n(1),
        n(999_999_999),
    );
    let both = transform_multiply(&o, &i);
    for (x, y) in [(0i64, 0i64), (1, -1), (123_456_789_123, -987_654_321_987), (5, 1_000_000_000_000)] {
        let p = (n(x), n(y));
        let l = apply_transform(p, &both);
        let r = apply_transform(apply_transform(p, &i), &o);
        let bound_x = (x.abs() + y.abs() + o.a.raw().abs() + o.c.raw().abs()) / 2_000_000_000 + 2;
        let bound_y = (x.abs() + y.abs() + o.b.raw().abs() + o.d.raw().abs()) / 2_000_000_000 + 2;
        assert!((l.0.raw() - r.0.raw()).abs() <= bound_x);
        assert!((l.1.raw() - r.1.raw()).abs() <= bound_y);
        let exact_x = o.a.raw() as f64 / 1e9 * (i.a.raw() as f64 / 1e9 * x as f64 / 1e9
            + i.c.raw() as f64 / 1e9 * y as f64 / 1e9
            + i.e.raw() as f64 / 1e9)
            + o.c.raw() as f64 / 1e9 * (i.b.raw() as f64 / 1e9 * x as f64 / 1e9
                + i.d.raw() as f64 / 1e9 * y as f64 / 1e9
                + i.f.raw() as f64 / 1e9)
            + o.e.raw() as f64 / 1e9;
        assert!((l.0.raw() as f64 / 1e9 - exact_x).abs() < 1e-5);
    }
}

#[test]
fn identity_fixes_points() {
    let p = (n(-123_456_789_012), n(1));
    assert_eq!(apply_transform(p, &Transform::identity()), p);
}

#[test]
fn results_out_of_range_are_cut_off() {
    let limit = 1_000_000_000_000_000_000;
    let big = Transform::new(n(limit), n(0), n(0), n(-limit), n(0), n(0));
    let p = apply_transform((n(limit), n(limit)), &big);
    assert_eq!(p.0.raw(), limit);
    assert_eq!(p.1.raw(), -limit);
    let twice = transform_multiply(&big, &big);
    assert_eq!(twice.a.raw(), limit);
    assert_eq!(twice.d.raw(), limit);
}

#[test]
fn composition_groups_either_way_up_to_rounding() {
    let a = Transform::new(n(707_106_781), n(707_106_781), n(-707_106_781), n(707_106_781), n(5), n(-7));
    let b = Transform::new(n(333_333_333), n(10_000_000), n(-10_000_001), n(666_666_667), n(1), n(999_999_999));
    let c = Transform::new(n(1_234_567_891), n(-2), n(3), n(987_654_321), n(-123_456_789_012), n(77));
    let l = transform_multiply(&transform_multiply(&a, &b), &c);
    let r = transform_multiply(&a, &transform_multiply(&b, &c));
    let pairs = [
        (l.a, r.a), (l.b, r.b), (l.c, r.c), (l.d, r.d), (l.e, r.e), (l.f, r.f),
    ];
    for (x, y) in pairs {
        assert!((x.raw() - y.raw()).abs() <= 70, "{} {}", x.raw(), y.raw());
    }
}

#[test]
fn exact_results_are_absent_out_of_range() {
    let limit = 1_000_000_000_000_000_000;
    let one = 1_000_000_000;
    let big = Transform::new(n(limit), n(0), n(0), n(-limit), n(0), n(0));
    assert_eq!(apply_transform_exact((n(one), n(-one)), &big), Some((n(limit), n(limit))));
    assert_eq!(apply_transform_exact((n(one + 1), n(0)), &big), None);
    assert_eq!(apply_transform_exact((n(0), n(one + 1)), &big), None);
    let shifted = Transform::new(n(one), n(0), n(0), n(one), n(1), n(-1));
    assert_eq!(apply_transform_exact((n(limit), n(0)), &shifted), None);
    assert_eq!(apply_transform_exact((n(0), n(-limit)), &shifted), None);
    assert_eq!(
        apply_transform_exact((n(limit - 1), n(1 - limit)), &shifted),
        Some((n(limit), n(-limit)))
    );
    assert_eq!(transform_multiply_exact(&big, &big), None);
    assert_eq!(transform_multiply_exact(&big, &Transform::identity()), Some(big));
    let double = Transform::new(n(2 * one), n(0), n(0), n(2 * one), n(limit / 2), n(0));
    assert_eq!(transform_multiply_exact(&double, &shifted).map(|t| t.e.raw()), Some(limit / 2 + 2));
    let far = Transform::new(n(one), n(0), n(0), n(one), n(limit / 4 + 1), n(0));
    assert_eq!(transform_multiply_exact(&double, &far), None);
}

#[test]
fn exact_and_cut_results_agree_in_range() {
    let t = Transform::new(n(707_106_781), n(707_106_781), n(-707_106_781), n(707_106_781), n(5), n(-7));
    let p = (n(123_456_789_012), n(-987_654_321));
    assert_eq!(apply_transform_exact(p, &t), Some(apply_transform(p, &t)));
    assert_eq!(transform_multiply_exact(&t, &t), Some(transform_multiply(&t, &t)));
}
