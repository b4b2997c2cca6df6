//! Affine maps of the plane.

use vstd::prelude::*;
use crate::fixed::{dot_units, in_range, plus_units, rescale, Fixed, SCALE};

verus! {

/// The six coefficients of an affine map, in units: the point `(x, y)` goes
/// to `(a x + c y + e, b x + d y + f)`.
pub struct Affine {
    pub a: int,
    pub b: int,
    pub c: int,
    pub d: int,
    pub e: int,
    pub f: int,
}

impl Affine {
    /// Whether every coefficient is in range.
    pub open spec fn valid(self) -> bool {
        &&& in_range(self.a)
        &&& in_range(self.b)
        &&& in_range(self.c)
        &&& in_range(self.d)
        &&& in_range(self.e)
        &&& in_range(self.f)
    }
}

/// The map that leaves every point where it is.
pub open spec fn identity() -> Affine {
    Affine { a: SCALE as int, b: 0, c: 0, d: SCALE as int, e: 0, f: 0 }
}

/// The map that applies `inner` first and `outer` after it.
pub open spec fn compose(outer: Affine, inner: Affine) -> Affine {
    Affine {
        a: dot_units(outer.a, inner.a, outer.c, inner.b),
        b: dot_units(outer.b, inner.a, outer.d, inner.b),
        c: dot_units(outer.a, inner.c, outer.c, inner.d),
        d: dot_units(outer.b, inner.c, outer.d, inner.d),
        e: plus_units(dot_units(outer.a, inner.e, outer.c, inner.f), outer.e),
        f: plus_units(dot_units(outer.b, inner.e, outer.d, inner.f), outer.f),
    }
}

/// Where the map `t` sends the point `p`.
pub open spec fn apply(t: Affine, p: (int, int)) -> (int, int) {
    (
        plus_units(dot_units(t.a, p.0, t.c, p.1), t.e),
        plus_units(dot_units(t.b, p.0, t.d, p.1), t.f),
    )
}

/// An affine map with fixed-point coefficients.
#[derive(Clone, Copy, Debug, PartialEq, Eq, Structural)]
pub struct Transform {
    pub a: Fixed,
    pub b: Fixed,
    pub c: Fixed,
    pub d: Fixed,
    pub e: Fixed,
    pub f: Fixed,
}

impl View for Transform {
    type V = Affine;

    open spec fn view(&self) -> Affine {
        Affine { a: self.a@, b: self.b@, c: self.c@, d: self.d@, e: self.e@, f: self.f@ }
    }
}

impl Transform {
    /// The map with the given coefficients.
    pub fn new(a: Fixed, b: Fixed, c: Fixed, d: Fixed, e: Fixed, f: Fixed) -> (r: Transform)
        ensures
            r@ == (Affine { a: a@, b: b@, c: c@, d: d@, e: e@, f: f@ }),
    {
        Transform { a, b, c, d, e, f }
    }

    /// The map that leaves every point where it is.
    pub fn identity() -> (r: Transform)
        ensures
            r@ == identity(),
    {
        Transform {
            a: Fixed::one(),
            b: Fixed::zero(),
            c: Fixed::zero(),
            d: Fixed::one(),
            e: Fixed::zero(),
            f: Fixed::zero(),
        }
    }
}

/// Composes two maps: the result applies `ts2` first and `ts1` after it.
pub fn transform_multiply(ts1: &Transform, ts2: &Transform) -> (r: Transform)
    ensures
        r@ == compose(ts1@, ts2@),
{
    Transform {
        a: Fixed::dot(ts1.a, ts2.a, ts1.c, ts2.b),
        b: Fixed::dot(ts1.b, ts2.a, ts1.d, ts2.b),
        c: Fixed::dot(ts1.a, ts2.c, ts1.c, ts2.d),
        d: Fixed::dot(ts1.b, ts2.c, ts1.d, ts2.d),
        e: Fixed::dot(ts1.a, ts2.e, ts1.c, ts2.f).plus(ts1.e),
        f: Fixed::dot(ts1.b, ts2.e, ts1.d, ts2.f).plus(ts1.f),
    }
}

/// Sends the point `coord` through the map `t`.
pub fn apply_transform(coord: (Fixed, Fixed), t: &Transform) -> (r: (Fixed, Fixed))
    ensures
        (r.0@, r.1@) == apply(t@, (coord.0@, coord.1@)),
{
    let (x, y) = coord;
    (Fixed::dot(t.a, x, t.c, y).plus(t.e), Fixed::dot(t.b, x, t.d, y).plus(t.f))
}

/// One coordinate of a point under a map, if nothing is cut off.
fn row_exact(a: Fixed, c: Fixed, e: Fixed, x: Fixed, y: Fixed) -> (r: Option<Fixed>)
    ensures
        match r {
            Some(v) => in_range(rescale(a@ * x@ + c@ * y@)) && in_range(
                rescale(a@ * x@ + c@ * y@) + e@,
            ) && v@ == plus_units(dot_units(a@, x@, c@, y@), e@),
            None => !(in_range(rescale(a@ * x@ + c@ * y@)) && in_range(
                rescale(a@ * x@ + c@ * y@) + e@,
            )),
        },
{
    match Fixed::dot_exact(a, x, c, y) {
        Some(v) => v.plus_exact(e),
        None => None,
    }
}

/// Sends the point `coord` through the map `t`, if nothing is cut off on the
/// way.
pub fn apply_transform_exact(coord: (Fixed, Fixed), t: &Transform) -> (r: Option<(Fixed, Fixed)>)
    ensures
        match r {
            Some(p) => applies_in_range(t@, (coord.0@, coord.1@)) && (p.0@, p.1@) == apply(
                t@,
                (coord.0@, coord.1@),
            ),
            None => !applies_in_range(t@, (coord.0@, coord.1@)),
        },
{
    let (x, y) = coord;
    let px = row_exact(t.a, t.c, t.e, x, y);
    let py = row_exact(t.b, t.d, t.f, x, y);
    match (px, py) {
        (Some(px), Some(py)) => Some((px, py)),
        _ => None,
    }
}

/// Composes two maps, if nothing is cut off on the way.
pub fn transform_multiply_exact(ts1: &Transform, ts2: &Transform) -> (r: Option<Transform>)
    ensures
        match r {
            Some(t) => composes_in_range(ts1@, ts2@) && t@ == compose(ts1@, ts2@),
            None => !composes_in_range(ts1@, ts2@),
        },
{
    let zero = Fixed::zero();
    let a = row_exact(ts1.a, ts1.c, zero, ts2.a, ts2.b);
    let b = row_exact(ts1.b, ts1.d, zero, ts2.a, ts2.b);
    let c = row_exact(ts1.a, ts1.c, zero, ts2.c, ts2.d);
    let d = row_exact(ts1.b, ts1.d, zero, ts2.c, ts2.d);
    let e = row_exact(ts1.a, ts1.c, ts1.e, ts2.e, ts2.f);
    let f = row_exact(ts1.b, ts1.d, ts1.f, ts2.e, ts2.f);
    match (a, b, c, d, e, f) {
        (Some(a), Some(b), Some(c), Some(d), Some(e), Some(f)) => Some(
            Transform { a, b, c, d, e, f },
        ),
        _ => None,
    }
}

proof fn lemma_rescale_exact(x: int)
    ensures
        rescale((SCALE as int) * x) == x,
        rescale(x * (SCALE as int)) == x,
{
    let s = SCALE as int;
    assert((s * x + 500_000_000) / s == x) by (nonlinear_arith)
        requires
            s == 1_000_000_000,
    ;
    assert(x * s == s * x) by (nonlinear_arith);
}

/// Composing with the identity, on either side, changes nothing.
pub proof fn law_identity_is_neutral(t: Affine)
    requires
        t.valid(),
    ensures
        compose(identity(), t) == t,
        compose(t, identity()) == t,
{
    let s = SCALE as int;
    lemma_rescale_exact(t.a);
    lemma_rescale_exact(t.b);
    lemma_rescale_exact(t.c);
    lemma_rescale_exact(t.d);
    lemma_rescale_exact(t.e);
    lemma_rescale_exact(t.f);
    lemma_rescale_exact(0);
}

/// The identity leaves every point in range where it is.
pub proof fn law_identity_fixes_points(p: (int, int))
    requires
        in_range(p.0),
        in_range(p.1),
    ensures
        apply(identity(), p) == p,
{
    lemma_rescale_exact(p.0);
    lemma_rescale_exact(p.1);
}

/// The size of a number of units.
pub open spec fn magnitude(v: int) -> int {
    if v < 0 {
        -v
    } else {
        v
    }
}

/// Whether composing `outer` with `inner` stays in range all the way, so
/// that nothing is cut off.
pub open spec fn composes_in_range(outer: Affine, inner: Affine) -> bool {
    &&& in_range(rescale(outer.a * inner.a + outer.c * inner.b))
    &&& in_range(rescale(outer.b * inner.a + outer.d * inner.b))
    &&& in_range(rescale(outer.a * inner.c + outer.c * inner.d))
    &&& in_range(rescale(outer.b * inner.c + outer.d * inner.d))
    &&& in_range(rescale(outer.a * inner.e + outer.c * inner.f))
    &&& in_range(rescale(outer.a * inner.e + outer.c * inner.f) + outer.e)
    &&& in_range(rescale(outer.b * inner.e + outer.d * inner.f))
    &&& in_range(rescale(outer.b * inner.e + outer.d * inner.f) + outer.f)
}

/// Whether applying `t` to `p` stays in range all the way, so that nothing
/// is cut off.
pub open spec fn applies_in_range(t: Affine, p: (int, int)) -> bool {
    &&& in_range(rescale(t.a * p.0 + t.c * p.1))
    &&& in_range(rescale(t.a * p.0 + t.c * p.1) + t.e)
    &&& in_range(rescale(t.b * p.0 + t.d * p.1))
    &&& in_range(rescale(t.b * p.0 + t.d * p.1) + t.f)
}

/// Rounding moves a product by half a unit at most.
proof fn lemma_rounding(q: int)
    ensures
        -500_000_000 < (SCALE as int) * rescale(q) - q <= 500_000_000,
{
    let s = SCALE as int;
    let t = q + 500_000_000;
    assert(s * (t / s) <= t < s * (t / s) + s) by (nonlinear_arith)
        requires
            s == 1_000_000_000,
    ;
}

/// A product with a factor of half a unit at most.
proof fn lemma_small_product(d: int, x: int)
    requires
        -500_000_000 <= d <= 500_000_000,
    ensures
        -500_000_000 * magnitude(x) <= d * x <= 500_000_000 * magnitude(x),
{
    let m = magnitude(x);
    assert(-500_000_000 * m <= d * x <= 500_000_000 * m) by (nonlinear_arith)
        requires
            -500_000_000 <= d <= 500_000_000,
            m >= 0,
            x == m || x == -m,
    ;
}

/// `SCALE * (r * x)` where `SCALE * r` is `a + d`.
proof fn lemma_scaled_factor(r: int, a: int, d: int, x: int)
    requires
        (SCALE as int) * r == a + d,
    ensures
        (SCALE as int) * (r * x) == a * x + d * x,
{
    let s = SCALE as int;
    assert(s * (r * x) == (s * r) * x) by (nonlinear_arith);
    assert((a + d) * x == a * x + d * x) by (nonlinear_arith);
}

/// `SCALE * (o * v)` where `SCALE * v` is `u + d + SCALE * e`.
proof fn lemma_scaled_argument(o: int, v: int, u: int, d: int, e: int)
    requires
        (SCALE as int) * v == u + d + (SCALE as int) * e,
    ensures
        (SCALE as int) * (o * v) == o * u + o * d + (SCALE as int) * (o * e),
{
    let s = SCALE as int;
    assert(s * (o * v) == o * (s * v)) by (nonlinear_arith);
    assert(o * (u + d + s * e) == o * u + o * d + s * (o * e)) by (nonlinear_arith);
}

/// The products of a composition, regrouped.
proof fn lemma_regroup(oa: int, oc: int, i: Affine, x: int, y: int)
    ensures
        (oa * i.a + oc * i.b) * x + (oa * i.c + oc * i.d) * y == oa * (i.a * x + i.c * y) + oc * (
        i.b * x + i.d * y),
{
    assert((oa * i.a + oc * i.b) * x == oa * (i.a * x) + oc * (i.b * x)) by (nonlinear_arith);
    assert((oa * i.c + oc * i.d) * y == oa * (i.c * y) + oc * (i.d * y)) by (nonlinear_arith);
    assert(oa * (i.a * x + i.c * y) == oa * (i.a * x) + oa * (i.c * y)) by (nonlinear_arith);
    assert(oc * (i.b * x + i.d * y) == oc * (i.b * x) + oc * (i.d * y)) by (nonlinear_arith);
}

/// One coordinate of a point under a composition, against the same
/// coordinate under the two maps in turn, with nothing cut off.
proof fn lemma_row(oa: int, oc: int, oe: int, i: Affine, x: int, y: int)
    ensures
        ({
            let ra = rescale(oa * i.a + oc * i.b);
            let rc = rescale(oa * i.c + oc * i.d);
            let re = rescale(oa * i.e + oc * i.f) + oe;
            let x1 = rescale(i.a * x + i.c * y) + i.e;
            let y1 = rescale(i.b * x + i.d * y) + i.f;
            let left = rescale(ra * x + rc * y) + re;
            let right = rescale(oa * x1 + oc * y1) + oe;
            2 * (SCALE as int) * magnitude(left - right) <= magnitude(x) + magnitude(y)
                + magnitude(oa) + magnitude(oc) + 3 * (SCALE as int)
        }),
{
    let s = SCALE as int;
    let a = oa * i.a + oc * i.b;
    let c = oa * i.c + oc * i.d;
    let e = oa * i.e + oc * i.f;
    let u = i.a * x + i.c * y;
    let v = i.b * x + i.d * y;
    let ra = rescale(a);
    let rc = rescale(c);
    let re0 = rescale(e);
    let x0 = rescale(u);
    let y0 = rescale(v);
    let x1 = x0 + i.e;
    let y1 = y0 + i.f;
    let l0 = rescale(ra * x + rc * y);
    let r0 = rescale(oa * x1 + oc * y1);
    let da = s * ra - a;
    let dc = s * rc - c;
    let de = s * re0 - e;
    let dx = s * x0 - u;
    let dy = s * y0 - v;
    let d1 = s * l0 - (ra * x + rc * y);
    let d2 = s * r0 - (oa * x1 + oc * y1);
    lemma_rounding(a);
    lemma_rounding(c);
    lemma_rounding(e);
    lemma_rounding(u);
    lemma_rounding(v);
    lemma_rounding(ra * x + rc * y);
    lemma_rounding(oa * x1 + oc * y1);
    lemma_scaled_factor(ra, a, da, x);
    lemma_scaled_factor(rc, c, dc, y);
    lemma_scaled_argument(oa, x1, u, dx, i.e);
    lemma_scaled_argument(oc, y1, v, dy, i.f);
    lemma_regroup(oa, oc, i, x, y);
    assert(oa * (i.a * x + i.c * y) == oa * u);
    assert(oc * (i.b * x + i.d * y) == oc * v);
    let gap = (l0 + re0) - r0;
    assert(s * (s * l0) == s * (ra * x) + s * (rc * y) + s * d1);
    assert(s * (s * r0) == s * (oa * x1) + s * (oc * y1) + s * d2);
    assert(s * (s * re0) == s * (oa * i.e) + s * (oc * i.f) + s * de);
    assert(s * (s * gap) == da * x + dc * y + s * d1 + s * de - oa * dx - oc * dy - s * d2);
    lemma_small_product(da, x);
    lemma_small_product(dc, y);
    lemma_small_product(dx, oa);
    lemma_small_product(dy, oc);
    assert(oa * dx == dx * oa) by (nonlinear_arith);
    assert(oc * dy == dy * oc) by (nonlinear_arith);
    let total = da * x + dc * y - oa * dx - oc * dy;
    let sizes = magnitude(x) + magnitude(y) + magnitude(oa) + magnitude(oc);
    assert(-500_000_000 * sizes <= total <= 500_000_000 * sizes);
    assert(s * (s * gap) == 1_000_000_000_000_000_000 * gap) by (nonlinear_arith)
        requires
            s == 1_000_000_000,
    ;
    assert(1_000_000_000_000_000_000 * gap == total + 1_000_000_000 * (d1 + de - d2));
    assert((l0 + re0 + oe) - (r0 + oe) == gap);
    assert(-1_500_000_000 < d1 + de - d2 < 1_500_000_000);
    assert(2_000_000_000 * magnitude(gap) <= sizes + 3_000_000_000);
    assert(2 * s * magnitude(gap) == 2_000_000_000 * magnitude(gap)) by (nonlinear_arith)
        requires
            s == 1_000_000_000,
    ;
}

/// Applying a composition is applying the two maps in turn, up to rounding.
/// Where nothing is cut off, each coordinate of the two results differs by
/// no more than one and a half units and a share of the sizes involved:
/// `(|x| + |y| + |a| + |c|) / (2 SCALE)` units for the first, the same with
/// `b` and `d` for the second, the coefficients being those of `outer`.
pub proof fn law_composition_applies_in_turn(outer: Affine, inner: Affine, p: (int, int))
    requires
        composes_in_range(outer, inner),
        applies_in_range(compose(outer, inner), p),
        applies_in_range(inner, p),
        applies_in_range(outer, apply(inner, p)),
    ensures
        2 * (SCALE as int) * magnitude(
            apply(compose(outer, inner), p).0 - apply(outer, apply(inner, p)).0,
        ) <= magnitude(p.0) + magnitude(p.1) + magnitude(outer.a) + magnitude(outer.c) + 3 * (
        SCALE as int),
        2 * (SCALE as int) * magnitude(
            apply(compose(outer, inner), p).1 - apply(outer, apply(inner, p)).1,
        ) <= magnitude(p.0) + magnitude(p.1) + magnitude(outer.b) + magnitude(outer.d) + 3 * (
        SCALE as int),
{
    lemma_row(outer.a, outer.c, outer.e, inner, p.0, p.1);
    lemma_row(outer.b, outer.d, outer.f, inner, p.0, p.1);
}

/// How far apart, at most, two coefficients of a composition of three maps
/// are that differ only in the grouping: twice `SCALE` times their distance
/// is no more than the sizes of the column of the innermost map and the row
/// of the outermost map that meet in them, and three times `SCALE`.
pub open spec fn agree_within(left: int, right: int, x: int, y: int, oa: int, oc: int) -> bool {
    2 * (SCALE as int) * magnitude(left - right) <= magnitude(x) + magnitude(y) + magnitude(oa)
        + magnitude(oc) + 3 * (SCALE as int)
}

/// Composition is associative, up to rounding. Where nothing is cut off,
/// the two groupings of three maps agree in each coefficient within one and
/// a half units and a share of the sizes involved.
pub proof fn law_composition_groups_either_way(a: Affine, b: Affine, c: Affine)
    requires
        composes_in_range(a, b),
        composes_in_range(compose(a, b), c),
        composes_in_range(b, c),
        composes_in_range(a, compose(b, c)),
    ensures
        ({
            let l = compose(compose(a, b), c);
            let r = compose(a, compose(b, c));
            &&& agree_within(l.a, r.a, c.a, c.b, a.a, a.c)
            &&& agree_within(l.b, r.b, c.a, c.b, a.b, a.d)
            &&& agree_within(l.c, r.c, c.c, c.d, a.a, a.c)
            &&& agree_within(l.d, r.d, c.c, c.d, a.b, a.d)
            &&& agree_within(l.e, r.e, c.e, c.f, a.a, a.c)
            &&& agree_within(l.f, r.f, c.e, c.f, a.b, a.d)
        }),
{
    let linear = Affine { e: 0, f: 0, ..b };
    lemma_row(a.a, a.c, 0, linear, c.a, c.b);
    lemma_row(a.b, a.d, 0, linear, c.a, c.b);
    lemma_row(a.a, a.c, 0, linear, c.c, c.d);
    lemma_row(a.b, a.d, 0, linear, c.c, c.d);
    lemma_row(a.a, a.c, a.e, b, c.e, c.f);
    lemma_row(a.b, a.d, a.f, b, c.e, c.f);
    assert(rescale(0) == 0);
}

} // verus!
