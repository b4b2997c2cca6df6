//! Decimal fixed-point numbers with nine fractional digits.

use vstd::prelude::*;

verus! {

/// How many units make up the value one.
pub const SCALE: i64 = 1_000_000_000;

/// The largest magnitude, in units, that a [`Fixed`] holds.
pub const LIMIT: i64 = 1_000_000_000_000_000_000;

/// Whether `v` units fit into a [`Fixed`].
pub open spec fn in_range(v: int) -> bool {
    -(LIMIT as int) <= v <= LIMIT as int
}

/// The representable number of units nearest to `v`.
pub open spec fn clamp(v: int) -> int {
    if v < -(LIMIT as int) {
        -(LIMIT as int)
    } else if v > LIMIT as int {
        LIMIT as int
    } else {
        v
    }
}

/// A product of two unit counts brought back to units, rounded to the
/// nearest unit, a tie going up.
pub open spec fn rescale(p: int) -> int {
    (p + 500_000_000) / (SCALE as int)
}

/// Units of the sum of two numbers.
pub open spec fn plus_units(a: int, b: int) -> int {
    clamp(a + b)
}

/// Units of the difference of two numbers.
pub open spec fn minus_units(a: int, b: int) -> int {
    clamp(a - b)
}

/// Units of `a * b + c * d`, rounded once.
pub open spec fn dot_units(a: int, b: int, c: int, d: int) -> int {
    clamp(rescale(a * b + c * d))
}

/// A number held as a whole count of billionths, between `-LIMIT` and `LIMIT`.
#[derive(Clone, Copy, Debug, PartialEq, Eq, Structural)]
pub struct Fixed {
    raw: i64,
}

impl View for Fixed {
    type V = int;

    closed spec fn view(&self) -> int {
        self.raw as int
    }
}

proof fn lemma_product_bound(a: int, b: int)
    requires
        in_range(a),
        in_range(b),
    ensures
        -(LIMIT as int) * (LIMIT as int) <= a * b <= (LIMIT as int) * (LIMIT as int),
{
    let l = LIMIT as int;
    assert(a * b <= l * l) by (nonlinear_arith)
        requires
            -l <= a <= l,
            -l <= b <= l,
            l >= 0,
    ;
    assert(-(l * l) <= a * b) by (nonlinear_arith)
        requires
            -l <= a <= l,
            -l <= b <= l,
            l >= 0,
    ;
    assert(-l * l == -(l * l)) by (nonlinear_arith);
}

/// Floor division by `SCALE`.
fn floor_scale(t: i128) -> (q: i128)
    requires
        -4_000_000_000_000_000_000_000_000_000_000_000_000 <= t
            <= 4_000_000_000_000_000_000_000_000_000_000_000_000,
    ensures
        q == t as int / (SCALE as int),
{
    let s: i128 = 1_000_000_000;
    if t >= 0 {
        t / s
    } else {
        let n: i128 = -t;
        let up: i128 = (n + (s - 1)) / s;
        assert(-up == t as int / (SCALE as int)) by {
            let m = n as int;
            let k = (m + 999_999_999) / 1_000_000_000;
            assert(t as int == -m);
            assert((-m) / 1_000_000_000 == -k) by (nonlinear_arith)
                requires
                    m >= 0,
                    k == (m + 999_999_999) / 1_000_000_000,
            ;
        }
        -up
    }
}

/// The number of `v` units, if there is one.
fn exact_wide(v: i128) -> (r: Option<Fixed>)
    ensures
        match r {
            Some(f) => in_range(v as int) && f@ == v,
            None => !in_range(v as int),
        },
{
    let l: i128 = 1_000_000_000_000_000_000;
    if v < -l || v > l {
        None
    } else {
        Some(Fixed { raw: v as i64 })
    }
}

fn clamp_wide(v: i128) -> (r: Fixed)
    ensures
        r@ == clamp(v as int),
{
    let l: i128 = 1_000_000_000_000_000_000;
    if v < -l {
        Fixed { raw: -1_000_000_000_000_000_000 }
    } else if v > l {
        Fixed { raw: 1_000_000_000_000_000_000 }
    } else {
        Fixed { raw: v as i64 }
    }
}

impl Fixed {
    #[verifier::type_invariant]
    spec fn bounded(self) -> bool {
        in_range(self.raw as int)
    }

    /// The number of `raw` billionths, brought into range.
    pub fn from_raw(raw: i64) -> (r: Fixed)
        ensures
            r@ == clamp(raw as int),
    {
        clamp_wide(raw as i128)
    }

    /// The count of billionths.
    pub fn raw(&self) -> (r: i64)
        ensures
            r == self@,
            in_range(self@),
    {
        proof {
            use_type_invariant(self);
        }
        self.raw
    }

    /// The number zero.
    pub fn zero() -> (r: Fixed)
        ensures
            r@ == 0,
    {
        Fixed { raw: 0 }
    }

    /// The number one.
    pub fn one() -> (r: Fixed)
        ensures
            r@ == SCALE as int,
    {
        Fixed { raw: 1_000_000_000 }
    }

    /// The sum, brought into range.
    pub fn plus(self, other: Fixed) -> (r: Fixed)
        ensures
            r@ == plus_units(self@, other@),
    {
        proof {
            use_type_invariant(&self);
            use_type_invariant(&other);
        }
        clamp_wide(self.raw as i128 + other.raw as i128)
    }

    /// The difference, brought into range.
    pub fn minus(self, other: Fixed) -> (r: Fixed)
        ensures
            r@ == minus_units(self@, other@),
    {
        proof {
            use_type_invariant(&self);
            use_type_invariant(&other);
        }
        clamp_wide(self.raw as i128 - other.raw as i128)
    }

    /// `a * b + c * d`, rounded once and brought into range.
    pub fn dot(a: Fixed, b: Fixed, c: Fixed, d: Fixed) -> (r: Fixed)
        ensures
            r@ == dot_units(a@, b@, c@, d@),
    {
        proof {
            use_type_invariant(&a);
            use_type_invariant(&b);
            use_type_invariant(&c);
            use_type_invariant(&d);
            lemma_product_bound(a@, b@);
            lemma_product_bound(c@, d@);
        }
        let ab: i128 = (a.raw as i128) * (b.raw as i128);
        let cd: i128 = (c.raw as i128) * (d.raw as i128);
        clamp_wide(floor_scale(ab + cd + 500_000_000))
    }

    /// The sum, if it is in range.
    pub fn plus_exact(self, other: Fixed) -> (r: Option<Fixed>)
        ensures
            match r {
                Some(f) => in_range(self@ + other@) && f@ == self@ + other@,
                None => !in_range(self@ + other@),
            },
    {
        proof {
            use_type_invariant(&self);
            use_type_invariant(&other);
        }
        exact_wide(self.raw as i128 + other.raw as i128)
    }

    /// The difference, if it is in range.
    pub fn minus_exact(self, other: Fixed) -> (r: Option<Fixed>)
        ensures
            match r {
                Some(f) => in_range(self@ - other@) && f@ == self@ - other@,
                None => !in_range(self@ - other@),
            },
    {
        proof {
            use_type_invariant(&self);
            use_type_invariant(&other);
        }
        exact_wide(self.raw as i128 - other.raw as i128)
    }

    /// `a * b + c * d`, rounded once, if it is in range.
    pub fn dot_exact(a: Fixed, b: Fixed, c: Fixed, d: Fixed) -> (r: Option<Fixed>)
        ensures
            match r {
                Some(f) => in_range(rescale(a@ * b@ + c@ * d@)) && f@ == rescale(
                    a@ * b@ + c@ * d@,
                ),
                None => !in_range(rescale(a@ * b@ + c@ * d@)),
            },
    {
        proof {
            use_type_invariant(&a);
            use_type_invariant(&b);
            use_type_invariant(&c);
            use_type_invariant(&d);
            lemma_product_bound(a@, b@);
            lemma_product_bound(c@, d@);
        }
        let ab: i128 = (a.raw as i128) * (b.raw as i128);
        let cd: i128 = (c.raw as i128) * (d.raw as i128);
        exact_wide(floor_scale(ab + cd + 500_000_000))
    }

    /// The product, rounded, if it is in range.
    pub fn times_exact(self, other: Fixed) -> (r: Option<Fixed>)
        ensures
            match r {
                Some(f) => in_range(rescale(self@ * other@)) && f@ == rescale(self@ * other@),
                None => !in_range(rescale(self@ * other@)),
            },
    {
        Fixed::dot_exact(self, other, Fixed::zero(), Fixed::zero())
    }

    /// The product, rounded and brought into range.
    pub fn times(self, other: Fixed) -> (r: Fixed)
        ensures
            r@ == dot_units(self@, other@, 0, 0),
    {
        Fixed::dot(self, other, Fixed::zero(), Fixed::zero())
    }
}

} // verus!
