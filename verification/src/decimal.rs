//! Decimal notation: reading a number from text and writing it back.

use vstd::prelude::*;
use crate::fixed::{in_range, Fixed, LIMIT, SCALE};
use crate::text::append_range;

verus! {

/// Whether `b` is an ASCII digit.
pub open spec fn is_digit(b: u8) -> bool {
    '0' as u8 <= b <= '9' as u8
}

/// Ten to the power `n`.
pub open spec fn pow10(n: nat) -> nat
    decreases n,
{
    if n == 0 {
        1
    } else {
        10 * pow10((n - 1) as nat)
    }
}

/// The number that a run of digits denotes.
pub open spec fn digits_value(s: Seq<u8>) -> nat
    decreases s.len(),
{
    if s.len() == 0 {
        0
    } else {
        digits_value(s.drop_last()) * 10 + (s.last() - '0' as u8) as nat
    }
}

/// How many digits stand in `s` from position `from` on, without a gap.
pub open spec fn digit_run(s: Seq<u8>, from: int) -> nat
    decreases s.len() - from,
{
    if 0 <= from < s.len() && is_digit(s[from]) {
        1 + digit_run(s, from + 1)
    } else {
        0
    }
}

/// Whether `b` is a plus or a minus sign.
pub open spec fn is_sign(b: u8) -> bool {
    b == '+' as u8 || b == '-' as u8
}

/// A number taken apart: its sign, the digits of its mantissa, and how many
/// of them stand before the decimal point once the exponent is applied.
pub struct Lexed {
    pub negative: bool,
    pub digits: Seq<u8>,
    pub whole: int,
}

/// How far an exponent moves the decimal point. The exponent starts at
/// position `at`: nothing at all, or `e` or `E`, an optional sign, and digits
/// up to the end of the text. `None` when it is anything else.
pub open spec fn exponent_of(s: Seq<u8>, at: int) -> Option<int> {
    if at == s.len() {
        Some(0)
    } else if 0 <= at < s.len() && (s[at] == 'e' as u8 || s[at] == 'E' as u8) {
        let signed = at + 1 < s.len() && is_sign(s[at + 1]);
        let e0 = if signed { at + 2 } else { at + 1 };
        let e = digits_value(s.subrange(e0, s.len() as int)) as int;
        if digit_run(s, e0) == 0 || e0 + digit_run(s, e0) != s.len() {
            None
        } else if signed && s[at + 1] == '-' as u8 {
            Some(-e)
        } else {
            Some(e)
        }
    } else {
        None
    }
}

/// How many bytes the sign of a number takes: one or none.
pub open spec fn sign_len(s: Seq<u8>) -> int {
    if s.len() > 0 && is_sign(s[0]) {
        1
    } else {
        0
    }
}

/// Where the digits before the decimal point end.
pub open spec fn whole_end(s: Seq<u8>) -> int {
    sign_len(s) + digit_run(s, sign_len(s))
}

/// Whether a decimal point follows the digits of the whole part.
pub open spec fn has_point(s: Seq<u8>) -> bool {
    whole_end(s) < s.len() && s[whole_end(s)] == '.' as u8
}

/// Where the digits after the decimal point start.
pub open spec fn fraction_start(s: Seq<u8>) -> int {
    if has_point(s) {
        whole_end(s) + 1
    } else {
        whole_end(s)
    }
}

/// Where the mantissa ends.
pub open spec fn mantissa_end(s: Seq<u8>) -> int {
    if has_point(s) {
        fraction_start(s) + digit_run(s, fraction_start(s))
    } else {
        whole_end(s)
    }
}

/// The digits of the mantissa, those before the point and those after it.
pub open spec fn mantissa_digits(s: Seq<u8>) -> Seq<u8> {
    s.subrange(sign_len(s), whole_end(s)) + s.subrange(fraction_start(s), mantissa_end(s))
}

/// Takes a number apart. The notation is an optional sign, digits with an
/// optional point among them (at least one digit in all), and an optional
/// exponent.
pub open spec fn lex(s: Seq<u8>) -> Option<Lexed> {
    match exponent_of(s, mantissa_end(s)) {
        Some(e) if mantissa_digits(s).len() > 0 => Some(
            Lexed {
                negative: s.len() > 0 && s[0] == '-' as u8,
                digits: mantissa_digits(s),
                whole: whole_end(s) - sign_len(s) + e,
            },
        ),
        _ => None,
    }
}

/// The magnitude in units of `0.digits` with the point moved `keep` places to
/// the right: the first `keep` digits count, and the next one rounds them up
/// when it is five or more.
pub open spec fn units_of(digits: Seq<u8>, keep: int) -> nat {
    if keep < 0 {
        0
    } else if keep >= digits.len() {
        digits_value(digits) * pow10((keep - digits.len()) as nat)
    } else if digits[keep] >= '5' as u8 {
        digits_value(digits.take(keep)) + 1
    } else {
        digits_value(digits.take(keep))
    }
}

/// The units that a decimal number denotes; `None` when the text is no
/// number, or its magnitude is beyond `LIMIT` units.
pub open spec fn parse_units(s: Seq<u8>) -> Option<int> {
    match lex(s) {
        None => None,
        Some(l) => {
            let m = units_of(l.digits, l.whole + 9) as int;
            if m > LIMIT as int {
                None
            } else if l.negative {
                Some(-m)
            } else {
                Some(m)
            }
        },
    }
}

/// A magnitude cut off just beyond `LIMIT`.
pub open spec fn capped(n: nat) -> nat {
    if n > LIMIT as nat {
        (LIMIT + 1) as nat
    } else {
        n
    }
}

proof fn lemma_take_step(s: Seq<u8>, i: int)
    requires
        0 <= i < s.len(),
    ensures
        digits_value(s.take(i + 1)) == digits_value(s.take(i)) * 10 + (s[i] - '0' as u8) as nat,
{
    assert(s.take(i + 1).drop_last() =~= s.take(i));
}

proof fn lemma_pow10_grows(a: nat, b: nat)
    requires
        a <= b,
    ensures
        pow10(a) <= pow10(b),
        pow10(a) >= 1,
    decreases b,
{
    if b > 0 {
        if a < b {
            lemma_pow10_grows(a, (b - 1) as nat);
        } else {
            lemma_pow10_grows((a - 1) as nat, (b - 1) as nat);
        }
    }
}

proof fn lemma_pow10_19()
    ensures
        pow10(19) == 10_000_000_000_000_000_000,
{
    reveal_with_fuel(pow10, 20);
}

/// Where a run of digits that starts at `from` ends.
fn scan_digits(s: &[u8], from: usize) -> (end: usize)
    requires
        from <= s.len(),
    ensures
        end == from + digit_run(s@, from as int),
        end <= s.len(),
{
    let mut i: usize = from;
    while i < s.len() && s[i] >= '0' as u8 && s[i] <= '9' as u8
        invariant
            from <= i <= s.len(),
            digit_run(s@, from as int) == (i - from) + digit_run(s@, i as int),
        decreases s.len() - i,
    {
        i += 1;
    }
    i
}

proof fn lemma_run_digits(s: Seq<u8>, from: int, k: int)
    requires
        0 <= from <= k < from + digit_run(s, from),
    ensures
        k < s.len(),
        is_digit(s[k]),
    decreases k - from,
{
    if k > from {
        lemma_run_digits(s, from + 1, k);
    }
}

/// The number that the first digits of `d` denote, cut off just beyond
/// `LIMIT`.
fn leading_value(d: &[u8], upto: usize) -> (acc: u64)
    requires
        upto <= d.len(),
        forall|k: int| 0 <= k < upto ==> is_digit(#[trigger] d[k]),
    ensures
        acc == capped(digits_value(d@.take(upto as int))),
{
    let mut acc: u64 = 0;
    let mut i: usize = 0;
    assert(d@.take(0) =~= Seq::<u8>::empty());
    while i < upto
        invariant
            i <= upto <= d.len(),
            forall|k: int| 0 <= k < upto ==> is_digit(#[trigger] d[k]),
            acc == capped(digits_value(d@.take(i as int))),
        decreases upto - i,
    {
        proof {
            lemma_take_step(d@, i as int);
        }
        let next: u64 = acc * 10 + (d[i] - '0' as u8) as u64;
        acc = if next > 1_000_000_000_000_000_000 { 1_000_000_000_000_000_001 } else { next };
        i += 1;
    }
    acc
}

/// `units_of`, cut off just beyond `LIMIT`.
fn units(d: &[u8], keep: i128) -> (r: u64)
    requires
        forall|k: int| 0 <= k < d.len() ==> is_digit(#[trigger] d[k]),
    ensures
        r == capped(units_of(d@, keep as int)),
{
    if keep < 0 {
        return 0;
    }
    let n = d.len();
    if keep < n as i128 {
        let at: usize = keep as usize;
        let acc = leading_value(d, at);
        if d[at] >= '5' as u8 && acc <= 1_000_000_000_000_000_000 {
            acc + 1
        } else {
            acc
        }
    } else {
        let base = leading_value(d, n);
        assert(d@.take(n as int) =~= d@);
        let pad: i128 = keep - n as i128;
        let mut acc: u64 = base;
        let mut j: i128 = 0;
        let ghost whole = digits_value(d@);
        assert(whole * pow10(0) == whole) by (nonlinear_arith)
            requires
                pow10(0) == 1,
        ;
        while j < pad && acc != 0 && acc <= 1_000_000_000_000_000_000
            invariant
                0 <= j <= pad,
                acc == capped(whole * pow10(j as nat)),
            decreases pad - j,
        {
            proof {
                assert(whole * pow10((j + 1) as nat) == whole * pow10(j as nat) * 10)
                    by (nonlinear_arith)
                    requires
                        pow10((j + 1) as nat) == 10 * pow10(j as nat),
                ;
            }
            let next: u64 = acc * 10;
            acc = if next > 1_000_000_000_000_000_000 { 1_000_000_000_000_000_001 } else { next };
            j += 1;
        }
        proof {
            lemma_pow10_grows(j as nat, pad as nat);
            let pj = pow10(j as nat);
            let pp = pow10(pad as nat);
            if acc == 0 {
                assert(whole * pj == 0);
                assert(whole == 0) by (nonlinear_arith)
                    requires
                        whole * pj == 0,
                        pj >= 1,
                ;
                assert(whole * pp == 0) by (nonlinear_arith)
                    requires
                        whole == 0,
                ;
            } else if j < pad {
                assert(whole * pj <= whole * pp) by (nonlinear_arith)
                    requires
                        pj <= pp,
                ;
            }
        }
        acc
    }
}

/// The number that the digits from `from` to the end denote, cut off at
/// ten to the power thirty.
fn exponent(s: &[u8], from: usize) -> (e: i128)
    requires
        from <= s.len(),
        forall|k: int| from <= k < s.len() ==> is_digit(#[trigger] s[k]),
    ensures
        0 <= e <= 1_000_000_000_000_000_000_000_000_000_000,
        e == if digits_value(s@.subrange(from as int, s.len() as int))
            > 1_000_000_000_000_000_000_000_000_000_000 {
            1_000_000_000_000_000_000_000_000_000_000
        } else {
            digits_value(s@.subrange(from as int, s.len() as int)) as int
        },
{
    let ghost run = s@.subrange(from as int, s.len() as int);
    let mut acc: i128 = 0;
    let mut i: usize = from;
    assert(run.take(0) =~= Seq::<u8>::empty());
    while i < s.len()
        invariant
            from <= i <= s.len(),
            run == s@.subrange(from as int, s.len() as int),
            forall|k: int| from <= k < s.len() ==> is_digit(#[trigger] s[k]),
            0 <= acc <= 1_000_000_000_000_000_000_000_000_000_000,
            acc == if digits_value(run.take(i - from)) > 1_000_000_000_000_000_000_000_000_000_000 {
                1_000_000_000_000_000_000_000_000_000_000
            } else {
                digits_value(run.take(i - from)) as int
            },
        decreases s.len() - i,
    {
        proof {
            lemma_take_step(run, i - from);
        }
        let next: i128 = acc * 10 + (s[i] - '0' as u8) as i128;
        acc = if next > 1_000_000_000_000_000_000_000_000_000_000 {
            1_000_000_000_000_000_000_000_000_000_000
        } else {
            next
        };
        i += 1;
    }
    assert(run.take(s.len() - from) =~= run);
    acc
}

proof fn lemma_far_point(d: Seq<u8>, k1: int, k2: int)
    requires
        k1 >= d.len() + 19,
        k2 >= d.len() + 19,
    ensures
        capped(units_of(d, k1)) == capped(units_of(d, k2)),
{
    let whole = digits_value(d);
    let reach1 = pow10((k1 - d.len()) as nat);
    let reach2 = pow10((k2 - d.len()) as nat);
    lemma_pow10_19();
    lemma_pow10_grows(19, (k1 - d.len()) as nat);
    lemma_pow10_grows(19, (k2 - d.len()) as nat);
    if whole == 0 {
        assert(whole * reach1 == 0) by (nonlinear_arith)
            requires
                whole == 0,
        ;
        assert(whole * reach2 == 0) by (nonlinear_arith)
            requires
                whole == 0,
        ;
    } else {
        assert(whole * reach1 >= reach1) by (nonlinear_arith)
            requires
                whole >= 1,
        ;
        assert(whole * reach2 >= reach2) by (nonlinear_arith)
            requires
                whole >= 1,
        ;
    }
}

/// Reads the exponent that starts at `at`; its value is cut off at ten to
/// the power thirty either way.
fn read_exponent(s: &[u8], at: usize) -> (r: Option<i128>)
    requires
        at <= s.len(),
    ensures
        match exponent_of(s@, at as int) {
            None => r is None,
            Some(e) => r matches Some(x) && x == if e > 1_000_000_000_000_000_000_000_000_000_000 {
                1_000_000_000_000_000_000_000_000_000_000
            } else if e < -1_000_000_000_000_000_000_000_000_000_000 {
                -1_000_000_000_000_000_000_000_000_000_000
            } else {
                e
            },
        },
{
    let n = s.len();
    if at == n {
        return Some(0);
    }
    if s[at] != 'e' as u8 && s[at] != 'E' as u8 {
        return None;
    }
    let signed = at + 1 < n && (s[at + 1] == '+' as u8 || s[at + 1] == '-' as u8);
    let e0: usize = if signed { at + 2 } else { at + 1 };
    let e1 = scan_digits(s, e0);
    if e1 == e0 || e1 != n {
        return None;
    }
    assert forall|k: int| e0 <= k < s.len() implies is_digit(#[trigger] s[k]) by {
        lemma_run_digits(s@, e0 as int, k);
    }
    let e = exponent(s, e0);
    if signed && s[at + 1] == '-' as u8 {
        Some(-e)
    } else {
        Some(e)
    }
}

proof fn lemma_cut_exponent(d: Seq<u8>, n_int: int, e: int, x: int)
    requires
        0 <= n_int <= d.len() <= 0x1_0000_0000_0000_0000,
        x == if e > 1_000_000_000_000_000_000_000_000_000_000 {
            1_000_000_000_000_000_000_000_000_000_000
        } else if e < -1_000_000_000_000_000_000_000_000_000_000 {
            -1_000_000_000_000_000_000_000_000_000_000
        } else {
            e
        },
    ensures
        capped(units_of(d, n_int + e + 9)) == capped(units_of(d, n_int + x + 9)),
{
    if e > 1_000_000_000_000_000_000_000_000_000_000 {
        lemma_far_point(d, n_int + e + 9, n_int + x + 9);
    }
}

/// Reads the mantissa: its digits, how many of them stand before the point,
/// and where it ends.
fn read_mantissa(s: &[u8]) -> (r: (Vec<u8>, usize, usize))
    ensures
        r.0@ == mantissa_digits(s@),
        r.1 == whole_end(s@) - sign_len(s@),
        r.2 == mantissa_end(s@),
        r.1 <= r.0.len(),
        r.2 <= s.len(),
        forall|k: int| 0 <= k < r.0.len() ==> is_digit(#[trigger] r.0[k]),
{
    let n = s.len();
    let i0: usize = if n > 0 && (s[0] == '+' as u8 || s[0] == '-' as u8) { 1 } else { 0 };
    let i1 = scan_digits(s, i0);
    let has_dot = i1 < n && s[i1] == '.' as u8;
    let f0: usize = if has_dot { i1 + 1 } else { i1 };
    let i2: usize = if has_dot { scan_digits(s, f0) } else { i1 };
    let mut d: Vec<u8> = Vec::new();
    append_range(&mut d, s, i0, i1);
    append_range(&mut d, s, f0, i2);
    assert(d@ =~= mantissa_digits(s@));
    assert forall|k: int| 0 <= k < d.len() implies is_digit(#[trigger] d[k]) by {
        if k < i1 - i0 {
            lemma_run_digits(s@, i0 as int, i0 + k);
        } else {
            lemma_run_digits(s@, f0 as int, f0 + (k - (i1 - i0)));
        }
    }
    (d, i1 - i0, i2)
}

/// Reads a decimal number: an optional sign, digits with an optional point
/// among them, and an optional exponent. The value is rounded to the nearest
/// billionth. `None` when the text is no such number or the number is out of
/// range.
pub fn parse_decimal(s: &[u8]) -> (r: Option<Fixed>)
    ensures
        match parse_units(s@) {
            None => r is None,
            Some(v) => r matches Some(f) && f@ == v,
        },
{
    let (d, whole, end) = read_mantissa(s);
    let shift = match read_exponent(s, end) {
        Some(x) => x,
        None => { return None; },
    };
    if d.len() == 0 {
        return None;
    }
    proof {
        lemma_cut_exponent(d@, whole as int, exponent_of(s@, end as int)->0, shift as int);
    }
    let m = units(d.as_slice(), whole as i128 + shift + 9);
    if m > 1_000_000_000_000_000_000 {
        return None;
    }
    let negative = s.len() > 0 && s[0] == '-' as u8;
    let signed_units: i64 = if negative { -(m as i64) } else { m as i64 };
    Some(Fixed::from_raw(signed_units))
}

/// A natural number in decimal digits, without leading zeros.
pub open spec fn nat_text(n: nat) -> Seq<u8>
    decreases n,
{
    if n < 10 {
        seq![('0' as u8 + n) as u8]
    } else {
        nat_text(n / 10).push(('0' as u8 + n % 10) as u8)
    }
}

/// Whether `unit` is the weight of one of the nine decimal places.
pub open spec fn is_place(unit: nat) -> bool {
    unit == 1 || unit == 10 || unit == 100 || unit == 1_000 || unit == 10_000 || unit == 100_000
        || unit == 1_000_000 || unit == 10_000_000 || unit == 100_000_000
}

/// The digits of the fraction `f / (10 * unit)`, without trailing zeros.
pub open spec fn frac_text(f: nat, unit: nat) -> Seq<u8>
    decreases unit,
{
    if f == 0 || unit == 0 {
        Seq::empty()
    } else {
        seq![('0' as u8 + f / unit) as u8] + frac_text(f % unit, unit / 10)
    }
}

/// A count of billionths in decimal notation: a minus sign where it is
/// negative, the whole part, and, where the number is not whole, a point and
/// the fraction without trailing zeros.
pub open spec fn decimal_text(v: int) -> Seq<u8> {
    let m = if v < 0 { -v } else { v };
    let sign = if v < 0 { seq!['-' as u8] } else { Seq::empty() };
    let f = m % (SCALE as int);
    let fraction = if f == 0 {
        Seq::empty()
    } else {
        seq!['.' as u8] + frac_text(f as nat, 100_000_000)
    };
    sign + nat_text((m / (SCALE as int)) as nat) + fraction
}

fn write_nat(n: u64, out: &mut Vec<u8>)
    ensures
        final(out)@ == old(out)@ + nat_text(n as nat),
    decreases n,
{
    if n >= 10 {
        write_nat(n / 10, out);
    }
    out.push('0' as u8 + (n % 10) as u8);
    assert(out@ =~= old(out)@ + nat_text(n as nat));
}

fn write_frac(f: u64, unit: u64, out: &mut Vec<u8>)
    requires
        f == 0 || f < 10 * unit,
        unit == 0 || is_place(unit as nat),
    ensures
        final(out)@ == old(out)@ + frac_text(f as nat, unit as nat),
    decreases unit,
{
    if f != 0 && unit != 0 {
        assert(f / unit < 10) by (nonlinear_arith)
            requires
                f < 10 * unit,
                unit > 0,
        ;
        out.push('0' as u8 + (f / unit) as u8);
        write_frac(f % unit, unit / 10, out);
    }
    assert(out@ =~= old(out)@ + frac_text(f as nat, unit as nat));
}

/// Writes `value` in decimal notation.
pub fn write_decimal(value: Fixed, out: &mut Vec<u8>)
    ensures
        final(out)@ == old(out)@ + decimal_text(value@),
{
    let raw = value.raw();
    let m: u64 = if raw < 0 { (-raw) as u64 } else { raw as u64 };
    if raw < 0 {
        out.push('-' as u8);
    }
    write_nat(m / 1_000_000_000, out);
    let f = m % 1_000_000_000;
    if f != 0 {
        out.push('.' as u8);
        write_frac(f, 100_000_000, out);
    }
    assert(out@ =~= old(out)@ + decimal_text(value@));
}

proof fn lemma_pow10_sum(a: nat, b: nat)
    ensures
        pow10(a + b) == pow10(a) * pow10(b),
    decreases a,
{
    if a == 0 {
        assert(pow10(0) * pow10(b) == pow10(b)) by (nonlinear_arith)
            requires
                pow10(0) == 1,
        ;
    } else {
        lemma_pow10_sum((a - 1) as nat, b);
        assert(10 * (pow10((a - 1) as nat) * pow10(b)) == (10 * pow10((a - 1) as nat)) * pow10(b))
            by (nonlinear_arith);
    }
}

/// The value of two runs of digits, one after the other.
proof fn lemma_digits_concat(a: Seq<u8>, b: Seq<u8>)
    ensures
        digits_value(a + b) == digits_value(a) * pow10(b.len()) + digits_value(b),
    decreases b.len(),
{
    if b.len() == 0 {
        assert(a + b =~= a);
        assert(digits_value(a) * pow10(0) == digits_value(a)) by (nonlinear_arith)
            requires
                pow10(0) == 1,
        ;
    } else {
        let front = b.drop_last();
        assert((a + b).drop_last() =~= a + front);
        lemma_digits_concat(a, front);
        let x = digits_value(a);
        let p = pow10(front.len());
        let y = digits_value(front);
        assert((x * p + y) * 10 == x * (10 * p) + y * 10) by (nonlinear_arith);
    }
}

/// A run of digits that something else follows, or nothing, ends there.
proof fn lemma_digit_run_exact(s: Seq<u8>, from: int, n: int)
    requires
        0 <= from,
        0 <= n,
        from + n <= s.len(),
        forall|k: int| from <= k < from + n ==> is_digit(#[trigger] s[k]),
        from + n == s.len() || !is_digit(s[from + n]),
    ensures
        digit_run(s, from) == n,
    decreases n,
{
    if n > 0 {
        lemma_digit_run_exact(s, from + 1, n - 1);
    }
}

/// The text of a natural number is made of digits and denotes the number.
proof fn lemma_nat_text(n: nat)
    ensures
        nat_text(n).len() >= 1,
        forall|k: int| 0 <= k < nat_text(n).len() ==> is_digit(#[trigger] nat_text(n)[k]),
        digits_value(nat_text(n)) == n,
    decreases n,
{
    if n < 10 {
        let t = seq![('0' as u8 + n) as u8];
        assert(t.drop_last() =~= Seq::<u8>::empty());
        reveal_with_fuel(digits_value, 2);
    } else {
        lemma_nat_text(n / 10);
        let t = nat_text(n);
        assert(t.drop_last() =~= nat_text(n / 10));
    }
}

/// How many decimal places there are from the place of weight `unit` down.
pub open spec fn places(unit: nat) -> nat
    decreases unit,
{
    if unit == 0 {
        0
    } else {
        1 + places(unit / 10)
    }
}

proof fn lemma_place_weight(unit: nat)
    requires
        is_place(unit),
    ensures
        pow10((places(unit) - 1) as nat) == unit,
        places(unit) >= 1,
        unit >= 10 ==> is_place(unit / 10),
{
    reveal_with_fuel(places, 11);
    reveal_with_fuel(pow10, 11);
}

/// The text of a fraction is made of digits, has no more of them than there
/// are places, and denotes the fraction once the places it leaves out are
/// filled with zeros.
proof fn lemma_frac_text(f: nat, unit: nat)
    requires
        unit == 0 || is_place(unit),
        f == 0 || f < 10 * unit,
    ensures
        frac_text(f, unit).len() <= places(unit),
        f != 0 ==> frac_text(f, unit).len() >= 1,
        forall|k: int| 0 <= k < frac_text(f, unit).len() ==> is_digit(#[trigger] frac_text(f, unit)[k]),
        digits_value(frac_text(f, unit)) * pow10((places(unit) - frac_text(f, unit).len()) as nat)
            == f,
    decreases unit,
{
    let t = frac_text(f, unit);
    if f == 0 || unit == 0 {
        assert(digits_value(t) * pow10((places(unit) - t.len()) as nat) == 0) by (nonlinear_arith)
            requires
                digits_value(t) == 0,
        ;
    } else {
        lemma_place_weight(unit);
        let d = f / unit;
        let rest_f = f % unit;
        let rest = frac_text(rest_f, unit / 10);
        assert(d < 10) by (nonlinear_arith)
            requires
                d == f / unit,
                f < 10 * unit,
                unit > 0,
        ;
        assert(f == d * unit + rest_f) by (nonlinear_arith)
            requires
                d == f / unit,
                rest_f == f % unit,
                unit > 0,
        ;
        assert(rest_f == 0 || rest_f < 10 * (unit / 10));
        lemma_frac_text(rest_f, unit / 10);
        let head = seq![('0' as u8 + d) as u8];
        assert(t == head + rest);
        assert forall|k: int| 0 <= k < t.len() implies is_digit(#[trigger] t[k]) by {
            if k > 0 {
                assert(t[k] == rest[k - 1]);
            }
        }
        lemma_digits_concat(head, rest);
        assert(digits_value(head) == d) by {
            assert(head.drop_last() =~= Seq::<u8>::empty());
            reveal_with_fuel(digits_value, 2);
        }
        let gap = (places(unit) - t.len()) as nat;
        assert(places(unit) == 1 + places(unit / 10));
        assert(gap == places(unit / 10) - rest.len());
        lemma_pow10_sum(rest.len(), gap);
        assert(rest.len() + gap == places(unit) - 1);
        let pr = pow10(rest.len());
        let pg = pow10(gap);
        let vr = digits_value(rest);
        assert((d * pr + vr) * pg == d * (pr * pg) + vr * pg) by (nonlinear_arith);
    }
}

/// A number is written with digits, a minus sign and a point alone.
pub proof fn lemma_decimal_text_is_plain(v: int)
    requires
        in_range(v),
    ensures
        decimal_text(v).len() >= 1,
        forall|k: int|
            0 <= k < decimal_text(v).len() ==> is_digit(#[trigger] decimal_text(v)[k])
                || decimal_text(v)[k] == '-' as u8 || decimal_text(v)[k] == '.' as u8,
{
    let m = if v < 0 { -v } else { v };
    let whole = (m / (SCALE as int)) as nat;
    let f = (m % (SCALE as int)) as nat;
    let sign: Seq<u8> = if v < 0 { seq!['-' as u8] } else { Seq::empty() };
    let int_text = nat_text(whole);
    let frac_digits = frac_text(f, 100_000_000);
    let fraction: Seq<u8> = if f == 0 { Seq::empty() } else { seq!['.' as u8] + frac_digits };
    let t = decimal_text(v);
    assert(t == sign + int_text + fraction);
    lemma_nat_text(whole);
    lemma_frac_text(f, 100_000_000);
    assert forall|k: int| 0 <= k < t.len() implies is_digit(#[trigger] t[k]) || t[k] == '-' as u8
        || t[k] == '.' as u8 by {
        if k < sign.len() {
        } else if k < sign.len() + int_text.len() {
            assert(t[k] == int_text[k - sign.len()]);
        } else if k == sign.len() + int_text.len() {
        } else {
            assert(t[k] == frac_digits[k - sign.len() - int_text.len() - 1]);
        }
    }
}

/// Reading what was written gives the number back: the decimal notation of
/// any number in range parses to that number.
pub proof fn law_written_number_reads_back(v: int)
    requires
        in_range(v),
    ensures
        parse_units(decimal_text(v)) == Some(v),
{
    let m = if v < 0 { -v } else { v };
    let whole = (m / (SCALE as int)) as nat;
    let f = (m % (SCALE as int)) as nat;
    let sign: Seq<u8> = if v < 0 { seq!['-' as u8] } else { Seq::empty() };
    let int_text = nat_text(whole);
    let frac_digits = frac_text(f, 100_000_000);
    let fraction: Seq<u8> = if f == 0 { Seq::empty() } else { seq!['.' as u8] + frac_digits };
    let t = decimal_text(v);
    assert(t == sign + int_text + fraction);
    lemma_nat_text(whole);
    lemma_frac_text(f, 100_000_000);
    lemma_place_weight(100_000_000);
    assert(places(100_000_000) == 9) by {
        reveal_with_fuel(places, 11);
    }
    let s0 = sign.len() as int;
    let s1 = s0 + int_text.len();
    assert forall|k: int| s0 <= k < s1 implies is_digit(#[trigger] t[k]) by {
        assert(t[k] == int_text[k - s0]);
    }
    assert(t[s0] == int_text[0]);
    assert(sign_len(t) == s0);
    if f == 0 {
        assert(frac_digits.len() == 0);
        assert(t.len() == s1);
        lemma_digit_run_exact(t, s0, int_text.len() as int);
        assert(mantissa_digits(t) =~= int_text + frac_digits);
    } else {
        assert(t[s1] == '.' as u8);
        lemma_digit_run_exact(t, s0, int_text.len() as int);
        assert forall|k: int| s1 + 1 <= k < t.len() implies is_digit(#[trigger] t[k]) by {
            assert(t[k] == frac_digits[k - s1 - 1]);
        }
        lemma_digit_run_exact(t, s1 + 1, frac_digits.len() as int);
        assert(mantissa_digits(t) =~= int_text + frac_digits);
    }
    assert(mantissa_end(t) == t.len());
    let digits = int_text + frac_digits;
    lemma_digits_concat(int_text, frac_digits);
    let gap = (9 - frac_digits.len()) as nat;
    lemma_pow10_sum(frac_digits.len(), gap);
    assert(pow10(9) == 1_000_000_000) by {
        reveal_with_fuel(pow10, 10);
    }
    let pf = pow10(frac_digits.len());
    let pg = pow10(gap);
    let vf = digits_value(frac_digits);
    assert((whole * pf + vf) * pg == whole * (pf * pg) + vf * pg) by (nonlinear_arith);
    assert(frac_digits.len() + gap == 9);
    assert(pf * pg == 1_000_000_000);
    assert(vf * pg == f);
    assert(whole * (pf * pg) == whole * 1_000_000_000) by (nonlinear_arith)
        requires
            pf * pg == 1_000_000_000,
    ;
    assert(m == whole * 1_000_000_000 + f);
    assert(digits_value(digits) == whole * pf + vf);
    let keep = int_text.len() as int + 9;
    assert(keep >= digits.len());
    assert((keep - digits.len()) as nat == gap);
    assert(units_of(digits, keep) == digits_value(digits) * pow10(gap));
    assert(units_of(digits, keep) == m);
    assert(lex(t) == Some(Lexed { negative: v < 0, digits, whole: int_text.len() as int }));
}

} // verus!
