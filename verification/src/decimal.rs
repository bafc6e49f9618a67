//! Exact decimal numbers in the shape of `rust_decimal::Decimal`: a signed 96-bit mantissa
//! and a decimal scale of at most 28 digits. The value of a number is `mant / 10^scale`;
//! in specifications it is expressed as an integer count of `10^-28` units (`val`).
//!
//! Addition, subtraction, negation, multiplication, comparison and rounding are exact and
//! proved here; they fail (`None`) exactly where the exact result leaves the 96-bit range at
//! the result scale. Parsing, rendering and division are done by `rust_decimal` itself.

use vstd::prelude::*;
use vstd::arithmetic::div_mod::*;
use vstd::arithmetic::mul::*;
use rust_decimal::Decimal;
use std::str::FromStr;

verus! {

/// Largest scale (number of fractional digits).
pub const MAX_SCALE: u32 = 28;

/// Largest magnitude of a mantissa (2^96 - 1).
pub const MAX_MANT: i128 = 79228162514264337593543950335;

/// 10^28, the unit count of the number one.
pub const TEN_POW_28: i128 = 10000000000000000000000000000;

/// `10^n`.
pub open spec fn pow10(n: nat) -> int
    decreases n,
{
    if n == 0 {
        1
    } else {
        10 * pow10((n - 1) as nat)
    }
}

pub proof fn lemma_pow10_pos(n: nat)
    ensures
        pow10(n) >= 1,
    decreases n,
{
    if n > 0 {
        lemma_pow10_pos((n - 1) as nat);
    }
}

pub proof fn lemma_pow10_add(a: nat, b: nat)
    ensures
        pow10(a + b) == pow10(a) * pow10(b),
    decreases a,
{
    if a > 0 {
        lemma_pow10_add((a - 1) as nat, b);
        assert(((a + b) - 1) as nat == ((a - 1) as nat + b) as nat);
        lemma_mul_is_associative(10, pow10((a - 1) as nat), pow10(b));
    }
}

pub proof fn lemma_pow10_mono(a: nat, b: nat)
    requires
        a <= b,
    ensures
        pow10(a) <= pow10(b),
    decreases b,
{
    if a < b {
        lemma_pow10_mono(a, (b - 1) as nat);
        lemma_pow10_pos((b - 1) as nat);
    }
}

pub proof fn lemma_pow10_28()
    ensures
        pow10(28) == TEN_POW_28,
{
    reveal_with_fuel(pow10, 29);
}

/// `10^k` is even and at least 10 for k >= 1.
pub proof fn lemma_pow10_even(k: nat)
    requires
        k >= 1,
    ensures
        pow10(k) % 2 == 0,
        pow10(k) >= 10,
{
    lemma_pow10_pos((k - 1) as nat);
    assert(pow10(k) == 10 * pow10((k - 1) as nat));
}

/// `10^n` as a machine integer.
pub fn pow10_exec(n: u32) -> (r: i128)
    requires
        n <= MAX_SCALE,
    ensures
        r == pow10(n as nat),
        1 <= r <= TEN_POW_28,
{
    proof {
        lemma_pow10_28();
    }
    let mut r: i128 = 1;
    let mut i: u32 = 0;
    while i < n
        invariant
            i <= n <= MAX_SCALE,
            r == pow10(i as nat),
            1 <= r <= TEN_POW_28,
            pow10(28) == TEN_POW_28,
        decreases n - i,
    {
        proof {
            lemma_pow10_mono((i + 1) as nat, 28);
        }
        assert(pow10((i + 1) as nat) == 10 * pow10(i as nat));
        r = r * 10;
        i = i + 1;
    }
    r
}

/// A decimal number `mant * 10^-scale`.
#[derive(Clone, Copy, Debug, PartialEq, Eq, Structural)]
pub struct Dec {
    pub mant: i128,
    pub scale: u32,
}

/// Magnitude of an integer.
pub open spec fn abs_int(x: int) -> int {
    if x < 0 {
        -x
    } else {
        x
    }
}

/// The larger of two scales.
pub open spec fn max_scale(a: u32, b: u32) -> u32 {
    if a >= b {
        a
    } else {
        b
    }
}

/// `v` (in `10^-28` units) is representable with a 96-bit mantissa at scale `s`.
pub open spec fn fits_at(v: int, s: nat) -> bool {
    -(MAX_MANT as int) * pow10((28 - s) as nat) <= v <= (MAX_MANT as int) * pow10((28 - s) as nat)
}

impl Dec {
    /// Scale and mantissa are within the ranges of `rust_decimal::Decimal`.
    pub open spec fn wf(self) -> bool {
        &&& self.scale <= MAX_SCALE
        &&& -MAX_MANT <= self.mant <= MAX_MANT
    }

    /// The value in units of `10^-28`.
    pub open spec fn val(self) -> int {
        self.mant * pow10((28 - self.scale) as nat)
    }

    /// Zero (scale 0).
    pub fn zero() -> (r: Dec)
        ensures
            r.wf(),
            r.val() == 0,
            r.mant == 0,
            r.scale == 0,
    {
        Dec { mant: 0, scale: 0 }
    }

    /// Builds a number from a mantissa and a scale; `None` outside the ranges of `wf`.
    pub fn new(mant: i128, scale: u32) -> (r: Option<Dec>)
        ensures
            r is Some <==> (scale <= MAX_SCALE && -MAX_MANT <= mant <= MAX_MANT),
            r matches Some(d) ==> d.mant == mant && d.scale == scale && d.wf(),
    {
        if scale <= MAX_SCALE && -MAX_MANT <= mant && mant <= MAX_MANT {
            Some(Dec { mant, scale })
        } else {
            None
        }
    }

    /// An integer number (scale 0).
    pub fn from_int(n: i64) -> (r: Dec)
        ensures
            r.wf(),
            r.mant == n,
            r.scale == 0,
    {
        Dec { mant: n as i128, scale: 0 }
    }

    pub fn mantissa(&self) -> (r: i128)
        ensures
            r == self.mant,
    {
        self.mant
    }

    pub fn scale(&self) -> (r: u32)
        ensures
            r == self.scale,
    {
        self.scale
    }

    pub fn is_zero(&self) -> (r: bool)
        requires
            self.wf(),
        ensures
            r == (self.val() == 0),
    {
        proof {
            lemma_val_sign(*self);
        }
        self.mant == 0
    }

    pub fn is_positive(&self) -> (r: bool)
        requires
            self.wf(),
        ensures
            r == (self.val() > 0),
    {
        proof {
            lemma_val_sign(*self);
        }
        self.mant > 0
    }

    pub fn is_negative(&self) -> (r: bool)
        requires
            self.wf(),
        ensures
            r == (self.val() < 0),
    {
        proof {
            lemma_val_sign(*self);
        }
        self.mant < 0
    }

    /// `-self`, same scale.
    pub fn neg(&self) -> (r: Dec)
        requires
            self.wf(),
        ensures
            r.wf(),
            r.val() == -self.val(),
            r.scale == self.scale,
            r.mant == -self.mant,
    {
        proof {
            lemma_mul_unary_negation(self.mant as int, pow10((28 - self.scale) as nat));
        }
        Dec { mant: -self.mant, scale: self.scale }
    }

    /// `|self|`, same scale.
    pub fn abs(&self) -> (r: Dec)
        requires
            self.wf(),
        ensures
            r.wf(),
            r.val() == abs_int(self.val()),
            r.scale == self.scale,
            r == spec_abs(*self),
    {
        proof {
            lemma_val_sign(*self);
        }
        if self.mant < 0 {
            self.neg()
        } else {
            *self
        }
    }
}

/// The negation of a number has the opposite value.
pub proof fn lemma_neg_val(d: Dec)
    requires
        d.wf(),
    ensures
        (Dec { mant: -d.mant as i128, scale: d.scale }).wf(),
        (Dec { mant: -d.mant as i128, scale: d.scale }).val() == -d.val(),
{
    lemma_mul_unary_negation(d.mant as int, pow10((28 - d.scale) as nat));
}

/// The negation of a number, at its scale.
pub open spec fn spec_dec_neg(d: Dec) -> Dec {
    Dec { mant: -d.mant as i128, scale: d.scale }
}

/// Adding two negated numbers gives the negated sum, and fails exactly when the sum fails.
pub proof fn lemma_add_neg(a: Dec, b: Dec)
    requires
        a.wf(),
        b.wf(),
    ensures
        spec_dec_add(spec_dec_neg(a), spec_dec_neg(b)) == (match spec_dec_add(a, b) {
            Some(c) => Some(spec_dec_neg(c)),
            None => None::<Dec>,
        }),
{
    lemma_neg_val(a);
    lemma_neg_val(b);
    lemma_spec_add(a, b);
    if a.mant != 0 && b.mant != 0 {
        if let Some(c) = spec_dec_add_exact(a, b) {
            lemma_neg_val(c);
            lemma_mant_of_val(spec_dec_neg(c));
        }
    }
}

/// The value of a difference.
pub proof fn lemma_spec_sub(a: Dec, b: Dec)
    requires
        a.wf(),
        b.wf(),
    ensures
        spec_dec_sub(a, b) matches Some(c) ==> c.wf() && c.val() == a.val() - b.val(),
        sub_is_exact(a, b) ==> spec_dec_sub(a, b) is Some,
{
    lemma_neg_val(b);
    lemma_spec_add(a, Dec { mant: -b.mant as i128, scale: b.scale });
}

/// A difference that does not fit is larger in magnitude than the largest mantissa
/// (in `10^-28` units), so larger than 7.9.
pub proof fn lemma_sub_none_large(a: Dec, b: Dec)
    requires
        a.wf(),
        b.wf(),
    ensures
        spec_dec_sub(a, b) is None ==> abs_int(a.val() - b.val()) > MAX_MANT,
{
    lemma_neg_val(b);
    let s = max_scale(a.scale, b.scale);
    let p = pow10((28 - s) as nat);
    lemma_pow10_pos((28 - s) as nat);
    assert((MAX_MANT as int) * p >= MAX_MANT) by (nonlinear_arith)
        requires
            p >= 1,
    ;
}

/// `|d|` at the same scale.
pub open spec fn spec_abs(d: Dec) -> Dec {
    if d.mant < 0 {
        Dec { mant: -d.mant as i128, scale: d.scale }
    } else {
        d
    }
}

/// The sign of a value is the sign of its mantissa.
pub proof fn lemma_val_sign(d: Dec)
    requires
        d.wf(),
    ensures
        (d.val() == 0) == (d.mant == 0),
        (d.val() > 0) == (d.mant > 0),
        (d.val() < 0) == (d.mant < 0),
{
    let p = pow10((28 - d.scale) as nat);
    lemma_pow10_pos((28 - d.scale) as nat);
    let m = d.mant as int;
    assert((m * p == 0) == (m == 0) && (m * p > 0) == (m > 0) && (m * p < 0) == (m < 0))
        by (nonlinear_arith)
        requires
            p >= 1,
    ;
}

/// The value of a number equals its mantissa scaled to a larger scale.
pub proof fn lemma_val_at(m: int, s: nat, k: nat)
    requires
        s + k <= 28,
    ensures
        m * pow10((28 - s) as nat) == (m * pow10(k)) * pow10((28 - (s + k)) as nat),
{
    lemma_pow10_add(k, (28 - (s + k)) as nat);
    assert((k + (28 - (s + k)) as nat) as nat == (28 - s) as nat);
    lemma_mul_is_associative(m, pow10(k), pow10((28 - (s + k)) as nat));
}

/// Scales a mantissa up by `k` digits, provided the result stays within twice the mantissa
/// range.
fn align_up(m: i128, k: u32) -> (r: Option<i128>)
    requires
        -MAX_MANT <= m <= MAX_MANT,
        k <= MAX_SCALE,
    ensures
        r matches Some(x) ==> x == m * pow10(k as nat) && -2 * MAX_MANT <= x <= 2 * MAX_MANT,
        r is None ==> abs_int(m * pow10(k as nat)) > 2 * MAX_MANT,
{
    let p = pow10_exec(k);
    let lim: i128 = (2 * MAX_MANT) / p;
    let am: i128 = if m < 0 { -m } else { m };
    proof {
        lemma_fundamental_div_mod(2 * MAX_MANT as int, p as int);
        lemma_mod_pos_bound(2 * MAX_MANT as int, p as int);
    }
    if am > lim {
        proof {
            assert(am >= lim + 1);
            assert(am * p >= (lim + 1) * p) by (nonlinear_arith)
                requires
                    am >= lim + 1,
                    p >= 1,
            ;
            assert((lim + 1) * p == lim * p + p) by (nonlinear_arith);
            assert(lim * p == p * lim) by (nonlinear_arith);
            if m < 0 {
                assert(m * p == -(am * p)) by (nonlinear_arith)
                    requires
                        am == -m,
                ;
            }
        }
        None
    } else {
        proof {
            assert(0 <= am * p <= lim * p) by (nonlinear_arith)
                requires
                    0 <= am <= lim,
                    p >= 1,
            ;
            assert(lim * p == p * lim) by (nonlinear_arith);
            if m < 0 {
                assert(m * p == -(am * p)) by (nonlinear_arith)
                    requires
                        am == -m,
                ;
            } else {
                assert(m * p == am * p);
            }
        }
        Some(m * p)
    }
}

/// The exact sum at the larger scale, when it fits a 96-bit mantissa there.
pub open spec fn spec_dec_add_exact(a: Dec, b: Dec) -> Option<Dec> {
    let s = max_scale(a.scale, b.scale);
    if fits_at(a.val() + b.val(), s as nat) {
        Some(Dec { mant: ((a.val() + b.val()) / pow10((28 - s) as nat)) as i128, scale: s })
    } else {
        None
    }
}

/// The sum is computed without rounding: an operand is zero, or the exact sum fits a
/// 96-bit mantissa at the larger scale.
pub open spec fn add_is_exact(a: Dec, b: Dec) -> bool {
    a.mant == 0 || b.mant == 0 || fits_at(a.val() + b.val(), max_scale(a.scale, b.scale) as nat)
}

/// `a + b` as `rust_decimal` adds when no rounding is needed: the other operand unchanged
/// (scale included) when one is zero, else the exact sum at the larger scale; `None` when
/// that sum does not fit a 96-bit mantissa there.
pub open spec fn spec_dec_add(a: Dec, b: Dec) -> Option<Dec> {
    if a.mant == 0 {
        Some(b)
    } else if b.mant == 0 {
        Some(a)
    } else {
        spec_dec_add_exact(a, b)
    }
}

/// The difference is computed without rounding.
pub open spec fn sub_is_exact(a: Dec, b: Dec) -> bool {
    add_is_exact(a, Dec { mant: -b.mant as i128, scale: b.scale })
}

/// `a - b`, which `rust_decimal` computes as `a + (-b)` (`add_sub_internal`).
pub open spec fn spec_dec_sub(a: Dec, b: Dec) -> Option<Dec> {
    spec_dec_add(a, Dec { mant: -b.mant as i128, scale: b.scale })
}

/// Zero has value zero at any scale.
pub proof fn lemma_zero_val(s: u32)
    ensures
        (Dec { mant: 0, scale: s }).val() == 0,
{
    lemma_mul_basics(pow10((28 - s) as nat));
}

/// A number's mantissa is its value divided by the unit of its scale.
pub proof fn lemma_mant_of_val(c: Dec)
    requires
        c.scale <= 28,
    ensures
        c.val() / pow10((28 - c.scale) as nat) == c.mant,
{
    let p = pow10((28 - c.scale) as nat);
    lemma_pow10_pos((28 - c.scale) as nat);
    lemma_div_multiples_vanish(c.mant as int, p);
    lemma_mul_is_commutative(c.mant as int, p);
}

/// What the value of a sum is.
pub proof fn lemma_spec_add(a: Dec, b: Dec)
    requires
        a.wf(),
        b.wf(),
    ensures
        spec_dec_add(a, b) matches Some(c) ==> c.wf() && c.val() == a.val() + b.val(),
        add_is_exact(a, b) ==> spec_dec_add(a, b) is Some,
        spec_dec_add_exact(a, b) matches Some(c) ==> c.wf() && c.val() == a.val() + b.val() && c.scale
            == max_scale(a.scale, b.scale),
{
    lemma_zero_val(a.scale);
    lemma_zero_val(b.scale);
    let s = max_scale(a.scale, b.scale);
    let p = pow10((28 - s) as nat);
    lemma_pow10_pos((28 - s) as nat);
    if fits_at(a.val() + b.val(), s as nat) {
        // a.val() + b.val() is a multiple of p
        lemma_val_at(a.mant as int, a.scale as nat, (s - a.scale) as nat);
        lemma_val_at(b.mant as int, b.scale as nat, (s - b.scale) as nat);
        let x = a.mant * pow10((s - a.scale) as nat);
        let y = b.mant * pow10((s - b.scale) as nat);
        assert(a.val() + b.val() == (x + y) * p) by (nonlinear_arith)
            requires
                a.val() == x * p,
                b.val() == y * p,
        ;
        lemma_div_multiples_vanish(x + y, p);
        lemma_mul_is_commutative(x + y, p);
        assert(-(MAX_MANT as int) <= x + y <= MAX_MANT) by (nonlinear_arith)
            requires
                -(MAX_MANT as int) * p <= (x + y) * p <= (MAX_MANT as int) * p,
                p >= 1,
        ;
    }
}

/// `a + b`, exact, at the larger scale of the two; `None` when the exact sum does not fit
/// a 96-bit mantissa at that scale.
pub fn dec_add(a: Dec, b: Dec) -> (r: Option<Dec>)
    requires
        a.wf(),
        b.wf(),
    ensures
        r == spec_dec_add(a, b),
        r matches Some(c) ==> c.wf() && c.val() == a.val() + b.val(),
        r is None <==> !add_is_exact(a, b),
{
    proof {
        lemma_spec_add(a, b);
    }
    if a.mant == 0 {
        return Some(b);
    }
    if b.mant == 0 {
        return Some(a);
    }
    let r = dec_add_inner(a, b);
    proof {
        if let Some(c) = r {
            lemma_mant_of_val(c);
        }
    }
    r
}

fn dec_add_inner(a: Dec, b: Dec) -> (r: Option<Dec>)
    requires
        a.wf(),
        b.wf(),
    ensures
        r matches Some(c) ==> c.wf() && c.scale == max_scale(a.scale, b.scale) && c.val() == a.val()
            + b.val(),
        r is None <==> !fits_at(a.val() + b.val(), max_scale(a.scale, b.scale) as nat),
{
    let s = if a.scale >= b.scale { a.scale } else { b.scale };
    let ka = s - a.scale;
    let kb = s - b.scale;
    let ghost p = pow10((28 - s) as nat);
    proof {
        lemma_pow10_pos((28 - s) as nat);
        lemma_val_at(a.mant as int, a.scale as nat, ka as nat);
        lemma_val_at(b.mant as int, b.scale as nat, kb as nat);
        assert(ka == 0 || kb == 0);
        reveal_with_fuel(pow10, 1);
    }
    let oa = align_up(a.mant, ka);
    let ob = align_up(b.mant, kb);
    match (oa, ob) {
        (Some(am), Some(bm)) => {
            let sum: i128 = am + bm;
            proof {
                assert(a.val() + b.val() == sum * p) by (nonlinear_arith)
                    requires
                        a.val() == am * p,
                        b.val() == bm * p,
                        sum == am + bm,
                ;
            }
            if -MAX_MANT <= sum && sum <= MAX_MANT {
                proof {
                    assert(-(MAX_MANT as int) * p <= sum * p <= (MAX_MANT as int) * p)
                        by (nonlinear_arith)
                        requires
                            -MAX_MANT <= sum <= MAX_MANT,
                            p >= 1,
                    ;
                }
                Some(Dec { mant: sum, scale: s })
            } else {
                proof {
                    if sum > MAX_MANT {
                        assert(sum * p > (MAX_MANT as int) * p) by (nonlinear_arith)
                            requires
                                sum > MAX_MANT,
                                p >= 1,
                        ;
                    } else {
                        assert(sum * p < -(MAX_MANT as int) * p) by (nonlinear_arith)
                            requires
                                sum < -MAX_MANT,
                                p >= 1,
                        ;
                    }
                }
                None
            }
        },
        _ => {
            proof {
                // one side was shifted beyond twice the range; the other is unshifted
                let ghost x = a.mant * pow10(ka as nat);
                let ghost y = b.mant * pow10(kb as nat);
                if oa is None {
                    assert(kb == 0) by {
                        if ka == 0 {
                            assert(x == a.mant as int);
                        }
                    }
                    assert(y == b.mant as int);
                } else {
                    assert(ka == 0) by {
                        if kb == 0 {
                            assert(y == b.mant as int);
                        }
                    }
                    assert(x == a.mant as int);
                }
                assert(abs_int(x + y) > MAX_MANT);
                assert(a.val() + b.val() == (x + y) * p) by (nonlinear_arith)
                    requires
                        a.val() == x * p,
                        b.val() == y * p,
                ;
                if x + y > MAX_MANT {
                    assert((x + y) * p > (MAX_MANT as int) * p) by (nonlinear_arith)
                        requires
                            x + y > MAX_MANT,
                            p >= 1,
                    ;
                } else {
                    assert((x + y) * p < -(MAX_MANT as int) * p) by (nonlinear_arith)
                        requires
                            x + y < -MAX_MANT,
                            p >= 1,
                    ;
                }
            }
            None
        },
    }
}

/// `a - b`, exact, at the larger scale; `None` when it does not fit.
pub fn dec_sub(a: Dec, b: Dec) -> (r: Option<Dec>)
    requires
        a.wf(),
        b.wf(),
    ensures
        r == spec_dec_sub(a, b),
        r matches Some(c) ==> c.wf() && c.val() == a.val() - b.val(),
        r is None <==> !sub_is_exact(a, b),
{
    proof {
        lemma_spec_sub(a, b);
    }
    dec_add(a, b.neg())
}


/// The exact product fits: its scale is at most 28 and its mantissa within 96 bits.
pub open spec fn mul_exact_fits(a: Dec, b: Dec) -> bool {
    a.scale + b.scale <= MAX_SCALE && abs_int(a.mant * b.mant) <= MAX_MANT
}

/// `a.checked_mul(b)`: zero (scale 0) when a factor is zero; the exact product (mantissas
/// multiplied, scales added) when it fits; otherwise the product that `rust_decimal` rounds
/// to fit, or `None` when it cannot.
pub open spec fn spec_dec_mul(a: Dec, b: Dec) -> Option<Dec> {
    if a.mant == 0 || b.mant == 0 {
        Some(Dec { mant: 0, scale: 0 })
    } else if mul_exact_fits(a, b) {
        Some(Dec { mant: (a.mant * b.mant) as i128, scale: (a.scale + b.scale) as u32 })
    } else {
        match decimal_checked_mul(a.mant, a.scale, b.mant, b.scale) {
            Some((m, sc)) => if (Dec { mant: m, scale: sc }).wf() { Some(Dec { mant: m, scale: sc }) } else { None },
            None => None,
        }
    }
}

/// `a * b` as `rust_decimal` computes it (see `spec_dec_mul`); exact whenever the exact
/// product fits.
pub fn dec_mul(a: Dec, b: Dec) -> (r: Option<Dec>)
    requires
        a.wf(),
        b.wf(),
    ensures
        r == spec_dec_mul(a, b),
        r matches Some(c) ==> c.wf(),
        mul_exact_fits(a, b) ==> (r matches Some(c) && c.val() * pow10(28) == a.val() * b.val()),
{
    let r = checked_mul(a, b);
    proof {
        if mul_exact_fits(a, b) {
            if a.mant == 0 || b.mant == 0 {
                assert(a.mant * b.mant == 0) by (nonlinear_arith)
                    requires
                        a.mant == 0 || b.mant == 0,
                ;
                lemma_mul_val(a, b, Dec { mant: 0, scale: (a.scale + b.scale) as u32 });
                lemma_zero_val((a.scale + b.scale) as u32);
                lemma_zero_val(0);
            } else {
                lemma_mul_val(a, b, Dec { mant: (a.mant * b.mant) as i128, scale: (a.scale + b.scale) as u32 });
            }
        }
    }
    r
}

/// The value of a product.
pub proof fn lemma_mul_val(a: Dec, b: Dec, c: Dec)
    requires
        a.scale + b.scale <= 28,
        c.scale == a.scale + b.scale,
        c.mant == a.mant * b.mant,
    ensures
        c.val() * pow10(28) == a.val() * b.val(),
{
    let pa = pow10((28 - a.scale) as nat);
    let pb = pow10((28 - b.scale) as nat);
    let pc = pow10((28 - c.scale) as nat);
    lemma_pow10_add((28 - c.scale) as nat, 28);
    lemma_pow10_add((28 - a.scale) as nat, (28 - b.scale) as nat);
    assert(((28 - c.scale) as nat + 28) as nat == ((28 - a.scale) as nat + (28 - b.scale) as nat)
        as nat);
    assert(c.val() * pow10(28) == (a.mant * b.mant) * (pa * pb)) by (nonlinear_arith)
        requires
            c.val() == c.mant * pc,
            c.mant == a.mant * b.mant,
            pc * pow10(28) == pa * pb,
    ;
    assert((a.mant * b.mant) * (pa * pb) == (a.mant * pa) * (b.mant * pb)) by (nonlinear_arith);
}

/// Compares `m * 10^k` with `n`, for mantissas in range: -1, 0 or 1.
fn compare_shifted(m: i128, k: u32, n: i128) -> (r: i8)
    requires
        -MAX_MANT <= m <= MAX_MANT,
        -MAX_MANT <= n <= MAX_MANT,
        k <= MAX_SCALE,
    ensures
        (r == -1) == (m * pow10(k as nat) < n),
        (r == 0) == (m * pow10(k as nat) == n),
        (r == 1) == (m * pow10(k as nat) > n),
        r == -1 || r == 0 || r == 1,
{
    let p = pow10_exec(k);
    let lim: i128 = MAX_MANT / p;
    let am: i128 = if m < 0 { -m } else { m };
    proof {
        lemma_fundamental_div_mod(MAX_MANT as int, p as int);
        lemma_mod_pos_bound(MAX_MANT as int, p as int);
        assert(lim * p == p * lim) by (nonlinear_arith);
    }
    if am > lim {
        proof {
            assert(am * p >= (lim + 1) * p) by (nonlinear_arith)
                requires
                    am >= lim + 1,
                    p >= 1,
            ;
            assert((lim + 1) * p == lim * p + p) by (nonlinear_arith);
            if m < 0 {
                assert(m * p == -(am * p)) by (nonlinear_arith)
                    requires
                        am == -m,
                ;
            } else {
                assert(m * p == am * p);
            }
        }
        if m < 0 {
            -1
        } else {
            1
        }
    } else {
        proof {
            assert(0 <= am * p <= lim * p) by (nonlinear_arith)
                requires
                    0 <= am <= lim,
                    p >= 1,
            ;
            if m < 0 {
                assert(m * p == -(am * p)) by (nonlinear_arith)
                    requires
                        am == -m,
                ;
            } else {
                assert(m * p == am * p);
            }
        }
        let x: i128 = m * p;
        if x < n {
            -1
        } else if x == n {
            0
        } else {
            1
        }
    }
}

/// Three-way comparison by value: -1, 0 or 1.
pub fn dec_compare(a: Dec, b: Dec) -> (r: i8)
    requires
        a.wf(),
        b.wf(),
    ensures
        (r == -1) == (a.val() < b.val()),
        (r == 0) == (a.val() == b.val()),
        (r == 1) == (a.val() > b.val()),
        r == -1 || r == 0 || r == 1,
{
    let s = if a.scale >= b.scale { a.scale } else { b.scale };
    let ghost p = pow10((28 - s) as nat);
    proof {
        lemma_pow10_pos((28 - s) as nat);
    }
    if a.scale <= b.scale {
        let k = b.scale - a.scale;
        proof {
            lemma_val_at(a.mant as int, a.scale as nat, k as nat);
        }
        let r = compare_shifted(a.mant, k, b.mant);
        proof {
            let x = a.mant * pow10(k as nat);
            lemma_order_scaled(x, b.mant as int, p);
        }
        r
    } else {
        let k = a.scale - b.scale;
        proof {
            lemma_val_at(b.mant as int, b.scale as nat, k as nat);
        }
        let r0 = compare_shifted(b.mant, k, a.mant);
        proof {
            let y = b.mant * pow10(k as nat);
            lemma_order_scaled(y, a.mant as int, p);
        }
        -r0
    }
}

proof fn lemma_order_scaled(x: int, y: int, p: int)
    requires
        p >= 1,
    ensures
        (x < y) == (x * p < y * p),
        (x == y) == (x * p == y * p),
        (x > y) == (x * p > y * p),
{
    assert((x < y) == (x * p < y * p)) by (nonlinear_arith)
        requires
            p >= 1,
    ;
    assert((x > y) == (x * p > y * p)) by (nonlinear_arith)
        requires
            p >= 1,
    ;
}

/// `a < b` by value.
pub fn dec_lt(a: Dec, b: Dec) -> (r: bool)
    requires
        a.wf(),
        b.wf(),
    ensures
        r == (a.val() < b.val()),
{
    dec_compare(a, b) == -1
}

/// `a <= b` by value.
pub fn dec_le(a: Dec, b: Dec) -> (r: bool)
    requires
        a.wf(),
        b.wf(),
    ensures
        r == (a.val() <= b.val()),
{
    dec_compare(a, b) != 1
}

/// `a == b` by value (scales may differ).
pub fn dec_eq(a: Dec, b: Dec) -> (r: bool)
    requires
        a.wf(),
        b.wf(),
    ensures
        r == (a.val() == b.val()),
{
    dec_compare(a, b) == 0
}

/// `self.max(0)` as `Decimal::max` computes it: the number itself when it is not below
/// zero, else zero at scale 0.
pub open spec fn spec_max_zero(d: Dec) -> Dec {
    if d.val() >= 0 {
        d
    } else {
        Dec { mant: 0, scale: 0 }
    }
}

pub fn max_zero(d: Dec) -> (r: Dec)
    requires
        d.wf(),
    ensures
        r == spec_max_zero(d),
        r.wf(),
        r.val() >= 0,
{
    proof {
        lemma_val_sign(d);
    }
    if d.mant < 0 {
        Dec { mant: 0, scale: 0 }
    } else {
        d
    }
}

/// Rounds `m / p` to an integer, midpoints away from zero.
pub open spec fn round_half_away(m: int, p: int) -> int {
    if m >= 0 {
        (m + p / 2) / p
    } else {
        -((-m + p / 2) / p)
    }
}

/// Rounds `m / p` to an integer, midpoints to the even neighbour.
pub open spec fn round_half_even(m: int, p: int) -> int {
    let q = abs_int(m) / p;
    let rem = abs_int(m) % p;
    let mag = if 2 * rem > p || (2 * rem == p && q % 2 == 1) {
        q + 1
    } else {
        q
    };
    if m >= 0 {
        mag
    } else {
        -mag
    }
}

/// `round_dp_with_strategy(dp, MidpointAwayFromZero)`: a number with at most `dp`
/// fractional digits is unchanged, else its mantissa is rounded to scale `dp`.
pub open spec fn spec_round_dp_away(d: Dec, dp: nat) -> Dec {
    if d.scale <= dp {
        d
    } else {
        Dec {
            mant: round_half_away(d.mant as int, pow10((d.scale - dp) as nat)) as i128,
            scale: dp as u32,
        }
    }
}

/// `round_dp(dp)` (midpoints to even), with the same shape as `spec_round_dp_away`.
pub open spec fn spec_round_dp_even(d: Dec, dp: nat) -> Dec {
    if d.scale <= dp {
        d
    } else {
        Dec {
            mant: round_half_even(d.mant as int, pow10((d.scale - dp) as nat)) as i128,
            scale: dp as u32,
        }
    }
}

proof fn lemma_round_bounds(am: int, p: int)
    requires
        0 <= am <= MAX_MANT,
        p >= 10,
    ensures
        0 <= (am + p / 2) / p <= MAX_MANT,
        0 <= am / p,
        am / p + 1 <= MAX_MANT,
        0 <= am % p < p,
        am == p * (am / p) + am % p,
{
    lemma_fundamental_div_mod(am, p);
    lemma_mod_pos_bound(am, p);
    lemma_div_pos_is_pos(am, p);
    lemma_div_pos_is_pos(am + p / 2, p);
    lemma_div_is_ordered(am + p / 2, am + p, p);
    lemma_div_plus_one(am, p);
    lemma_div_is_ordered(am, MAX_MANT as int, p);
    lemma_div_by_multiple_is_strongly_ordered_helper(p);
}

proof fn lemma_div_plus_one(am: int, p: int)
    requires
        0 <= am,
        p >= 1,
    ensures
        (am + p) / p == am / p + 1,
{
    lemma_fundamental_div_mod(am, p);
    lemma_mod_pos_bound(am, p);
    assert(am + p == (am / p + 1) * p + am % p) by (nonlinear_arith)
        requires
            am == p * (am / p) + am % p,
    ;
    lemma_fundamental_div_mod_converse(am + p, p, am / p + 1, am % p);
}

proof fn lemma_div_by_multiple_is_strongly_ordered_helper(p: int)
    requires
        p >= 10,
    ensures
        (MAX_MANT as int) / p + 1 <= MAX_MANT,
{
    lemma_div_is_ordered_by_denominator(MAX_MANT as int, 2, p);
    lemma_fundamental_div_mod(MAX_MANT as int, 2);
}

pub fn round_dp_away(d: Dec, dp: u32) -> (r: Dec)
    requires
        d.wf(),
    ensures
        r == spec_round_dp_away(d, dp as nat),
        r.wf(),
{
    if d.scale <= dp {
        return d;
    }
    let k = d.scale - dp;
    let p = pow10_exec(k);
    proof {
        lemma_pow10_even(k as nat);
    }
    let am: i128 = if d.mant < 0 { -d.mant } else { d.mant };
    proof {
        lemma_round_bounds(am as int, p as int);
    }
    let q: i128 = (am + p / 2) / p;
    let m: i128 = if d.mant < 0 { -q } else { q };
    Dec { mant: m, scale: dp }
}

pub fn round_dp_even(d: Dec, dp: u32) -> (r: Dec)
    requires
        d.wf(),
    ensures
        r == spec_round_dp_even(d, dp as nat),
        r.wf(),
{
    if d.scale <= dp {
        return d;
    }
    let k = d.scale - dp;
    let p = pow10_exec(k);
    proof {
        lemma_pow10_even(k as nat);
    }
    let am: i128 = if d.mant < 0 { -d.mant } else { d.mant };
    proof {
        lemma_round_bounds(am as int, p as int);
    }
    let q: i128 = am / p;
    let rem: i128 = am % p;
    let mag: i128 = if 2 * rem > p || (2 * rem == p && q % 2 == 1) {
        q + 1
    } else {
        q
    };
    let m: i128 = if d.mant < 0 { -mag } else { mag };
    Dec { mant: m, scale: dp }
}


/// The mantissa and scale of `Decimal::from_str(s)`, or `None` when it fails.
pub uninterp spec fn decimal_from_str(s: Seq<char>) -> Option<(i128, u32)>;

/// The mantissa's decimal digits (none for zero), left-padded with zeros to at least
/// `scale` digits.
pub open spec fn padded_digits(mant: i128, scale: u32) -> Seq<char> {
    let d = if mant == 0 {
        Seq::<char>::empty()
    } else {
        crate::text::spec_digits((if mant < 0 { -mant } else { mant as int }) as nat)
    };
    if d.len() < scale {
        Seq::new((scale - d.len()) as nat, |i: int| '0') + d
    } else {
        d
    }
}

/// How `rust_decimal` writes a number with `prec` decimals (`to_str_internal`, then the
/// sign): the whole part ("0" when empty), then, when `prec > 0`, a point and the first
/// `prec` fraction digits, zero-filled; a minus sign in front of a negative number.
pub open spec fn decimal_text_with(mant: i128, scale: u32, prec: nat) -> Seq<char> {
    let p = padded_digits(mant, scale);
    let whole = p.len() - scale;
    let w = if whole == 0 { seq!['0'] } else { p.subrange(0, whole) };
    let f = p.subrange(whole, p.len() as int);
    let body = if prec == 0 {
        w
    } else {
        w + seq!['.'] + Seq::new(prec, |i: int| if i < f.len() { f[i] } else { '0' })
    };
    (if mant < 0 { seq!['-'] } else { Seq::<char>::empty() }) + body
}

/// The text of `Decimal::to_string()`: all `scale` decimals.
pub open spec fn decimal_to_string(mant: i128, scale: u32) -> Seq<char> {
    decimal_text_with(mant, scale, scale as nat)
}

/// The text of `format!("{:.prec$}", d)` (the digits past `prec` are cut, not rounded).
pub open spec fn decimal_format_fixed(mant: i128, scale: u32, prec: usize) -> Seq<char> {
    decimal_text_with(mant, scale, prec as nat)
}

/// The mantissa and scale of `a.checked_mul(b)`, or `None` when it fails.
pub uninterp spec fn decimal_checked_mul(am: i128, ascale: u32, bm: i128, bscale: u32) -> Option<(i128, u32)>;

/// The mantissa and scale of `a.checked_div(b)`, or `None` when it fails.
pub uninterp spec fn decimal_checked_div(am: i128, ascale: u32, bm: i128, bscale: u32) -> Option<
    (i128, u32),
>;

/// Calls `<Decimal as FromStr>::from_str` on `s` (no trimming) and takes the mantissa and
/// scale of the result. States: the result is the named parse of `s`, and a parsed number is
/// within the ranges of `Decimal` (96-bit mantissa, scale at most 28).
#[verifier::external_body]
pub(crate) fn parse_decimal(s: &str) -> (r: Option<Dec>)
    ensures
        r matches Some(d) ==> d.wf() && decimal_from_str(s@) == Some((d.mant, d.scale)),
        r is None ==> decimal_from_str(s@) is None,
{
    match Decimal::from_str(s) {
        Ok(d) => Some(Dec { mant: d.mantissa(), scale: d.scale() }),
        Err(_) => None,
    }
}

/// Calls `Decimal::from_i128_with_scale(..).to_string()`; the text is `decimal_to_string`
/// (at most 30 characters before the sign, within `to_str_internal`'s buffer).
#[verifier::external_body]
pub(crate) fn decimal_text(d: Dec) -> (r: String)
    requires
        d.wf(),
    ensures
        r@ == decimal_to_string(d.mant, d.scale),
{
    Decimal::from_i128_with_scale(d.mant, d.scale).to_string()
}

/// The number of characters `to_str_internal` writes with `prec <= 28` decimals, sign left
/// out: the whole digits (at least one), and a point with `prec` digits when `prec > 0`.
pub open spec fn fixed_text_len(mant: i128, scale: u32, prec: nat) -> int {
    let whole = padded_digits(mant, scale).len() - scale;
    (if whole == 0 { 1 } else { whole }) + (if prec > 0 { prec + 1 } else { 0 })
}

/// Calls `format!("{:.prec$}", ..)` on the `Decimal` with this mantissa and scale; the text is
/// `decimal_format_fixed`. `to_str_internal` writes into a 32-character buffer and panics
/// beyond it, so the text must fit there.
#[verifier::external_body]
pub(crate) fn decimal_fixed_text(d: Dec, prec: usize) -> (r: String)
    requires
        d.wf(),
        prec <= 28,
        fixed_text_len(d.mant, d.scale, prec as nat) <= 32,
    ensures
        r@ == decimal_format_fixed(d.mant, d.scale, prec),
{
    format!("{:.prec$}", Decimal::from_i128_with_scale(d.mant, d.scale), prec = prec)
}

/// Calls `Decimal::checked_mul`. States: the result is the named product and is within the
/// ranges of `Decimal`; a zero factor gives zero at scale 0; when both factors are non-zero
/// and the exact product fits (scale at most 28, mantissa within 96 bits) it is that exact
/// product, as `mul_impl`/`finish_mul` leave it unscaled. What it gives otherwise (rounded to
/// a smaller scale, or `None`) is left to the name.
#[verifier::external_body]
pub(crate) fn checked_mul(a: Dec, b: Dec) -> (r: Option<Dec>)
    requires
        a.wf(),
        b.wf(),
    ensures
        r matches Some(c) ==> c.wf() && decimal_checked_mul(a.mant, a.scale, b.mant, b.scale)
            == Some((c.mant, c.scale)),
        r is None ==> decimal_checked_mul(a.mant, a.scale, b.mant, b.scale) is None,
        a.mant == 0 || b.mant == 0 ==> r == Some(Dec { mant: 0, scale: 0 }),
        a.mant != 0 && b.mant != 0 && mul_exact_fits(a, b) ==> r == Some(
            Dec { mant: (a.mant * b.mant) as i128, scale: (a.scale + b.scale) as u32 },
        ),
{
    let x = Decimal::from_i128_with_scale(a.mant, a.scale);
    let y = Decimal::from_i128_with_scale(b.mant, b.scale);
    x.checked_mul(y).map(|q| Dec { mant: q.mantissa(), scale: q.scale() })
}

/// Calls `Decimal::checked_div`. States: the result is the named quotient; a zero divisor
/// gives `None`; a zero dividend over a non-zero divisor gives zero (scale 0); a quotient is
/// within the ranges of `Decimal`.
#[verifier::external_body]
pub(crate) fn checked_div(a: Dec, b: Dec) -> (r: Option<Dec>)
    requires
        a.wf(),
        b.wf(),
    ensures
        r matches Some(c) ==> c.wf() && decimal_checked_div(a.mant, a.scale, b.mant, b.scale)
            == Some((c.mant, c.scale)),
        r is None ==> decimal_checked_div(a.mant, a.scale, b.mant, b.scale) is None,
        b.mant == 0 ==> r is None,
        a.mant == 0 && b.mant != 0 ==> r == Some(Dec { mant: 0, scale: 0 }),
{
    let x = Decimal::from_i128_with_scale(a.mant, a.scale);
    let y = Decimal::from_i128_with_scale(b.mant, b.scale);
    x.checked_div(y).map(|q| Dec { mant: q.mantissa(), scale: q.scale() })
}

impl Dec {
    /// Parses a decimal number the way `Decimal::from_str` does (no trimming).
    pub fn parse(s: &str) -> (r: Option<Dec>)
        ensures
            r matches Some(d) ==> d.wf() && decimal_from_str(s@) == Some((d.mant, d.scale)),
            r is None ==> decimal_from_str(s@) is None,
    {
        parse_decimal(s)
    }

    /// The `Decimal::to_string` text of this number.
    pub fn to_text(&self) -> (r: String)
        requires
            self.wf(),
        ensures
            r@ == decimal_to_string(self.mant, self.scale),
    {
        decimal_text(*self)
    }
}

/// A stored amount: the trimmed text parsed as a decimal, zero when it does not parse.
pub open spec fn spec_parse_or_zero(s: Seq<char>) -> Dec {
    spec_parse_untrimmed_or_zero(crate::text::spec_trim(s))
}

/// Reads a stored money text: parses `s.trim()`, and falls back to zero when the text is
/// not a number.
pub fn parse_or_zero(s: &str) -> (r: Dec)
    ensures
        r == spec_parse_or_zero(s@),
        r.wf(),
{
    let t = crate::text::trim(s);
    match parse_decimal(t) {
        Some(d) => d,
        None => Dec::zero(),
    }
}

/// The two-decimal text of a number, zero always as `0.00`.
pub open spec fn spec_fmt2(d: Dec) -> Seq<char> {
    if d.mant == 0 {
        decimal_format_fixed(0, 0, 2)
    } else {
        decimal_format_fixed(d.mant, d.scale, 2)
    }
}

/// A number read with `str::parse::<Decimal>` (no trimming), zero when it does not parse.
pub open spec fn spec_parse_untrimmed_or_zero(s: Seq<char>) -> Dec {
    match decimal_from_str(s) {
        Some((m, sc)) => if (Dec { mant: m, scale: sc }).wf() {
            Dec { mant: m, scale: sc }
        } else {
            Dec { mant: 0, scale: 0 }
        },
        None => Dec { mant: 0, scale: 0 },
    }
}

/// A number read from text is always well formed.
pub proof fn lemma_parse_wf(s: Seq<char>)
    ensures
        spec_parse_untrimmed_or_zero(s).wf(),
{
}

pub fn parse_untrimmed_or_zero(s: &str) -> (r: Dec)
    ensures
        r == spec_parse_untrimmed_or_zero(s@),
        r.wf(),
{
    match parse_decimal(s) {
        Some(d) => d,
        None => Dec::zero(),
    }
}

/// `format!("{:.2}", d)` with zero always rendered as `0.00` (never `-0.00`).
pub fn fmt2(d: Dec) -> (r: String)
    requires
        d.wf(),
    ensures
        r@ == spec_fmt2(d),
{
    proof {
        lemma_whole_digits(d);
        lemma_whole_digits(Dec { mant: 0, scale: 0 });
    }
    if d.mant == 0 {
        decimal_fixed_text(Dec::zero(), 2)
    } else {
        decimal_fixed_text(d, 2)
    }
}

/// `format!("{:.6}", d)`; the number must have at most 25 whole digits (the formatter's
/// buffer holds 32 characters).
pub fn fmt6(d: Dec) -> (r: String)
    requires
        d.wf(),
        fixed_text_len(d.mant, d.scale, 6) <= 32,
    ensures
        r@ == decimal_format_fixed(d.mant, d.scale, 6),
{
    decimal_fixed_text(d, 6)
}

proof fn lemma_digits_len(n: nat, k: nat)
    requires
        n < pow10(k),
    ensures
        crate::text::spec_digits(n).len() <= if k == 0 { 1 } else { k },
    decreases n,
{
    if n >= 10 {
        assert(k >= 2) by {
            if k == 0 {
            } else if k == 1 {
                reveal_with_fuel(pow10, 2);
            }
        }
        assert(n / 10 < pow10((k - 1) as nat)) by {
            assert(pow10(k) == 10 * pow10((k - 1) as nat));
        }
        lemma_digits_len(n / 10, (k - 1) as nat);
    }
}

/// A well-formed number has at most 29 whole digits.
proof fn lemma_whole_digits(d: Dec)
    requires
        d.wf(),
    ensures
        padded_digits(d.mant, d.scale).len() - d.scale <= 29,
{
    reveal_with_fuel(pow10, 30);
    if d.mant != 0 {
        lemma_digits_len((if d.mant < 0 { -d.mant } else { d.mant as int }) as nat, 29);
    }
}

/// Rounding keeps a number well formed.
pub proof fn lemma_round_even_wf(d: Dec, dp: nat)
    requires
        d.wf(),
        dp <= 28,
    ensures
        spec_round_dp_even(d, dp).wf(),
{
    if d.scale > dp {
        let k = (d.scale - dp) as nat;
        lemma_pow10_even(k);
        let am: int = abs_int(d.mant as int);
        lemma_round_bounds(am, pow10(k));
        lemma_fundamental_div_mod(am, pow10(k));
    }
}

/// Commercial rounding to two decimals (midpoints away from zero).
pub fn round2(d: Dec) -> (r: Dec)
    requires
        d.wf(),
    ensures
        r == spec_round_dp_away(d, 2),
        r.wf(),
{
    round_dp_away(d, 2)
}

} // verus!
