//! Fixed-point decimal numbers: the library's own carrier for the values of
//! `rust_decimal::Decimal`, which does the arithmetic.
//!
//! A `Dec` holds the two plain parts of a decimal, a signed mantissa of at most
//! 96 bits and a scale of at most 28 digits; its value is
//! `mantissa / 10^scale`. In contracts the value is `val()`, the number of
//! units of `10^-28`, an integer for every representable decimal.
use rust_decimal::Decimal;
use vstd::prelude::*;

verus! {

/// Decimal arithmetic overflowed: a sum, difference, product or quotient
/// could not be represented, or a divisor was zero.
#[derive(Clone, Copy, Debug, PartialEq, Eq)]
pub struct DecimalOverflow;

/// Largest mantissa magnitude a decimal can hold (`2^96 - 1`).
pub const MAX_MANTISSA: i128 = 79228162514264337593543950335;

/// Largest number of fractional digits a decimal can hold.
pub const MAX_SCALE: u32 = 28;

/// `10^n`.
pub open spec fn pow10(n: nat) -> int
    decreases n,
{
    if n == 0 {
        1
    } else {
        10 * pow10((n - 1) as nat)
    }
}

/// Two decimals of one scale compare as their mantissas.
pub proof fn lemma_same_scale_order(a: Dec, b: Dec)
    requires
        a.sc() == b.sc(),
    ensures
        (a.val() <= b.val()) <==> (a.man() <= b.man()),
        (a.val() < b.val()) <==> (a.man() < b.man()),
{
    let p = pow10((28 - a.sc()) as nat);
    lemma_pow10_positive((28 - a.sc()) as nat);
    let x = a.man();
    let y = b.man();
    assert((x * p <= y * p) <==> (x <= y)) by (nonlinear_arith)
        requires
            p > 0,
    ;
    assert((x * p < y * p) <==> (x < y)) by (nonlinear_arith)
        requires
            p > 0,
    ;
}

pub proof fn lemma_pow10_positive(n: nat)
    ensures
        pow10(n) > 0,
    decreases n,
{
    if n > 0 {
        lemma_pow10_positive((n - 1) as nat);
    }
}

/// A decimal number `mantissa * 10^-scale`.
#[derive(Clone, Copy, Debug)]
pub struct Dec {
    mantissa: i128,
    scale: u32,
}

impl Dec {
    #[verifier::type_invariant]
    spec fn inv(self) -> bool {
        &&& -MAX_MANTISSA <= self.mantissa <= MAX_MANTISSA
        &&& self.scale <= MAX_SCALE
    }

    /// The mantissa.
    pub closed spec fn man(self) -> int {
        self.mantissa as int
    }

    /// The number of fractional digits.
    pub closed spec fn sc(self) -> nat {
        self.scale as nat
    }

    /// The value, counted in units of `10^-28`.
    pub open spec fn val(self) -> int {
        self.man() * pow10((28 - self.sc()) as nat)
    }

    /// The two parts are those of a representable decimal.
    pub open spec fn parts_ok(self) -> bool {
        &&& -MAX_MANTISSA <= self.man() <= MAX_MANTISSA
        &&& self.sc() <= 28
    }

    /// The value is zero exactly when the mantissa is.
    pub proof fn lemma_val_zero(self)
        ensures
            (self.val() == 0) <==> (self.man() == 0),
            (self.val() > 0) <==> (self.man() > 0),
            (self.val() < 0) <==> (self.man() < 0),
    {
        let p = pow10((28 - self.sc()) as nat);
        lemma_pow10_positive((28 - self.sc()) as nat);
        let m = self.man();
        assert((m * p == 0) <==> (m == 0)) by (nonlinear_arith)
            requires
                p > 0,
        ;
        assert((m * p > 0) <==> (m > 0)) by (nonlinear_arith)
            requires
                p > 0,
        ;
        assert((m * p < 0) <==> (m < 0)) by (nonlinear_arith)
            requires
                p > 0,
        ;
    }

    /// The decimal with mantissa `m` and scale `s`.
    pub closed spec fn spec_new(m: int, s: nat) -> Dec {
        Dec { mantissa: m as i128, scale: s as u32 }
    }

    /// The decimal `mantissa * 10^-scale` (as `Decimal::new`).
    pub fn new(mantissa: i64, scale: u32) -> (r: Dec)
        requires
            scale <= MAX_SCALE,
        ensures
            r == Dec::spec_new(mantissa as int, scale as nat),
            r.man() == mantissa,
            r.sc() == scale,
    {
        Dec { mantissa: mantissa as i128, scale }
    }

    /// The decimal with the given parts, if they are representable
    /// (as `Decimal::try_from_i128_with_scale`).
    pub fn from_parts(mantissa: i128, scale: u32) -> (r: Option<Dec>)
        ensures
            match r {
                Some(d) => d.man() == mantissa && d.sc() == scale,
                None => !(-MAX_MANTISSA <= mantissa <= MAX_MANTISSA && scale <= MAX_SCALE),
            },
    {
        if scale <= MAX_SCALE && -MAX_MANTISSA <= mantissa && mantissa <= MAX_MANTISSA {
            Some(Dec { mantissa, scale })
        } else {
            None
        }
    }

    /// Zero, with scale 0 (as `Decimal::ZERO`).
    pub fn zero() -> (r: Dec)
        ensures
            r == spec_zero(),
            r.man() == 0,
            r.sc() == 0,
            r.val() == 0,
    {
        Dec { mantissa: 0, scale: 0 }
    }

    /// The integer `n` (as `Decimal::from(n)`).
    pub fn from_usize(n: usize) -> (r: Dec)
        ensures
            r == Dec::spec_new(n as int, 0),
            r.man() == n,
            r.sc() == 0,
    {
        assert(n <= u64::MAX);
        Dec { mantissa: n as i128, scale: 0 }
    }

    pub fn mantissa(&self) -> (r: i128)
        ensures
            r == self.man(),
    {
        self.mantissa
    }

    pub fn scale(&self) -> (r: u32)
        ensures
            r == self.sc(),
    {
        self.scale
    }

    /// Whether the value is zero (as `Decimal::is_zero`).
    pub fn is_zero(&self) -> (r: bool)
        ensures
            r == (self.val() == 0),
    {
        proof {
            self.lemma_val_zero();
        }
        self.mantissa == 0
    }

    /// Whether the sign is not negative (as `Decimal::is_sign_positive`; a
    /// zero counts as positive).
    pub fn is_sign_positive(&self) -> (r: bool)
        ensures
            r == (self.val() >= 0),
    {
        proof {
            self.lemma_val_zero();
        }
        self.mantissa >= 0
    }

    /// The magnitude, with the same scale (as `Decimal::abs`).
    pub fn abs(&self) -> (r: Dec)
        ensures
            r == abs_of(*self),
            r.sc() == self.sc(),
            r.man() == if self.man() < 0 { -self.man() } else { self.man() },
            r.val() == if self.val() < 0 { -self.val() } else { self.val() },
    {
        proof {
            use_type_invariant(self);
            self.lemma_val_zero();
        }
        let r = if self.mantissa < 0 {
            Dec { mantissa: -self.mantissa, scale: self.scale }
        } else {
            *self
        };
        proof {
            let p = pow10((28 - self.sc()) as nat);
            let m = self.man();
            assert((-m) * p == -(m * p)) by (nonlinear_arith);
        }
        r
    }

    /// The negation, with the same scale (as `Neg for Decimal`).
    pub fn neg(&self) -> (r: Dec)
        ensures
            r == negated(*self),
            r.sc() == self.sc(),
            r.man() == -self.man(),
            r.val() == -self.val(),
    {
        proof {
            use_type_invariant(self);
        }
        let r = Dec { mantissa: -self.mantissa, scale: self.scale };
        proof {
            let p = pow10((28 - self.sc()) as nat);
            let m = self.man();
            assert((-m) * p == -(m * p)) by (nonlinear_arith);
        }
        r
    }

    /// `self < other` by value.
    pub fn lt(&self, other: &Dec) -> (r: bool)
        ensures
            r == (self.val() < other.val()),
    {
        proof {
            use_type_invariant(self);
            use_type_invariant(other);
        }
        decimal_lt(*self, *other)
    }

    /// `self <= other` by value.
    pub fn le(&self, other: &Dec) -> (r: bool)
        ensures
            r == (self.val() <= other.val()),
    {
        proof {
            use_type_invariant(self);
            use_type_invariant(other);
        }
        !decimal_lt(*other, *self)
    }

    /// `self > other` by value.
    pub fn gt(&self, other: &Dec) -> (r: bool)
        ensures
            r == (self.val() > other.val()),
    {
        proof {
            use_type_invariant(self);
            use_type_invariant(other);
        }
        decimal_lt(*other, *self)
    }

    /// `self >= other` by value.
    pub fn ge(&self, other: &Dec) -> (r: bool)
        ensures
            r == (self.val() >= other.val()),
    {
        proof {
            use_type_invariant(self);
            use_type_invariant(other);
        }
        !decimal_lt(*self, *other)
    }

    /// `self == other` by value (as `PartialEq for Decimal`).
    pub fn eq_value(&self, other: &Dec) -> (r: bool)
        ensures
            r == (self.val() == other.val()),
    {
        proof {
            use_type_invariant(self);
            use_type_invariant(other);
        }
        decimal_eq(*self, *other)
    }

    /// `Ord::min`: `other` if it is smaller, else `self`.
    pub fn min(self, other: Dec) -> (r: Dec)
        ensures
            r == spec_min(self, other),
    {
        proof {
            use_type_invariant(&self);
            use_type_invariant(&other);
        }
        if decimal_lt(other, self) {
            other
        } else {
            self
        }
    }

    /// `Ord::max`: `other` unless it is smaller than `self`.
    pub fn max(self, other: Dec) -> (r: Dec)
        ensures
            r == spec_max(self, other),
    {
        proof {
            use_type_invariant(&self);
            use_type_invariant(&other);
        }
        if decimal_lt(other, self) {
            self
        } else {
            other
        }
    }

    /// `Ord::clamp`: `lo` below `lo`, `hi` above `hi`, else `self`.
    pub fn clamp(self, lo: Dec, hi: Dec) -> (r: Dec)
        requires
            lo.val() <= hi.val(),
        ensures
            r == spec_clamp(self, lo, hi),
    {
        proof {
            use_type_invariant(&self);
            use_type_invariant(&lo);
            use_type_invariant(&hi);
        }
        if decimal_lt(self, lo) {
            lo
        } else if decimal_lt(hi, self) {
            hi
        } else {
            self
        }
    }

    /// `self + other`, or `None` where the sum cannot be represented.
    pub fn add(self, other: Dec) -> (r: Option<Dec>)
        ensures
            r == dec_add(self, other),
    {
        proof {
            use_type_invariant(&self);
            use_type_invariant(&other);
        }
        decimal_checked_add(self, other)
    }

    /// `self - other`, or `None` where the difference cannot be represented.
    pub fn sub(self, other: Dec) -> (r: Option<Dec>)
        ensures
            r == dec_sub(self, other),
    {
        proof {
            use_type_invariant(&self);
            use_type_invariant(&other);
        }
        decimal_checked_sub(self, other)
    }

    /// `self * other`, or `None` where the product cannot be represented.
    pub fn mul(self, other: Dec) -> (r: Option<Dec>)
        ensures
            r == dec_mul(self, other),
    {
        proof {
            use_type_invariant(&self);
            use_type_invariant(&other);
        }
        let r = decimal_checked_mul(self, other);
        proof {
            if self.man() < 0 && other.man() != 0 && !exact_product(self, other) {
                if let Some(p) = decimal_product(negated(self), other) {
                    lemma_negated_representable(p);
                }
            }
        }
        r
    }

    /// `self / other`, or `None` for a zero divisor or an unrepresentable
    /// quotient.
    pub fn div(self, other: Dec) -> (r: Option<Dec>)
        ensures
            r == dec_div(self, other),
    {
        proof {
            use_type_invariant(&self);
            use_type_invariant(&other);
        }
        decimal_checked_div(self, other)
    }

    /// Rounded to `dp` fractional digits, half to even (as `Decimal::round_dp`).
    pub fn round_dp(self, dp: u32) -> (r: Dec)
        ensures
            r == decimal_rounded(self, dp as nat),
            self.sc() <= dp ==> r == self,
    {
        proof {
            use_type_invariant(&self);
        }
        decimal_round_dp(self, dp)
    }
}

/// `Decimal::ZERO`: mantissa 0, scale 0.
pub closed spec fn spec_zero() -> Dec {
    Dec { mantissa: 0, scale: 0 }
}

pub proof fn lemma_zero()
    ensures
        spec_zero().man() == 0,
        spec_zero().sc() == 0,
        spec_zero().val() == 0,
{
}

pub open spec fn spec_min(a: Dec, b: Dec) -> Dec {
    if b.val() < a.val() {
        b
    } else {
        a
    }
}

pub open spec fn spec_max(a: Dec, b: Dec) -> Dec {
    if b.val() < a.val() {
        a
    } else {
        b
    }
}

pub open spec fn spec_clamp(x: Dec, lo: Dec, hi: Dec) -> Dec {
    if x.val() < lo.val() {
        lo
    } else if hi.val() < x.val() {
        hi
    } else {
        x
    }
}

/// A zero with `s` fractional digits.
pub closed spec fn zero_scaled(s: nat) -> Dec {
    Dec { mantissa: 0, scale: s as u32 }
}

/// The magnitude of `d`, with its scale.
pub closed spec fn abs_of(d: Dec) -> Dec {
    if d.mantissa < 0 {
        Dec { mantissa: (-d.mantissa) as i128, scale: d.scale }
    } else {
        d
    }
}

pub proof fn lemma_abs_of(d: Dec)
    requires
        d.parts_ok(),
    ensures
        abs_of(d).sc() == d.sc(),
        abs_of(d).val() == if d.val() < 0 { -d.val() } else { d.val() },
{
    d.lemma_val_zero();
    let p = pow10((28 - d.sc()) as nat);
    let m = d.man();
    assert((-m) * p == -(m * p)) by (nonlinear_arith);
}

/// `d` with its sign flipped.
pub closed spec fn negated(d: Dec) -> Dec {
    Dec { mantissa: (-d.mantissa) as i128, scale: d.scale }
}

pub broadcast proof fn lemma_zero_scaled(s: nat)
    ensures
        (#[trigger] zero_scaled(s)).man() == 0,
        zero_scaled(s).val() == 0,
{
}

pub proof fn lemma_negated(d: Dec)
    requires
        d.parts_ok(),
    ensures
        negated(d).man() == -d.man(),
        negated(d).sc() == d.sc(),
        negated(d).val() == -d.val(),
{
    let p = pow10((28 - d.sc()) as nat);
    let m = d.man();
    assert((-m) * p == -(m * p)) by (nonlinear_arith);
}

/// A mantissa fits in 96 bits.
pub open spec fn fits(m: int) -> bool {
    -MAX_MANTISSA <= m <= MAX_MANTISSA
}

/// The larger of two decimals' scales.
pub open spec fn common_scale(a: Dec, b: Dec) -> nat {
    if a.sc() <= b.sc() {
        b.sc()
    } else {
        a.sc()
    }
}

/// The mantissa of `d` brought to the scale `s` (at least its own).
pub open spec fn rescaled(d: Dec, s: nat) -> int {
    d.man() * pow10((s - d.sc()) as nat)
}

/// Two decimals whose mantissas, brought to the larger of their scales, fit
/// in 96 bits, and so does their sum.
pub open spec fn exact_sum(a: Dec, b: Dec) -> bool {
    let s = common_scale(a, b);
    &&& fits(rescaled(a, s))
    &&& fits(rescaled(b, s))
    &&& fits(rescaled(a, s) + rescaled(b, s))
}

/// Two decimals whose mantissas, brought to the larger of their scales, fit
/// in 96 bits, and so does their difference.
pub open spec fn exact_difference(a: Dec, b: Dec) -> bool {
    let s = common_scale(a, b);
    &&& fits(rescaled(a, s))
    &&& fits(rescaled(b, s))
    &&& fits(rescaled(a, s) - rescaled(b, s))
}

/// Two non-zero decimals whose scales add up to at most 28 and whose
/// mantissas' product fits.
pub open spec fn exact_product(a: Dec, b: Dec) -> bool {
    a.sc() + b.sc() <= 28 && fits(a.man() * b.man())
}

pub proof fn lemma_negated_involutive(d: Dec)
    ensures
        negated(negated(d)) == d,
{
    let m = d.mantissa;
    assert((-((-m) as i128)) as i128 == m) by (bit_vector);
}

/// The negation of a decimal is representable only where the decimal is.
pub proof fn lemma_negated_representable(d: Dec)
    ensures
        negated(d).parts_ok() ==> d.parts_ok(),
{
    let m = d.mantissa;
    assert(m == i128::MIN ==> (-m) as i128 == m) by (bit_vector);
}

pub proof fn lemma_negated_zero()
    ensures
        negated(spec_zero()) == spec_zero(),
{
}

pub proof fn lemma_negated_spec_new(k: int, s: nat)
    requires
        fits(k),
        s <= 28,
    ensures
        negated(Dec::spec_new(k, s)) == Dec::spec_new(-k, s),
{
}

/// The value of a decimal given by its parts.
pub proof fn lemma_val_of_parts(k: int, s: nat)
    requires
        fits(k),
        s <= 28,
    ensures
        Dec::spec_new(k, s).val() == k * pow10((28 - s) as nat),
{
}

/// `10^(m + n) = 10^m * 10^n`.
pub proof fn lemma_pow10_add(m: nat, n: nat)
    ensures
        pow10(m + n) == pow10(m) * pow10(n),
    decreases m,
{
    if m > 0 {
        lemma_pow10_add((m - 1) as nat, n);
        assert(pow10(m + n) == 10 * pow10((m - 1 + n) as nat));
        let a = pow10((m - 1) as nat);
        let b = pow10(n);
        assert(10 * (a * b) == (10 * a) * b) by (nonlinear_arith);
    }
}

/// A mantissa brought to a larger scale keeps the value.
pub proof fn lemma_rescaled_val(d: Dec, s: nat)
    requires
        d.sc() <= s <= 28,
    ensures
        rescaled(d, s) * pow10((28 - s) as nat) == d.val(),
{
    let k = (s - d.sc()) as nat;
    let j = (28 - s) as nat;
    lemma_pow10_add(k, j);
    assert(k + j == (28 - d.sc()) as nat);
    let m = d.man();
    let pk = pow10(k);
    let pj = pow10(j);
    assert((m * pk) * pj == m * (pk * pj)) by (nonlinear_arith);
}

/// Decimals whose rescaled mantissas and their sum fit add exactly, at the
/// larger scale (or give the other operand, where one is zero).
pub proof fn lemma_add_exact(a: Dec, b: Dec)
    requires
        a.parts_ok(),
        b.parts_ok(),
        exact_sum(a, b),
    ensures
        dec_add(a, b) matches Some(r) && r.val() == a.val() + b.val() && r.parts_ok() && (a.man()
            != 0 && b.man() != 0 ==> r.sc() == common_scale(a, b) && r.man() == rescaled(
            a,
            common_scale(a, b),
        ) + rescaled(b, common_scale(a, b))),
{
    let s = common_scale(a, b);
    lemma_rescaled_val(a, s);
    lemma_rescaled_val(b, s);
    let p = pow10((28 - s) as nat);
    let x = rescaled(a, s);
    let y = rescaled(b, s);
    assert((x + y) * p == x * p + y * p) by (nonlinear_arith);
    a.lemma_val_zero();
    b.lemma_val_zero();
    if a.man() != 0 && b.man() != 0 {
        lemma_val_of_parts(x + y, s);
    }
}

/// Decimals whose rescaled mantissas and their difference fit subtract
/// exactly, at the larger scale (or as the zero cases say).
pub proof fn lemma_sub_exact(a: Dec, b: Dec)
    requires
        a.parts_ok(),
        b.parts_ok(),
        exact_difference(a, b),
    ensures
        dec_sub(a, b) matches Some(r) && r.val() == a.val() - b.val() && r.parts_ok() && (a != b
            && a.man() != 0 && b.man() != 0 ==> r.sc() == common_scale(a, b) && r.man()
            == rescaled(a, common_scale(a, b)) - rescaled(b, common_scale(a, b))),
{
    let s = common_scale(a, b);
    lemma_rescaled_val(a, s);
    lemma_rescaled_val(b, s);
    let p = pow10((28 - s) as nat);
    let x = rescaled(a, s);
    let y = rescaled(b, s);
    assert((x - y) * p == x * p - y * p) by (nonlinear_arith);
    lemma_negated(b);
    lemma_zero_scaled(a.sc());
    a.lemma_val_zero();
    b.lemma_val_zero();
    if a != b && a.man() != 0 && b.man() != 0 {
        lemma_val_of_parts(x - y, s);
    }
}

/// A mantissa at its own scale, and a zero at any scale.
proof fn lemma_rescaled_basics(d: Dec, s: nat)
    requires
        d.sc() <= s,
    ensures
        rescaled(d, d.sc()) == d.man(),
        d.man() == 0 ==> rescaled(d, s) == 0,
{
    assert(pow10(0) == 1);
    let m = d.man();
    let p = pow10((s - d.sc()) as nat);
    assert(m == 0 ==> m * p == 0) by (nonlinear_arith);
}

/// After an exact sum, taking the second operand away again is exact.
pub proof fn lemma_sum_then_difference(l: Dec, v: Dec)
    requires
        l.parts_ok(),
        v.parts_ok(),
        exact_sum(l, v),
    ensures
        exact_difference(dec_add(l, v)->0, v),
        dec_add(l, v)->0.parts_ok(),
{
    lemma_add_exact(l, v);
    let c = common_scale(l, v);
    let l2 = dec_add(l, v)->0;
    lemma_rescaled_basics(l, c);
    lemma_rescaled_basics(v, c);
    lemma_rescaled_basics(l2, c);
    lemma_rescaled_basics(v, v.sc());
}

/// After an exact difference, adding the second operand back is exact.
pub proof fn lemma_difference_then_sum(a: Dec, v: Dec)
    requires
        a.parts_ok(),
        v.parts_ok(),
        exact_difference(a, v),
    ensures
        exact_sum(dec_sub(a, v)->0, v),
        dec_sub(a, v)->0.parts_ok(),
{
    lemma_sub_exact(a, v);
    let c = common_scale(a, v);
    let a2 = dec_sub(a, v)->0;
    lemma_rescaled_basics(a, c);
    lemma_rescaled_basics(v, c);
    lemma_rescaled_basics(a2, c);
    lemma_rescaled_basics(v, v.sc());
    lemma_negated(v);
    lemma_rescaled_basics(negated(v), v.sc());
    lemma_zero_scaled(a.sc());
    if a == v {
        lemma_rescaled_basics(zero_scaled(a.sc()), v.sc());
    }
}

/// Where an exact sum adds two decimals of opposite signs, taking the
/// smaller magnitude from the larger is exact too.
pub proof fn lemma_magnitudes_exact(a: Dec, b: Dec)
    requires
        a.parts_ok(),
        b.parts_ok(),
        exact_sum(a, b),
        a.man() < 0 <==> b.man() >= 0,
    ensures
        exact_difference(abs_of(b), abs_of(a)),
        abs_of(a).parts_ok(),
        abs_of(b).parts_ok(),
{
    let c = common_scale(a, b);
    let pa = pow10((c - a.sc()) as nat);
    let pb = pow10((c - b.sc()) as nat);
    lemma_pow10_positive((c - a.sc()) as nat);
    lemma_pow10_positive((c - b.sc()) as nat);
    let x = a.man();
    let y = b.man();
    assert(x < 0 ==> (-x) * pa == -(x * pa) && x * pa < 0) by (nonlinear_arith)
        requires
            pa > 0,
    ;
    assert(x >= 0 ==> x * pa >= 0) by (nonlinear_arith)
        requires
            pa > 0,
    ;
    assert(y < 0 ==> (-y) * pb == -(y * pb) && y * pb < 0) by (nonlinear_arith)
        requires
            pb > 0,
    ;
    assert(y >= 0 ==> y * pb >= 0) by (nonlinear_arith)
        requires
            pb > 0,
    ;
}

/// A product with a negated first factor is the negated product.
pub proof fn lemma_mul_negated(a: Dec, b: Dec)
    requires
        a.parts_ok(),
        b.parts_ok(),
    ensures
        dec_mul(negated(a), b) == (match dec_mul(a, b) {
            Some(p) => Some(negated(p)),
            None => None,
        }),
{
    let x = a.man();
    let y = b.man();
    assert((-x) * y == -(x * y)) by (nonlinear_arith);
    lemma_negated(a);
    lemma_negated_involutive(a);
    if x == 0 || y == 0 {
        lemma_negated_zero();
    } else if exact_product(a, b) {
        assert(exact_product(negated(a), b));
        lemma_negated_spec_new(x * y, a.sc() + b.sc());
    } else if x < 0 {
        assert(!exact_product(negated(a), b));
        match decimal_product(negated(a), b) {
            Some(p) => {
                lemma_negated_involutive(p);
            },
            None => {},
        }
    } else {
        assert(!exact_product(negated(a), b));
    }
}

/// Every product is a representable decimal.
/// A product with a zero operand, or whose scales add up to at most 28 and
/// whose mantissas' product fits, is exact: in units of `10^-28`, its value
/// times `10^28` is the product of the operands' values.
pub proof fn lemma_mul_exact(a: Dec, b: Dec)
    requires
        a.man() == 0 || b.man() == 0 || exact_product(a, b),
    ensures
        dec_mul(a, b) matches Some(r) && r.val() * pow10(28) == a.val() * b.val(),
{
    let pa = pow10((28 - a.sc()) as nat);
    let pb = pow10((28 - b.sc()) as nat);
    let ma = a.man();
    let mb = b.man();
    if ma == 0 || mb == 0 {
        assert(ma * pa * (mb * pb) == 0) by (nonlinear_arith)
            requires
                ma == 0 || mb == 0,
        ;
        lemma_zero();
    } else {
        let s = a.sc() + b.sc();
        lemma_val_of_parts(ma * mb, s);
        let pr = pow10((28 - s) as nat);
        let p28 = pow10(28);
        lemma_pow10_add((28 - a.sc()) as nat, (28 - b.sc()) as nat);
        lemma_pow10_add((28 - s) as nat, 28);
        assert(((28 - a.sc()) as nat + (28 - b.sc()) as nat) == ((28 - s) as nat + 28) as nat);
        assert(pa * pb == pr * p28);
        assert((ma * mb) * pr * p28 == (ma * pa) * (mb * pb)) by (nonlinear_arith)
            requires
                pa * pb == pr * p28,
        ;
    }
}

/// Every difference `dec_sub` gives of two representable decimals is
/// representable.
pub proof fn lemma_sub_representable(a: Dec, b: Dec)
    requires
        a.parts_ok(),
        b.parts_ok(),
    ensures
        dec_sub(a, b) matches Some(r) ==> r.parts_ok(),
{
    lemma_negated(b);
}

/// Every sum `dec_add` gives of two representable decimals is representable.
pub proof fn lemma_add_representable(a: Dec, b: Dec)
    requires
        a.parts_ok(),
        b.parts_ok(),
    ensures
        dec_add(a, b) matches Some(r) ==> r.parts_ok(),
{
}

pub proof fn lemma_mul_representable(a: Dec, b: Dec)
    ensures
        dec_mul(a, b) matches Some(p) ==> p.parts_ok(),
{
    if a.man() == 0 || b.man() == 0 {
    } else if exact_product(a, b) {
    } else if a.man() < 0 {
        if let Some(p) = representable(decimal_product(negated(a), b)) {
            lemma_negated(p);
        }
    }
}

/// `a + b` as `Decimal::checked_add` computes it.
pub open spec fn dec_add(a: Dec, b: Dec) -> Option<Dec> {
    if a.man() == 0 {
        Some(b)
    } else if b.man() == 0 {
        Some(a)
    } else if exact_sum(a, b) {
        Some(
            Dec::spec_new(
                rescaled(a, common_scale(a, b)) + rescaled(b, common_scale(a, b)),
                common_scale(a, b),
            ),
        )
    } else {
        representable(decimal_sum(a, b))
    }
}

/// `a - b` as `Decimal::checked_sub` computes it.
pub open spec fn dec_sub(a: Dec, b: Dec) -> Option<Dec> {
    if a == b {
        Some(zero_scaled(a.sc()))
    } else if a.man() == 0 {
        Some(negated(b))
    } else if b.man() == 0 {
        Some(a)
    } else if exact_difference(a, b) {
        Some(
            Dec::spec_new(
                rescaled(a, common_scale(a, b)) - rescaled(b, common_scale(a, b)),
                common_scale(a, b),
            ),
        )
    } else {
        representable(decimal_difference(a, b))
    }
}

/// `a * b` as `Decimal::checked_mul` computes it.
pub open spec fn dec_mul(a: Dec, b: Dec) -> Option<Dec> {
    if a.man() == 0 || b.man() == 0 {
        Some(spec_zero())
    } else if exact_product(a, b) {
        Some(Dec::spec_new(a.man() * b.man(), a.sc() + b.sc()))
    } else if a.man() < 0 {
        match representable(decimal_product(negated(a), b)) {
            Some(p) => Some(negated(p)),
            None => None,
        }
    } else {
        representable(decimal_product(a, b))
    }
}

/// `a / b` as `Decimal::checked_div` computes it.
pub open spec fn dec_div(a: Dec, b: Dec) -> Option<Dec> {
    if b.man() == 0 {
        None
    } else if a.man() == 0 {
        Some(spec_zero())
    } else {
        representable(decimal_quotient(a, b))
    }
}

/// A result kept only where it is a representable decimal, as every value of
/// `rust_decimal::Decimal` is.
pub open spec fn representable(r: Option<Dec>) -> Option<Dec> {
    match r {
        Some(p) => if p.parts_ok() {
            Some(p)
        } else {
            None
        },
        None => None,
    }
}

/// What `Decimal::checked_add` returns on the two decimals.
pub uninterp spec fn decimal_sum(a: Dec, b: Dec) -> Option<Dec>;

/// What `Decimal::checked_sub` returns on the two decimals.
pub uninterp spec fn decimal_difference(a: Dec, b: Dec) -> Option<Dec>;

/// What `Decimal::checked_mul` returns on the two decimals.
pub uninterp spec fn decimal_product(a: Dec, b: Dec) -> Option<Dec>;

/// What `Decimal::checked_div` returns on the two decimals.
pub uninterp spec fn decimal_quotient(a: Dec, b: Dec) -> Option<Dec>;

/// What `Decimal::round_dp` returns on the decimal and the digit count.
pub uninterp spec fn decimal_rounded(a: Dec, dp: nat) -> Dec;

/// Calls `<` of `rust_decimal::Decimal`, which orders decimals by their value.
/// Here and below, `Decimal::from_i128_with_scale` panics on a mantissa beyond
/// 96 bits or a scale beyond 28, which `requires` excludes (every `Dec` meets
/// it).
#[verifier::external_body]
fn decimal_lt(a: Dec, b: Dec) -> (r: bool)
    requires
        a.parts_ok(),
        b.parts_ok(),
    ensures
        r == (a.val() < b.val()),
{
    Decimal::from_i128_with_scale(a.mantissa, a.scale) < Decimal::from_i128_with_scale(
        b.mantissa,
        b.scale,
    )
}

/// Calls `==` of `rust_decimal::Decimal`, which holds exactly when the values
/// agree, whatever the scales.
#[verifier::external_body]
fn decimal_eq(a: Dec, b: Dec) -> (r: bool)
    requires
        a.parts_ok(),
        b.parts_ok(),
    ensures
        r == (a.val() == b.val()),
{
    Decimal::from_i128_with_scale(a.mantissa, a.scale) == Decimal::from_i128_with_scale(
        b.mantissa,
        b.scale,
    )
}

/// Calls `Decimal::checked_add`. Claimed (`dec_add`): adding to a zero gives
/// the other operand unchanged (`checked_add` returns the second operand when the
/// first is zero, and the first when the second is); decimals whose
/// mantissas, brought to the larger of the two scales, and their sum fit in
/// 96 bits add exactly, at that scale (`checked_add` brings the smaller-scale
/// operand up and adds, and rounds only when the result would not fit);
/// otherwise the result is named `decimal_sum`. How a sum that needs rounding is rounded
/// is left unsaid. Every result is a representable decimal (96-bit mantissa,
/// at most 28 fractional digits), as every `Decimal` is; so for the other
/// three operations.
#[verifier::external_body]
fn decimal_checked_add(a: Dec, b: Dec) -> (r: Option<Dec>)
    requires
        a.parts_ok(),
        b.parts_ok(),
    ensures
        a.man() == 0 ==> r == Some(b),
        a.man() != 0 && b.man() == 0 ==> r == Some(a),
        a.man() != 0 && b.man() != 0 && exact_sum(a, b) ==> r == Some(
            Dec::spec_new(
                rescaled(a, common_scale(a, b)) + rescaled(b, common_scale(a, b)),
                common_scale(a, b),
            ),
        ),
        a.man() != 0 && b.man() != 0 && !exact_sum(a, b) ==> r == decimal_sum(a, b),
        r matches Some(d) ==> d.parts_ok(),
{
    let x = Decimal::from_i128_with_scale(a.mantissa, a.scale);
    match x.checked_add(Decimal::from_i128_with_scale(b.mantissa, b.scale)) {
        Some(d) => Some(Dec { mantissa: d.mantissa(), scale: d.scale() }),
        None => None,
    }
}

/// Calls `Decimal::checked_sub`. Claimed (`dec_sub`): a decimal minus itself
/// is a zero of its scale; subtracting a zero from a non-zero decimal gives it
/// unchanged; a zero minus a decimal is its negation; decimals whose
/// mantissas, brought to the larger of the two scales, and their difference
/// fit in 96 bits subtract exactly, at that scale; otherwise the result is
/// named `decimal_difference`.
#[verifier::external_body]
fn decimal_checked_sub(a: Dec, b: Dec) -> (r: Option<Dec>)
    requires
        a.parts_ok(),
        b.parts_ok(),
    ensures
        a == b ==> r == Some(zero_scaled(a.sc())),
        a != b && a.man() == 0 ==> r == Some(negated(b)),
        a != b && a.man() != 0 && b.man() == 0 ==> r == Some(a),
        a != b && a.man() != 0 && b.man() != 0 && exact_difference(a, b) ==> r == Some(
            Dec::spec_new(
                rescaled(a, common_scale(a, b)) - rescaled(b, common_scale(a, b)),
                common_scale(a, b),
            ),
        ),
        a != b && a.man() != 0 && b.man() != 0 && !exact_difference(a, b) ==> r
            == decimal_difference(a, b),
        r matches Some(d) ==> d.parts_ok(),
{
    let x = Decimal::from_i128_with_scale(a.mantissa, a.scale);
    match x.checked_sub(Decimal::from_i128_with_scale(b.mantissa, b.scale)) {
        Some(d) => Some(Dec { mantissa: d.mantissa(), scale: d.scale() }),
        None => None,
    }
}

/// Calls `Decimal::checked_mul`. Claimed (`dec_mul`): a product with a zero
/// factor is `Decimal::ZERO`; when the scales add up to at most 28 and the
/// mantissas' product fits in 96 bits, the product is exact with the summed
/// scale; otherwise the result is named `decimal_product`, and a negative
/// first factor gives the negation of the product with its magnitude (the
/// multiplication computes the magnitude and the sign apart).
#[verifier::external_body]
fn decimal_checked_mul(a: Dec, b: Dec) -> (r: Option<Dec>)
    requires
        a.parts_ok(),
        b.parts_ok(),
    ensures
        a.man() == 0 || b.man() == 0 ==> r == Some(spec_zero()),
        a.man() != 0 && b.man() != 0 && exact_product(a, b) ==> r == Some(
            Dec::spec_new(a.man() * b.man(), a.sc() + b.sc()),
        ),
        a.man() > 0 && b.man() != 0 && !exact_product(a, b) ==> r == decimal_product(a, b),
        a.man() < 0 && b.man() != 0 && !exact_product(a, b) ==> r == (match decimal_product(
            negated(a),
            b,
        ) {
            Some(p) => Some(negated(p)),
            None => None,
        }),
        r matches Some(d) ==> d.parts_ok(),
{
    let x = Decimal::from_i128_with_scale(a.mantissa, a.scale);
    match x.checked_mul(Decimal::from_i128_with_scale(b.mantissa, b.scale)) {
        Some(d) => Some(Dec { mantissa: d.mantissa(), scale: d.scale() }),
        None => None,
    }
}

/// Calls `Decimal::checked_div`. Claimed (`dec_div`): a zero divisor gives
/// `None`, a zero dividend `Decimal::ZERO`; otherwise the result is named
/// `decimal_quotient`.
#[verifier::external_body]
fn decimal_checked_div(a: Dec, b: Dec) -> (r: Option<Dec>)
    requires
        a.parts_ok(),
        b.parts_ok(),
    ensures
        b.man() == 0 ==> r is None,
        b.man() != 0 && a.man() == 0 ==> r == Some(spec_zero()),
        b.man() != 0 && a.man() != 0 ==> r == decimal_quotient(a, b),
        r matches Some(d) ==> d.parts_ok(),
{
    let x = Decimal::from_i128_with_scale(a.mantissa, a.scale);
    match x.checked_div(Decimal::from_i128_with_scale(b.mantissa, b.scale)) {
        Some(d) => Some(Dec { mantissa: d.mantissa(), scale: d.scale() }),
        None => None,
    }
}

/// Calls `Decimal::round_dp`; the result is named `decimal_rounded`, and a
/// decimal with no more than `dp` fractional digits comes back unchanged.
#[verifier::external_body]
fn decimal_round_dp(a: Dec, dp: u32) -> (r: Dec)
    requires
        a.parts_ok(),
    ensures
        r == decimal_rounded(a, dp as nat),
        a.sc() <= dp ==> r == a,
{
    let d = Decimal::from_i128_with_scale(a.mantissa, a.scale).round_dp(dp);
    Dec { mantissa: d.mantissa(), scale: d.scale() }
}

} // verus!
