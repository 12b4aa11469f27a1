//! Exact decimal numbers.
//!
//! A [`Decimal`] holds its value as plain data: a sign, the magnitude of its
//! digits as base-2^32 limbs (least significant first) and a scale, so that
//! its value is `digits · 10^(-scale)`.  Its model is a [`Scaled`] pair.  The
//! arithmetic itself is done by `bigdecimal`.
use bigdecimal::BigDecimal;
use bigdecimal::num_bigint::{BigInt, Sign};
use std::str::FromStr;
use vstd::prelude::*;

verus! {

/// A decimal number as a mathematical value: `digits · 10^(-scale)`.
pub struct Scaled {
    pub digits: int,
    pub scale: int,
}

pub open spec fn pow10(n: nat) -> int
    decreases n,
{
    if n == 0 {
        1
    } else {
        10 * pow10((n - 1) as nat)
    }
}

pub open spec fn max_int(a: int, b: int) -> int {
    if a >= b {
        a
    } else {
        b
    }
}

/// The digits of `x` when it is written with `k` decimal places
/// (meaningful for `k >= x.scale`).
pub open spec fn at(x: Scaled, k: int) -> int {
    x.digits * pow10((k - x.scale) as nat)
}

pub open spec fn common(a: Scaled, b: Scaled) -> int {
    max_int(a.scale, b.scale)
}

/// `a` and `b` denote the same number.
pub open spec fn same(a: Scaled, b: Scaled) -> bool {
    at(a, common(a, b)) == at(b, common(a, b))
}

/// `a` is a smaller number than `b`.
pub open spec fn less(a: Scaled, b: Scaled) -> bool {
    at(a, common(a, b)) < at(b, common(a, b))
}

pub open spec fn int_s(n: int) -> Scaled {
    Scaled { digits: n, scale: 0 }
}

pub open spec fn add_s(a: Scaled, b: Scaled) -> Scaled {
    Scaled { digits: at(a, common(a, b)) + at(b, common(a, b)), scale: common(a, b) }
}

pub open spec fn sub_s(a: Scaled, b: Scaled) -> Scaled {
    Scaled { digits: at(a, common(a, b)) - at(b, common(a, b)), scale: common(a, b) }
}

pub open spec fn mul_s(a: Scaled, b: Scaled) -> Scaled {
    Scaled { digits: a.digits * b.digits, scale: a.scale + b.scale }
}

/// `x` divided by one hundred, exactly.
pub open spec fn percent_s(x: Scaled) -> Scaled {
    Scaled { digits: x.digits, scale: x.scale + 2 }
}

pub proof fn lemma_pow10_positive(n: nat)
    ensures
        pow10(n) > 0,
    decreases n,
{
    if n > 0 {
        lemma_pow10_positive((n - 1) as nat);
    }
}

pub proof fn lemma_pow10_add(a: nat, b: nat)
    ensures
        pow10(a + b) == pow10(a) * pow10(b),
    decreases a,
{
    if a > 0 {
        lemma_pow10_add((a - 1) as nat, b);
        assert(pow10(a + b) == 10 * pow10((a - 1 + b) as nat));
        assert(10 * (pow10((a - 1) as nat) * pow10(b)) == (10 * pow10((a - 1) as nat)) * pow10(b))
            by (nonlinear_arith);
    }
}

/// Powers of ten grow faster than their exponent.
pub proof fn lemma_pow10_at_least(n: nat)
    ensures
        pow10(n) >= n + 1,
    decreases n,
{
    if n > 0 {
        lemma_pow10_at_least((n - 1) as nat);
    }
}

/// Writing `x` with `j` more decimal places multiplies its digits by `10^j`.
pub proof fn lemma_at_shift(x: Scaled, k: int, j: nat)
    requires
        k >= x.scale,
    ensures
        at(x, k + j) == at(x, k) * pow10(j),
{
    lemma_pow10_add((k - x.scale) as nat, j);
    assert(((k + j - x.scale) as nat) == ((k - x.scale) as nat) + j);
    assert(x.digits * (pow10((k - x.scale) as nat) * pow10(j)) == (x.digits * pow10(
        (k - x.scale) as nat,
    )) * pow10(j)) by (nonlinear_arith);
}

/// Two numbers compare the same at every common number of decimal places.
pub proof fn lemma_compare_at(a: Scaled, b: Scaled, k: int)
    requires
        k >= a.scale,
        k >= b.scale,
    ensures
        same(a, b) <==> at(a, k) == at(b, k),
        less(a, b) <==> at(a, k) < at(b, k),
{
    let c = common(a, b);
    let j = (k - c) as nat;
    lemma_at_shift(a, c, j);
    lemma_at_shift(b, c, j);
    lemma_pow10_positive(j);
    let p = pow10(j);
    let x = at(a, c);
    let y = at(b, c);
    assert(x == y <==> x * p == y * p) by (nonlinear_arith)
        requires
            p > 0,
    ;
    assert(x < y <==> x * p < y * p) by (nonlinear_arith)
        requires
            p > 0,
    ;
}

pub proof fn lemma_at_add(a: Scaled, b: Scaled, k: int)
    requires
        k >= a.scale,
        k >= b.scale,
    ensures
        at(add_s(a, b), k) == at(a, k) + at(b, k),
        at(sub_s(a, b), k) == at(a, k) - at(b, k),
{
    let c = common(a, b);
    let j = (k - c) as nat;
    lemma_at_shift(a, c, j);
    lemma_at_shift(b, c, j);
    lemma_at_shift(add_s(a, b), c, j);
    lemma_at_shift(sub_s(a, b), c, j);
    let p = pow10(j);
    assert(pow10(0) == 1);
    assert(((c - c) as nat) == 0);
    let sa = add_s(a, b);
    let sb = sub_s(a, b);
    assert(at(sa, c) == sa.digits * pow10(0));
    assert(at(sb, c) == sb.digits * pow10(0));
    assert((at(a, c) + at(b, c)) * p == at(a, c) * p + at(b, c) * p) by (nonlinear_arith);
    assert((at(a, c) - at(b, c)) * p == at(a, c) * p - at(b, c) * p) by (nonlinear_arith);
}

pub proof fn lemma_at_mul(a: Scaled, b: Scaled, k1: int, k2: int)
    requires
        k1 >= a.scale,
        k2 >= b.scale,
    ensures
        at(mul_s(a, b), k1 + k2) == at(a, k1) * at(b, k2),
{
    let i = (k1 - a.scale) as nat;
    let j = (k2 - b.scale) as nat;
    lemma_pow10_add(i, j);
    assert(((k1 + k2 - (a.scale + b.scale)) as nat) == i + j);
    let pa = pow10(i);
    let pb = pow10(j);
    assert((a.digits * b.digits) * (pa * pb) == (a.digits * pa) * (b.digits * pb))
        by (nonlinear_arith);
}

pub proof fn lemma_same_refl(a: Scaled)
    ensures
        same(a, a),
{
}

pub proof fn lemma_same_sym(a: Scaled, b: Scaled)
    ensures
        same(a, b) == same(b, a),
{
}

pub proof fn lemma_same_trans(a: Scaled, b: Scaled, c: Scaled)
    requires
        same(a, b),
        same(b, c),
    ensures
        same(a, c),
{
    let k = max_int(a.scale, max_int(b.scale, c.scale));
    lemma_compare_at(a, b, k);
    lemma_compare_at(b, c, k);
    lemma_compare_at(a, c, k);
}

pub proof fn lemma_add_congruent(a: Scaled, b: Scaled, x: Scaled, y: Scaled)
    requires
        same(a, x),
        same(b, y),
    ensures
        same(add_s(a, b), add_s(x, y)),
        same(sub_s(a, b), sub_s(x, y)),
{
    let k = max_int(max_int(a.scale, b.scale), max_int(x.scale, y.scale));
    lemma_compare_at(a, x, k);
    lemma_compare_at(b, y, k);
    lemma_at_add(a, b, k);
    lemma_at_add(x, y, k);
    lemma_compare_at(add_s(a, b), add_s(x, y), k);
    lemma_compare_at(sub_s(a, b), sub_s(x, y), k);
}

pub proof fn lemma_mul_congruent(a: Scaled, b: Scaled, x: Scaled, y: Scaled)
    requires
        same(a, x),
        same(b, y),
    ensures
        same(mul_s(a, b), mul_s(x, y)),
{
    let k = max_int(max_int(a.scale, b.scale), max_int(x.scale, y.scale));
    lemma_compare_at(a, x, k);
    lemma_compare_at(b, y, k);
    lemma_at_mul(a, b, k, k);
    lemma_at_mul(x, y, k, k);
    lemma_compare_at(mul_s(a, b), mul_s(x, y), k + k);
}


/// The magnitude held by base-2^32 limbs, least significant first.
pub open spec fn magnitude(limbs: Seq<u32>) -> nat
    decreases limbs.len(),
{
    if limbs.len() == 0 {
        0
    } else {
        limbs[0] as nat + 4294967296 * magnitude(limbs.drop_first())
    }
}

pub proof fn lemma_magnitude_zero(limbs: Seq<u32>)
    ensures
        magnitude(limbs) == 0 <==> forall|i: int| 0 <= i < limbs.len() ==> limbs[i] == 0,
    decreases limbs.len(),
{
    if limbs.len() > 0 {
        lemma_magnitude_zero(limbs.drop_first());
        if magnitude(limbs) == 0 {
            assert forall|i: int| 0 <= i < limbs.len() implies limbs[i] == 0 by {
                if i > 0 {
                    assert(limbs[i] == limbs.drop_first()[i - 1]);
                }
            }
        }
        if forall|i: int| 0 <= i < limbs.len() ==> limbs[i] == 0 {
            assert forall|i: int| 0 <= i < limbs.drop_first().len() implies limbs.drop_first()[i]
                == 0 by {
                assert(limbs.drop_first()[i] == limbs[i + 1]);
            }
        }
    }
}

/// The largest scale, in either direction, that the arithmetic accepts.
pub const SCALE_LIMIT: i64 = 0x1000_0000_0000_0000;

/// The largest scale, in either direction, of a cumulative rate.
pub const RATE_SCALE: i64 = 0x100_0000_0000;

/// The largest scale, in either direction, of a value that the stage and
/// discount computations are promised to handle without a scale error.
pub const VALUE_SCALE: i64 = 0x1000_0000_0000;

/// The largest scale, in either direction, of a value that the three-stage
/// tax is promised to handle without a scale error.
pub const INPUT_SCALE: i64 = 0x400_0000_0000;

/// The largest scale, in either direction, of a value that a line
/// computation is promised to handle without a scale error.
pub const LINE_SCALE: i64 = 0x40_0000_0000;

/// The largest number of limbs of a quantity that a line computation is
/// promised to handle without a scale error.
pub const LINE_LIMBS: usize = 0x10_0000;

/// `x` is written with at most `limit` decimal places, and with at most
/// `limit` trailing zeros left out.
pub open spec fn scale_within(x: Scaled, limit: int) -> bool {
    -limit <= x.scale <= limit
}

/// The number of places of `x`, in either direction.
pub open spec fn scale_size(x: Scaled) -> int {
    if x.scale >= 0 {
        x.scale
    } else {
        -x.scale
    }
}

/// An exact decimal number: `(-1)^negative · magnitude(limbs) · 10^(-scale)`.
#[derive(Debug)]
pub struct Decimal {
    pub negative: bool,
    pub limbs: Vec<u32>,
    pub scale: i64,
}

impl View for Decimal {
    type V = Scaled;

    open spec fn view(&self) -> Scaled {
        Scaled {
            digits: if self.negative {
                -(magnitude(self.limbs@) as int)
            } else {
                magnitude(self.limbs@) as int
            },
            scale: self.scale as int,
        }
    }
}

pub open spec fn in_range(d: Decimal) -> bool {
    -SCALE_LIMIT <= d.scale <= SCALE_LIMIT
}

pub open spec fn is_zero_s(x: Scaled) -> bool {
    x.digits == 0
}

pub open spec fn is_negative_s(x: Scaled) -> bool {
    x.digits < 0
}

/// The number `n / 100`, with `n` given as an integer.
pub open spec fn cents_s(n: int) -> Scaled {
    Scaled { digits: n, scale: 2 }
}

impl Decimal {
    /// The decimal `(-1)^negative · magnitude(limbs) · 10^(-scale)`.
    pub fn from_parts(negative: bool, limbs: Vec<u32>, scale: i64) -> (r: Decimal)
        ensures
            r.negative == negative,
            r.limbs@ == limbs@,
            r.scale == scale,
    {
        Decimal { negative, limbs, scale }
    }

    /// An independent copy of this number.
    pub fn copy(&self) -> (r: Decimal)
        ensures
            r@ == self@,
            r.limbs@ == self.limbs@,
            r.scale == self.scale,
    {
        let mut limbs: Vec<u32> = Vec::new();
        let mut i: usize = 0;
        while i < self.limbs.len()
            invariant
                i <= self.limbs.len(),
                limbs@ == self.limbs@.subrange(0, i as int),
            decreases self.limbs.len() - i,
        {
            limbs.push(self.limbs[i]);
            i = i + 1;
        }
        assert(limbs@ == self.limbs@);
        Decimal { negative: self.negative, limbs, scale: self.scale }
    }

    /// The scale is at most `limit` in either direction.
    pub fn scale_within(&self, limit: i64) -> (r: bool)
        requires
            limit >= 0,
        ensures
            r == scale_within(self@, limit as int),
    {
        -limit <= self.scale && self.scale <= limit
    }

    /// The scale is within what the arithmetic accepts.
    pub fn is_in_range(&self) -> (r: bool)
        ensures
            r == in_range(*self),
    {
        -SCALE_LIMIT <= self.scale && self.scale <= SCALE_LIMIT
    }

    pub fn is_zero(&self) -> (r: bool)
        ensures
            r == is_zero_s(self@),
    {
        proof {
            lemma_magnitude_zero(self.limbs@);
        }
        let mut i: usize = 0;
        while i < self.limbs.len()
            invariant
                i <= self.limbs.len(),
                forall|j: int| 0 <= j < i ==> self.limbs@[j] == 0,
            decreases self.limbs.len() - i,
        {
            if self.limbs[i] != 0 {
                proof {
                    lemma_magnitude_zero(self.limbs@);
                    assert(!(forall|j: int| 0 <= j < self.limbs@.len() ==> self.limbs@[j] == 0));
                }
                return false;
            }
            i = i + 1;
        }
        true
    }

    pub fn is_negative(&self) -> (r: bool)
        ensures
            r == is_negative_s(self@),
    {
        self.negative && !self.is_zero()
    }
}

/// The number zero.
pub fn zero() -> (r: Decimal)
    ensures
        r@ == int_s(0),
{
    let r = Decimal { negative: false, limbs: Vec::new(), scale: 0 };
    assert(r.limbs@.len() == 0);
    r
}

/// The number one.
pub fn one() -> (r: Decimal)
    ensures
        r@ == int_s(1),
{
    let r = Decimal { negative: false, limbs: vec![1u32], scale: 0 };
    assert(magnitude(r.limbs@.drop_first()) == 0);
    r
}

/// The number one hundred.
pub fn hundred() -> (r: Decimal)
    ensures
        r@ == int_s(100),
{
    let r = Decimal { negative: false, limbs: vec![100u32], scale: 0 };
    assert(magnitude(r.limbs@.drop_first()) == 0);
    r
}

/// The number minus one.
pub fn inverse() -> (r: Decimal)
    ensures
        r@ == int_s(-1),
{
    let r = Decimal { negative: true, limbs: vec![1u32], scale: 0 };
    assert(magnitude(r.limbs@.drop_first()) == 0);
    r
}

/// The number one hundredth, `0.01`.
pub fn cent() -> (r: Decimal)
    ensures
        r@ == cents_s(1),
{
    let r = Decimal { negative: false, limbs: vec![1u32], scale: 2 };
    assert(magnitude(r.limbs@.drop_first()) == 0);
    r
}


pub open spec fn abs_nat(n: int) -> nat {
    if n >= 0 {
        n as nat
    } else {
        (-n) as nat
    }
}

/// The number of decimal digits of `n` (one for zero).
pub open spec fn digit_count(n: nat) -> nat
    decreases n,
{
    if n < 10 {
        1
    } else {
        1 + digit_count(n / 10)
    }
}

/// A number below `10^k` has at most `k` digits.
pub proof fn lemma_digit_count_below(n: nat, k: nat)
    requires
        k >= 1,
        n < pow10(k),
    ensures
        digit_count(n) <= k,
    decreases n,
{
    if n >= 10 {
        let k1 = (k - 1) as nat;
        assert(pow10(k) == 10 * pow10(k1));
        assert(n / 10 < pow10(k1)) by {
            assert(n < 10 * pow10(k1));
        }
        if k1 == 0 {
            assert(pow10(0) == 1);
        }
        lemma_digit_count_below(n / 10, k1);
    }
}

/// A positive number no greater than one has a scale of at least zero, and
/// at most one digit more than its scale.
pub proof fn lemma_share_digits(x: Scaled)
    requires
        !is_negative_s(x),
        !is_zero_s(x),
        !less(int_s(1), x),
    ensures
        x.scale >= 0,
        digit_count(abs_nat(x.digits)) <= x.scale + 1,
{
    let k = common(int_s(1), x);
    lemma_pow10_positive((k - x.scale) as nat);
    assert(at(int_s(1), k) == pow10(k as nat));
    if x.scale < 0 {
        assert(k == 0);
        let n = (-x.scale) as nat;
        assert(pow10(n) == 10 * pow10((n - 1) as nat));
        lemma_pow10_positive((n - 1) as nat);
        assert(pow10(0) == 1);
        assert(x.digits * pow10(n) >= 10) by (nonlinear_arith)
            requires
                x.digits >= 1,
                pow10(n) >= 10,
        ;
    } else {
        assert(k == x.scale);
        assert(pow10(0) == 1);
        assert(((k - x.scale) as nat) == 0);
        assert(x.digits <= pow10(x.scale as nat));
        assert(pow10((x.scale + 1) as nat) == 10 * pow10(x.scale as nat));
        lemma_pow10_positive(x.scale as nat);
        lemma_digit_count_below(abs_nat(x.digits), (x.scale + 1) as nat);
    }
}

/// The shortest way to write `x`: no trailing zero digit, and scale 0 for zero.
pub open spec fn canon(x: Scaled) -> Scaled
    decreases abs_nat(x.digits),
{
    if x.digits == 0 {
        int_s(0)
    } else if x.digits % 10 == 0 {
        canon(Scaled { digits: x.digits / 10, scale: x.scale - 1 })
    } else {
        x
    }
}

/// What `BigDecimal`'s division gives for `a / b`, digits and scale, as a
/// function of the two operands as they are written.
pub uninterp spec fn quotient_of(a: Scaled, b: Scaled) -> Scaled;

/// What `BigDecimal`'s multiplication gives for `a * b`, digits and scale,
/// as a function of the two operands as they are written.
pub uninterp spec fn product_of(a: Scaled, b: Scaled) -> Scaled;

/// How `BigDecimal`'s subtraction writes `a - b`: `a` itself where `b` is
/// zero, `b` negated where `a` is zero, and otherwise the difference with
/// the larger of the two scales.
pub open spec fn difference_s(a: Scaled, b: Scaled) -> Scaled {
    if b.digits == 0 {
        a
    } else if a.digits == 0 {
        Scaled { digits: -b.digits, scale: b.scale }
    } else {
        sub_s(a, b)
    }
}

/// What `BigDecimal::round` gives for a number (in shortest form) rounded
/// to `scale` decimal places.
pub uninterp spec fn rounded_of(x: Scaled, scale: int) -> Scaled;

/// What `BigDecimal::from_str` reads from a text, if the text is a number.
pub uninterp spec fn parsed(s: Seq<char>) -> Option<Scaled>;

/// The number of significant digits that `BigDecimal`'s division keeps.
pub open spec fn division_precision() -> nat {
    100
}

/// Relies on `BigDecimal`'s `+` (by value): the sum is exact, written with
/// the larger of the two scales.
#[verifier::external_body]
pub(crate) fn exact_add(a: &Decimal, b: &Decimal) -> (r: Decimal)
    requires
        in_range(*a),
        in_range(*b),
    ensures
        r@ == add_s(a@, b@),
        r.scale == max_int(a.scale as int, b.scale as int),
{
    let x = BigDecimal::new(BigInt::from_slice(if a.negative { Sign::Minus } else { Sign::Plus }, &a.limbs), a.scale);
    let y = BigDecimal::new(BigInt::from_slice(if b.negative { Sign::Minus } else { Sign::Plus }, &b.limbs), b.scale);
    let (digits, scale) = (x + y).into_bigint_and_scale();
    let (sign, limbs) = digits.to_u32_digits();
    Decimal { negative: sign == Sign::Minus, limbs, scale }
}

/// Relies on `BigDecimal`'s `-` (by value): the difference is exact, written
/// as `difference_s` says.
#[verifier::external_body]
pub(crate) fn exact_sub(a: &Decimal, b: &Decimal) -> (r: Decimal)
    requires
        in_range(*a),
        in_range(*b),
    ensures
        r@ == difference_s(a@, b@),
        same(r@, sub_s(a@, b@)),
        r.scale == a.scale || r.scale == b.scale,
{
    let x = BigDecimal::new(BigInt::from_slice(if a.negative { Sign::Minus } else { Sign::Plus }, &a.limbs), a.scale);
    let y = BigDecimal::new(BigInt::from_slice(if b.negative { Sign::Minus } else { Sign::Plus }, &b.limbs), b.scale);
    let (digits, scale) = (x - y).into_bigint_and_scale();
    let (sign, limbs) = digits.to_u32_digits();
    Decimal { negative: sign == Sign::Minus, limbs, scale }
}

/// Relies on `BigDecimal`'s `*` (by value): the product is exact, written
/// with the sum of the scales, or with the scale of the other operand where
/// one operand is a plain one.
#[verifier::external_body]
pub(crate) fn exact_mul(a: &Decimal, b: &Decimal) -> (r: Decimal)
    requires
        in_range(*a),
        in_range(*b),
    ensures
        r@ == product_of(a@, b@),
        same(r@, mul_s(a@, b@)),
        r.scale == a.scale + b.scale || r.scale == a.scale || r.scale == b.scale,
{
    let x = BigDecimal::new(BigInt::from_slice(if a.negative { Sign::Minus } else { Sign::Plus }, &a.limbs), a.scale);
    let y = BigDecimal::new(BigInt::from_slice(if b.negative { Sign::Minus } else { Sign::Plus }, &b.limbs), b.scale);
    let (digits, scale) = (x * y).into_bigint_and_scale();
    let (sign, limbs) = digits.to_u32_digits();
    Decimal { negative: sign == Sign::Minus, limbs, scale }
}

/// Relies on `BigDecimal`'s `/` (by value), which panics on a zero divisor.
/// The long division keeps every digit of its first integer division and
/// goes on to at least `division_precision()` significant digits (the
/// default precision of a build), then rounds the last one half up.  So the
/// quotient is exact whenever the exact quotient has no more digits than
/// that, and it never crosses a number of that many digits that lies on the
/// same side of the exact quotient; it is not negative where neither operand
/// is.  It is written with the scale of `a`, or with the difference of the
/// scales plus the shifts that the division made: at most one per decimal
/// digit of `b`, and one per further digit of the quotient.
#[verifier::external_body]
pub(crate) fn rounded_div(a: &Decimal, b: &Decimal) -> (r: Decimal)
    requires
        in_range(*a),
        in_range(*b),
        !is_zero_s(b@),
    ensures
        r@ == quotient_of(a@, b@),
        !is_negative_s(a@) && !is_negative_s(b@) ==> !is_negative_s(r@),
        forall|c: Scaled|
            abs_nat(c.digits) < pow10(division_precision()) && !is_negative_s(a@) && b@.digits > 0
                && !less(#[trigger] mul_s(b@, c), a@) ==> !less(c, r@),
        forall|c: Scaled|
            abs_nat(c.digits) < pow10(division_precision()) && !is_negative_s(a@) && b@.digits > 0
                && !less(a@, #[trigger] mul_s(b@, c)) ==> !less(r@, c),
        r.scale == a.scale || (a.scale - b.scale <= r.scale && r.scale <= a.scale - b.scale
            + digit_count(abs_nat(b@.digits)) + division_precision()),
        forall|c: Scaled|
            abs_nat(c.digits) < pow10(division_precision()) && same(a@, #[trigger] mul_s(b@, c))
                ==> same(r@, c),
{
    let x = BigDecimal::new(BigInt::from_slice(if a.negative { Sign::Minus } else { Sign::Plus }, &a.limbs), a.scale);
    let y = BigDecimal::new(BigInt::from_slice(if b.negative { Sign::Minus } else { Sign::Plus }, &b.limbs), b.scale);
    let (digits, scale) = (x / y).into_bigint_and_scale();
    let (sign, limbs) = digits.to_u32_digits();
    Decimal { negative: sign == Sign::Minus, limbs, scale }
}

/// Relies on `BigDecimal::round`: the number rounded to `scale` decimal
/// places with the crate's default rounding mode, written with that scale,
/// and unchanged where it has no more places than that.
#[verifier::external_body]
fn round_places(a: &Decimal, scale: i64) -> (r: Decimal)
    requires
        in_range(*a),
        -SCALE_LIMIT <= scale <= SCALE_LIMIT,
    ensures
        same(r@, rounded_of(canon(a@), scale as int)),
        r.scale == scale,
        a.scale <= scale ==> same(r@, a@),
{
    let x = BigDecimal::new(BigInt::from_slice(if a.negative { Sign::Minus } else { Sign::Plus }, &a.limbs), a.scale);
    let (digits, scale) = x.round(scale).into_bigint_and_scale();
    let (sign, limbs) = digits.to_u32_digits();
    Decimal { negative: sign == Sign::Minus, limbs, scale }
}

/// Relies on `BigDecimal::from_str`: the number that the text denotes, or
/// nothing where the text is not a decimal number.
#[verifier::external_body]
fn parse_text(s: &str) -> (r: Option<Decimal>)
    ensures
        match r {
            Some(d) => parsed(s@) == Some(d@),
            None => parsed(s@) is None,
        },
{
    let (digits, scale) = BigDecimal::from_str(s).ok()?.into_bigint_and_scale();
    let (sign, limbs) = digits.to_u32_digits();
    Some(Decimal { negative: sign == Sign::Minus, limbs, scale })
}

impl Decimal {
    /// Reads a decimal number from text such as `"-12.50"` or `"1e3"`.
    pub fn parse(s: &str) -> (r: Option<Decimal>)
        ensures
            match r {
                Some(d) => parsed(s@) == Some(d@),
                None => parsed(s@) is None,
            },
    {
        parse_text(s)
    }
}


impl Decimal {
    /// `self + o`, or nothing where a scale is out of range.
    pub fn plus(&self, o: &Decimal) -> (r: Option<Decimal>)
        ensures
            r is None <==> !(in_range(*self) && in_range(*o)),
            r matches Some(v) ==> v@ == add_s(self@, o@),
            r matches Some(v) ==> same(v@, add_s(self@, o@)),
            r matches Some(v) ==> v.scale == max_int(self.scale as int, o.scale as int),
    {
        if self.is_in_range() && o.is_in_range() {
            Some(exact_add(self, o))
        } else {
            None
        }
    }

    /// `self - o`, or nothing where a scale is out of range.
    pub fn minus(&self, o: &Decimal) -> (r: Option<Decimal>)
        ensures
            r is None <==> !(in_range(*self) && in_range(*o)),
            r matches Some(v) ==> v@ == difference_s(self@, o@),
            r matches Some(v) ==> same(v@, sub_s(self@, o@)),
            r matches Some(v) ==> v.scale == self.scale || v.scale == o.scale,
    {
        if self.is_in_range() && o.is_in_range() {
            Some(exact_sub(self, o))
        } else {
            None
        }
    }

    /// `self · o`, or nothing where a scale is out of range.
    pub fn times(&self, o: &Decimal) -> (r: Option<Decimal>)
        ensures
            r is None <==> !(in_range(*self) && in_range(*o)),
            r matches Some(v) ==> v@ == product_of(self@, o@),
            r matches Some(v) ==> same(v@, mul_s(self@, o@)),
            r matches Some(v) ==> v.scale == self.scale + o.scale || v.scale == self.scale
                || v.scale == o.scale,
    {
        if self.is_in_range() && o.is_in_range() {
            Some(exact_mul(self, o))
        } else {
            None
        }
    }

    /// `self / o` as `BigDecimal` rounds it, or nothing where a scale is out
    /// of range.
    pub fn over(&self, o: &Decimal) -> (r: Option<Decimal>)
        requires
            !is_zero_s(o@),
        ensures
            r is None <==> !(in_range(*self) && in_range(*o)),
            r matches Some(v) ==> v@ == quotient_of(self@, o@),
            r matches Some(v) ==> forall|c: Scaled|
                abs_nat(c.digits) < pow10(division_precision()) && !is_negative_s(self@) && o@.digits
                    > 0 && !less(#[trigger] mul_s(o@, c), self@) ==> !less(c, v@),
            r matches Some(v) ==> forall|c: Scaled|
                abs_nat(c.digits) < pow10(division_precision()) && !is_negative_s(self@) && o@.digits
                    > 0 && !less(self@, #[trigger] mul_s(o@, c)) ==> !less(v@, c),
            r matches Some(v) ==> (!is_negative_s(self@) && !is_negative_s(o@) ==> !is_negative_s(
                v@,
            )),
            r matches Some(v) ==> (v.scale == self.scale || (self.scale - o.scale <= v.scale
                && v.scale <= self.scale - o.scale + digit_count(abs_nat(o@.digits))
                + division_precision())),
            r matches Some(v) ==> forall|c: Scaled|
                abs_nat(c.digits) < pow10(division_precision()) && same(self@, #[trigger] mul_s(o@, c))
                    ==> same(v@, c),
    {
        if self.is_in_range() && o.is_in_range() {
            Some(rounded_div(self, o))
        } else {
            None
        }
    }

    /// `self` rounded to `scale` decimal places, or nothing where a scale is
    /// out of range.
    pub fn round(&self, scale: i64) -> (r: Option<Decimal>)
        ensures
            r is None <==> !(in_range(*self) && -SCALE_LIMIT <= scale <= SCALE_LIMIT),
            r matches Some(v) ==> same(v@, rounded_of(canon(self@), scale as int)),
            r matches Some(v) ==> v.scale == scale,
            r matches Some(v) ==> (self.scale <= scale ==> same(v@, self@)),
    {
        if self.is_in_range() && -SCALE_LIMIT <= scale && scale <= SCALE_LIMIT {
            Some(round_places(self, scale))
        } else {
            None
        }
    }

    /// `self` is a smaller number than `o`, or nothing where a scale is out
    /// of range.
    pub fn less_than(&self, o: &Decimal) -> (r: Option<bool>)
        ensures
            r is None <==> !(in_range(*self) && in_range(*o)),
            r matches Some(b) ==> b == less(self@, o@),
    {
        let d = self.minus(o)?;
        proof {
            lemma_negative_difference(self@, o@, d@);
        }
        Some(d.is_negative())
    }

    /// `self` and `o` are the same number, or nothing where a scale is out of
    /// range.
    pub fn same_value(&self, o: &Decimal) -> (r: Option<bool>)
        ensures
            r is None <==> !(in_range(*self) && in_range(*o)),
            r matches Some(b) ==> b == same(self@, o@),
    {
        let d = self.minus(o)?;
        proof {
            lemma_negative_difference(self@, o@, d@);
        }
        Some(d.is_zero())
    }
}

/// The sign of a difference tells how two numbers compare.
pub proof fn lemma_negative_difference(a: Scaled, b: Scaled, d: Scaled)
    requires
        same(d, sub_s(a, b)),
    ensures
        is_negative_s(d) <==> less(a, b),
        is_zero_s(d) <==> same(a, b),
{
    let s = sub_s(a, b);
    let k = max_int(d.scale, common(a, b));
    lemma_compare_at(d, s, k);
    lemma_at_add(a, b, k);
    lemma_compare_at(a, b, k);
    lemma_sign_at(d, k);
}

/// Writing a number with more places keeps its sign.
pub proof fn lemma_sign_at(x: Scaled, k: int)
    requires
        k >= x.scale,
    ensures
        at(x, k) < 0 <==> x.digits < 0,
        at(x, k) == 0 <==> x.digits == 0,
        at(x, k) > 0 <==> x.digits > 0,
{
    let p = pow10((k - x.scale) as nat);
    lemma_pow10_positive((k - x.scale) as nat);
    assert(x.digits * p < 0 <==> x.digits < 0) by (nonlinear_arith)
        requires
            p > 0,
    ;
    assert(x.digits * p == 0 <==> x.digits == 0) by (nonlinear_arith)
        requires
            p > 0,
    ;
    assert(x.digits * p > 0 <==> x.digits > 0) by (nonlinear_arith)
        requires
            p > 0,
    ;
}


/// The sum of two numbers that are not negative is not negative.
pub proof fn lemma_nonnegative_sum(a: Scaled, b: Scaled, s: Scaled)
    requires
        !is_negative_s(a),
        !is_negative_s(b),
        same(s, add_s(a, b)),
    ensures
        !is_negative_s(s),
{
    let k = max_int(s.scale, common(a, b));
    lemma_compare_at(s, add_s(a, b), k);
    lemma_at_add(a, b, k);
    lemma_sign_at(a, k);
    lemma_sign_at(b, k);
    lemma_sign_at(s, k);
}


/// Comparing numbers does not depend on how they are written.
pub proof fn lemma_compare_congruent(a: Scaled, b: Scaled, x: Scaled, y: Scaled)
    requires
        same(a, x),
        same(b, y),
    ensures
        less(a, b) == less(x, y),
        same(a, b) == same(x, y),
        is_negative_s(a) == is_negative_s(x),
        is_zero_s(a) == is_zero_s(x),
{
    let k = max_int(max_int(a.scale, b.scale), max_int(x.scale, y.scale));
    lemma_compare_at(a, x, k);
    lemma_compare_at(b, y, k);
    lemma_compare_at(a, b, k);
    lemma_compare_at(x, y, k);
    lemma_sign_at(a, k);
    lemma_sign_at(x, k);
}


/// A result that is the product of two operands is the product of any
/// numbers that are the same as those operands.
pub proof fn lemma_mul_step(r: Scaled, a: Scaled, b: Scaled, x: Scaled, y: Scaled)
    requires
        same(r, mul_s(a, b)),
        same(a, x),
        same(b, y),
    ensures
        same(r, mul_s(x, y)),
{
    lemma_mul_congruent(a, b, x, y);
    lemma_same_trans(r, mul_s(a, b), mul_s(x, y));
}

/// As [`lemma_mul_step`], for a sum.
pub proof fn lemma_add_step(r: Scaled, a: Scaled, b: Scaled, x: Scaled, y: Scaled)
    requires
        same(r, add_s(a, b)),
        same(a, x),
        same(b, y),
    ensures
        same(r, add_s(x, y)),
{
    lemma_add_congruent(a, b, x, y);
    lemma_same_trans(r, add_s(a, b), add_s(x, y));
}

/// As [`lemma_mul_step`], for a difference.
pub proof fn lemma_sub_step(r: Scaled, a: Scaled, b: Scaled, x: Scaled, y: Scaled)
    requires
        same(r, sub_s(a, b)),
        same(a, x),
        same(b, y),
    ensures
        same(r, sub_s(x, y)),
{
    lemma_add_congruent(a, b, x, y);
    lemma_same_trans(r, sub_s(a, b), sub_s(x, y));
}

/// Multiplying by `0.01` divides by one hundred.
pub proof fn lemma_cent(r: Scaled, a: Scaled, x: Scaled)
    requires
        same(r, mul_s(a, cents_s(1))),
        same(a, x),
    ensures
        same(r, percent_s(x)),
{
    lemma_mul_step(r, a, cents_s(1), x, cents_s(1));
    assert(mul_s(x, cents_s(1)) == percent_s(x));
}


/// The product of two numbers that are not negative is not negative.
pub proof fn lemma_nonnegative_product(a: Scaled, b: Scaled, p: Scaled)
    requires
        !is_negative_s(a),
        !is_negative_s(b),
        same(p, mul_s(a, b)),
    ensures
        !is_negative_s(p),
{
    let m = mul_s(a, b);
    assert(m.digits >= 0) by (nonlinear_arith)
        requires
            a.digits >= 0,
            b.digits >= 0,
            m.digits == a.digits * b.digits,
    ;
    lemma_compare_congruent(p, p, m, m);
}

/// One plus a percentage that is not negative is a positive number.
pub proof fn lemma_grown_share_positive(p: Scaled, share: Scaled)
    requires
        !is_negative_s(p),
        share == add_s(int_s(1), percent_s(p)),
    ensures
        share.digits > 0,
{
    let k = common(int_s(1), percent_s(p));
    lemma_at_add(int_s(1), percent_s(p), k);
    lemma_sign_at(int_s(1), k);
    lemma_sign_at(percent_s(p), k);
    assert(pow10(0) == 1);
    lemma_sign_at(share, k);
}

} // verus!
