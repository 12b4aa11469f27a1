//! Discounts: cumulative percentual, per-unit and per-line rates, applied to
//! a line and removed from a discounted line.
use crate::decimal::{
    abs_nat, add_s, at, cent, cents_s, difference_s, in_range, product_of, division_precision, hundred, int_s, is_negative_s, is_zero_s,
    lemma_add_step, lemma_at_add, lemma_at_mul, lemma_at_shift, lemma_cent,
    lemma_compare_at, lemma_compare_congruent, lemma_mul_congruent, lemma_mul_step,
    lemma_nonnegative_sum, lemma_same_refl, lemma_same_sym, lemma_same_trans, lemma_sign_at,
    lemma_sub_step, less, max_int, mul_s, one, parsed, percent_s, pow10, quotient_of, same,
    scale_size, scale_within, sub_s, zero, Decimal, Scaled, RATE_SCALE, VALUE_SCALE,
};
use vstd::prelude::*;

verus! {

/// How a discount applies.
#[derive(PartialEq, Eq, Structural, Clone, Copy, Debug)]
pub enum Mode {
    /// A percentage of the value, as in "10% off".
    Percentual,
    /// A fixed amount off the whole line, whatever the quantity.
    AmountLine,
    /// A fixed amount off each unit.
    AmountUnit,
}

impl Mode {
    /// `0`, `1` and `2` select `Percentual`, `AmountLine` and `AmountUnit`.
    pub fn from_i8(kind: i8) -> (r: Option<Mode>)
        ensures
            r == (if kind == 0 {
                Some(Mode::Percentual)
            } else if kind == 1 {
                Some(Mode::AmountLine)
            } else if kind == 2 {
                Some(Mode::AmountUnit)
            } else {
                None
            }),
    {
        if kind == 0 {
            return Some(Mode::Percentual);
        }
        if kind == 1 {
            return Some(Mode::AmountLine);
        }
        if kind == 2 {
            return Some(Mode::AmountUnit);
        }
        None
    }

}

/// Why a discount could not be added, applied or removed.
#[derive(Debug)]
pub enum DiscountError<S: Into<String>> {
    /// A rate, value, quantity or bound is negative.
    NegativeValue(S),
    /// A discount goes beyond what is allowed.
    OverMaxDiscount(S),
    /// A text is not a decimal number.
    InvalidDecimal(S),
    /// A mode selector is out of range.
    InvalidDiscountMode(S),
    /// A full percentual discount cannot be removed: nothing is left to scale back.
    DivisionByZero(S),
    /// A decimal's scale went out of the range that the arithmetic accepts.
    Other(S),
}

/// The cumulative rates of a [`DiscountComputer`].
pub struct DiscountRates {
    pub percentual: Scaled,
    pub amount_line: Scaled,
    pub amount_unit: Scaled,
}

/// Rates are never negative, the percentual never exceeds one hundred, and
/// rates are written with a moderate scale.
pub open spec fn rates_valid(r: DiscountRates) -> bool {
    !is_negative_s(r.percentual) && !is_negative_s(r.amount_line) && !is_negative_s(
        r.amount_unit) && !less(int_s(100), r.percentual) && scale_within(r.percentual, RATE_SCALE as int)
        && scale_within(r.amount_line, RATE_SCALE as int) && scale_within(
        r.amount_unit,
        RATE_SCALE as int)
}

/// `new` is `old` with `amount` added to the rate of `mode`.
pub open spec fn rate_added(old: DiscountRates, new: DiscountRates, mode: Mode, amount: Scaled) -> bool {
    match mode {
        Mode::Percentual => same(new.percentual, add_s(old.percentual, amount))
            && new.amount_line == old.amount_line && new.amount_unit == old.amount_unit,
        Mode::AmountLine => same(new.amount_line, add_s(old.amount_line, amount))
            && new.percentual == old.percentual && new.amount_unit == old.amount_unit,
        Mode::AmountUnit => same(new.amount_unit, add_s(old.amount_unit, amount))
            && new.percentual == old.percentual && new.amount_line == old.amount_line,
    }
}

/// The discount on a line worth `line` with `qty` units.
pub open spec fn line_discount_s(r: DiscountRates, line: Scaled, qty: Scaled) -> Scaled {
    add_s(add_s(percent_s(mul_s(line, r.percentual)), mul_s(r.amount_unit, qty)), r.amount_line)
}

/// The discount on `qty` units of `unit_value` each.
pub open spec fn discount_value_s(r: DiscountRates, unit_value: Scaled, qty: Scaled) -> Scaled {
    line_discount_s(r, mul_s(unit_value, qty), qty)
}

/// The largest discount allowed: `max` percent of the line.
pub open spec fn cap_s(unit_value: Scaled, qty: Scaled, max: Scaled) -> Scaled {
    percent_s(mul_s(mul_s(unit_value, qty), max))
}

/// `discount` as a percentage of `whole`, as the division writes it: one
/// hundred times `discount` divided by `whole`, and zero where `whole` is
/// zero.
pub open spec fn percentage_s(discount: Scaled, whole: Scaled) -> Scaled {
    if is_zero_s(whole) {
        int_s(0)
    } else {
        quotient_of(product_of(int_s(100), discount), whole)
    }
}

/// `p` is `part` as a percentage of `whole` as far as the numbers tell: it
/// is exact where the exact percentage has at most a hundred digits, and it
/// lies between zero and one hundred where `part` lies between zero and
/// `whole`.
pub open spec fn percentage_holds(p: Scaled, part: Scaled, whole: Scaled) -> bool {
    (is_zero_s(whole) ==> p == int_s(0)) && (!is_zero_s(whole) ==> forall|c: Scaled|
        abs_nat(c.digits) < pow10(division_precision()) && same(
            mul_s(int_s(100), part),
            #[trigger] mul_s(whole, c)) ==> same(p, c)) && (!is_negative_s(part) && !is_negative_s(whole) && !less(whole, part)
        ==> !is_negative_s(p) && !less(int_s(100), p))
}

/// The bound that applies when none is given: one hundred percent.
pub open spec fn max_or_default(max: Option<Decimal>) -> Scaled {
    match max {
        Some(m) => m@,
        None => int_s(100),
    }
}

/// The discount goes over the cap, or over the whole line.
pub open spec fn over_max(r: DiscountRates, unit_value: Scaled, qty: Scaled, max: Scaled) -> bool {
    less(cap_s(unit_value, qty, max), discount_value_s(r, unit_value, qty)) || less(
        mul_s(unit_value, qty),
        discount_value_s(r, unit_value, qty))
}

/// What is left to scale back when removing the discounts from `discounted`.
pub open spec fn undiscount_base_s(r: DiscountRates, discounted: Scaled, qty: Scaled) -> Scaled {
    add_s(add_s(discounted, r.amount_line), mul_s(r.amount_unit, qty))
}

/// How the removal writes what is left to scale back.
pub open spec fn undiscount_base_r(r: DiscountRates, discounted: Scaled, qty: Scaled) -> Scaled {
    add_s(add_s(discounted, r.amount_line), product_of(r.amount_unit, qty))
}

/// How the removal writes the share that the percentual left.
pub open spec fn kept_share_r(r: DiscountRates) -> Scaled {
    difference_s(int_s(1), product_of(r.percentual, cents_s(1)))
}

/// The value before discount that the removal gives for `discounted`: with
/// no percentual, what is left to scale back as it is; otherwise that
/// divided by the share that the percentual left.
pub open spec fn undiscounted_s(r: DiscountRates, discounted: Scaled, qty: Scaled) -> Scaled {
    if is_zero_s(r.percentual) {
        undiscount_base_r(r, discounted, qty)
    } else {
        quotient_of(undiscount_base_r(r, discounted, qty), kept_share_r(r))
    }
}

/// The share of a line that is left after the percentual discount.
pub open spec fn kept_share_s(r: DiscountRates) -> Scaled {
    sub_s(int_s(1), percent_s(r.percentual))
}

/// `part` as a percentage of `whole`, zero where `whole` is zero, or
/// nothing where a scale is out of range.
pub(crate) fn percentage_of(part: &Decimal, whole: &Decimal) -> (r: Option<Decimal>)
    ensures
        r is None ==> !(in_range(*part) && in_range(*whole)),
        r matches Some(p) ==> p@ == percentage_s(part@, whole@),
        r matches Some(p) ==> percentage_holds(p@, part@, whole@),
{
    if whole.is_zero() {
        return Some(zero());
    }
    let n = hundred().times(part)?;
    let p = n.over(whole)?;
    proof {
        let h = int_s(100);
        assert forall|c: Scaled|
            abs_nat(c.digits) < pow10(division_precision()) && same(
                mul_s(h, part@),
                #[trigger] mul_s(whole@, c)) implies same(p@, c) by {
            lemma_same_trans(n@, mul_s(h, part@), mul_s(whole@, c));
        }
        crate::decimal::lemma_pow10_at_least(division_precision());
        assert(abs_nat(h.digits) < pow10(division_precision()));
        if !is_negative_s(part@) && !is_negative_s(whole@) && !less(whole@, part@) {
            crate::decimal::lemma_nonnegative_product(h, part@, n@);
            lemma_compare_congruent(whole@, whole@, whole@, whole@);
            lemma_percent_bound(part@, whole@, n@);
        }
    }
    Some(p)
}

/// What is known of a percentage does not depend on how its operands are
/// written.
pub proof fn lemma_percentage_holds_congruent(p: Scaled, a: Scaled, b: Scaled, x: Scaled, y: Scaled)
    requires
        percentage_holds(p, a, b),
        same(a, x),
        same(b, y),
    ensures
        percentage_holds(p, x, y),
{
    lemma_compare_congruent(b, a, y, x);
    lemma_compare_congruent(a, a, x, x);
    lemma_same_refl(int_s(100));
    lemma_mul_congruent(int_s(100), a, int_s(100), x);
    if is_zero_s(b) {
        lemma_compare_congruent(b, b, y, y);
    }
    assert forall|c: Scaled|
        abs_nat(c.digits) < pow10(division_precision()) && same(
            mul_s(int_s(100), x),
            #[trigger] mul_s(y, c)) && !is_zero_s(y) implies same(p, c) by {
        lemma_same_refl(c);
        lemma_mul_congruent(b, c, y, c);
        lemma_compare_congruent(b, b, y, y);
        lemma_same_trans(mul_s(int_s(100), a), mul_s(int_s(100), x), mul_s(y, c));
        lemma_same_sym(mul_s(b, c), mul_s(y, c));
        lemma_same_trans(mul_s(int_s(100), a), mul_s(y, c), mul_s(b, c));
        assert(same(mul_s(int_s(100), a), mul_s(b, c)));
    }
}

/// A part no larger than the whole is at most one hundred percent of it.
proof fn lemma_percent_bound(part: Scaled, whole: Scaled, n: Scaled)
    requires
        !less(whole, part),
        same(n, mul_s(int_s(100), part)),
    ensures
        !less(mul_s(whole, int_s(100)), n),
{
    let h = int_s(100);
    let k = max_int(max_int(part.scale, whole.scale), max_int(n.scale, 0));
    lemma_compare_at(whole, part, k);
    lemma_at_mul(h, part, 0, k);
    lemma_at_mul(whole, h, k, 0);
    assert(pow10(0) == 1);
    lemma_compare_at(n, mul_s(h, part), k);
    lemma_compare_at(mul_s(whole, h), n, k);
    assert(at(h, 0) == 100);
    assert(at(whole, k) * 100 >= 100 * at(part, k)) by (nonlinear_arith)
        requires
            at(whole, k) >= at(part, k),
    ;
}

fn range_error() -> (r: DiscountError<String>)
    ensures
        r is Other,
{
    DiscountError::Other("a decimal scale is out of range".to_owned())
}

/// What adding `discount` to the rate of `mode` gives: `r` and the rates `new` that follow from `old`.
pub open spec fn add_discount_outcome(old: DiscountRates, new: DiscountRates, discount: Scaled, mode: Mode, r: Option<DiscountError<String>>) -> bool {
    (is_negative_s(discount) <==> r matches Some(DiscountError::NegativeValue(_)))
        && (r matches Some(DiscountError::OverMaxDiscount(_)) ==> !is_negative_s(discount) && mode == Mode::Percentual && less(int_s(100), add_s(old.percentual, discount)))
        && (!is_negative_s(discount) && mode == Mode::Percentual && less(int_s(100), add_s(old.percentual, discount)) ==> (r matches Some(DiscountError::OverMaxDiscount(_)) || r matches Some(DiscountError::Other(_))))
        && (r matches Some(e) ==> (e is NegativeValue || e is OverMaxDiscount || e is Other))
        && (r matches Some(DiscountError::Other(_)) <==> !is_negative_s(discount) && !scale_within(discount, RATE_SCALE as int))
        && (r is Some ==> new == old)
        && (r is None ==> match mode { Mode::Percentual => same(new.percentual, add_s(old.percentual, discount)) && new.amount_line == old.amount_line && new.amount_unit == old.amount_unit, Mode::AmountLine => same(new.amount_line, add_s(old.amount_line, discount)) && new.percentual == old.percentual && new.amount_unit == old.amount_unit, Mode::AmountUnit => same(new.amount_unit, add_s(old.amount_unit, discount)) && new.percentual == old.percentual && new.amount_line == old.amount_line, })
        && (!is_negative_s(discount) && !(mode == Mode::Percentual && less(int_s(100), add_s(old.percentual, discount))) && scale_within(discount, RATE_SCALE as int) ==> r is None)
}

/// What applying the discount `rates` to `qty` units of `unit_value` under the cap `max` gives.
pub open spec fn compute_outcome(rates: DiscountRates, unit_value: Scaled, qty: Scaled, max: Scaled, r: Result<(Decimal, Decimal), DiscountError<String>>) -> bool {
    ((is_negative_s(max) || is_negative_s(unit_value) || is_negative_s(qty)) <==> r matches Err(DiscountError::NegativeValue(_)))
        && (r matches Err(DiscountError::OverMaxDiscount(_)) ==> over_max(rates, unit_value, qty, max))
        && (r matches Err(e) ==> (e is NegativeValue || e is OverMaxDiscount || e is Other))
        && (r matches Ok((d, p)) ==> !over_max(rates, unit_value, qty, max) && same(d@, discount_value_s(rates, unit_value, qty)) && p@ == percentage_s(d@, product_of(unit_value, qty)) && percentage_holds(p@, discount_value_s(rates, unit_value, qty), mul_s(unit_value, qty)))
        && (!(is_negative_s(max) || is_negative_s(unit_value) || is_negative_s(qty)) ==> (r is Ok || r matches Err(DiscountError::OverMaxDiscount(_)) || r matches Err(DiscountError::Other(_))))
        && (scale_within(unit_value, VALUE_SCALE as int) && scale_within(qty, VALUE_SCALE as int) && scale_within(max, VALUE_SCALE as int) ==> !(r matches Err(DiscountError::Other(_))))
        && (r matches Ok((d, p)) ==> scale_size(d@) <= scale_size(unit_value) + scale_size(qty) + RATE_SCALE + 2)
        && (!(is_negative_s(max) || is_negative_s(unit_value) || is_negative_s(qty)) && over_max(rates, unit_value, qty, max) ==> r is Err)
}

/// What removing the discount `rates` from `discounted`, a line of `qty` units, gives.
pub open spec fn undiscount_outcome(rates: DiscountRates, discounted: Scaled, qty: Scaled, r: Result<(Decimal, Decimal, Decimal), DiscountError<String>>) -> bool {
    ((is_negative_s(discounted) || is_negative_s(qty)) <==> r matches Err(DiscountError::NegativeValue(_)))
        && (r matches Err(DiscountError::DivisionByZero(_)) ==> same(rates.percentual, int_s(100)))
        && (r matches Err(e) ==> (e is NegativeValue || e is DivisionByZero || e is Other))
        && (scale_within(discounted, VALUE_SCALE as int) && scale_within(qty, VALUE_SCALE as int) ==> !(r matches Err(DiscountError::Other(_))))
        && (!(is_negative_s(discounted) || is_negative_s(qty)) && !same(rates.percentual, int_s(100)) ==> (r is Ok || r matches Err(DiscountError::Other(_))))
        && (r matches Ok((v, removed, percentage)) ==> v@ == undiscounted_s(rates, discounted, qty) && removed@ == difference_s(v@, discounted) && percentage@ == percentage_s(removed@, v@) && same(removed@, sub_s(v@, discounted)) && percentage_holds(percentage@, removed@, v@))
        && (r matches Ok((v, removed, percentage)) ==> is_zero_s(rates.percentual) ==> same(v@, undiscount_base_s(rates, discounted, qty)))
        && (r matches Ok((v, removed, percentage)) ==> forall|line: Scaled| abs_nat(line.digits) < pow10(division_precision()) && same(discounted, sub_s(line, #[trigger] line_discount_s(rates, line, qty))) ==> same(v@, line))
}

/// The number a text optionally gives, one hundred where there is none.
pub open spec fn parsed_or_hundred(text: Option<&str>) -> Option<Scaled> {
    match text {
        Some(t) => parsed(t@),
        None => Some(int_s(100)),
    }
}

/// Holds cumulative discount rates and applies them.
pub struct DiscountComputer {
    percentual: Decimal,
    amount_line: Decimal,
    amount_unit: Decimal,
}

impl View for DiscountComputer {
    type V = DiscountRates;

    closed spec fn view(&self) -> DiscountRates {
        DiscountRates {
            percentual: self.percentual@,
            amount_line: self.amount_line@,
            amount_unit: self.amount_unit@,
        }
    }
}

impl Default for DiscountComputer {
    fn default() -> (r: DiscountComputer)
        ensures
            r@ == (DiscountRates {
                percentual: int_s(0),
                amount_line: int_s(0),
                amount_unit: int_s(0),
            }),
    {
        DiscountComputer::new()
    }
}

impl DiscountComputer {
    pub open spec fn valid(&self) -> bool {
        rates_valid(self@)
    }

    /// A computer with every rate at zero.
    pub fn new() -> (r: DiscountComputer)
        ensures
            r@ == (DiscountRates {
                percentual: int_s(0),
                amount_line: int_s(0),
                amount_unit: int_s(0),
            }),
            r.valid(),
    {
        DiscountComputer { percentual: zero(), amount_line: zero(), amount_unit: zero() }
    }

    /// The cumulative percentual rate.
    pub fn percentual(&self) -> (r: Decimal)
        ensures
            r@ == self@.percentual,
    {
        self.percentual.copy()
    }

    /// The cumulative amount taken off each line.
    pub fn amount_line(&self) -> (r: Decimal)
        ensures
            r@ == self@.amount_line,
    {
        self.amount_line.copy()
    }

    /// The cumulative amount taken off each unit.
    pub fn amount_unit(&self) -> (r: Decimal)
        ensures
            r@ == self@.amount_unit,
    {
        self.amount_unit.copy()
    }

    /// Adds `discount` to the rate of `mode`.  A negative discount is
    /// refused, and so is a percentual one that would take the cumulative
    /// percentual over one hundred; then nothing changes.
    pub fn add_discount(&mut self, discount: Decimal, mode: Mode) -> (r: Option<
        DiscountError<String>,
    >)
        requires
            old(self).valid(),
        ensures
            final(self).valid(),
            add_discount_outcome(old(self)@, final(self)@, discount@, mode, r),
    {
        if discount.is_negative() {
            return Some(DiscountError::NegativeValue("negative discount".to_owned()));
        }
        if !discount.scale_within(RATE_SCALE) {
            return Some(range_error());
        }
        let old_value = match mode {
            Mode::Percentual => &self.percentual,
            Mode::AmountLine => &self.amount_line,
            Mode::AmountUnit => &self.amount_unit,
        };
        let new_value = match old_value.plus(&discount) {
            Some(v) => v,
            None => return Some(range_error()),
        };

        proof {
            lemma_nonnegative_sum(old_value@, discount@, new_value@);
            lemma_compare_congruent(
                int_s(100),
                new_value@,
                int_s(100),
                add_s(old_value@, discount@));
        }
        if mode == Mode::Percentual {
            match hundred().less_than(&new_value) {
                Some(true) => {
                    return Some(
                        DiscountError::OverMaxDiscount(
                            "percentual discount over 100%".to_owned()));
                },
                Some(false) => {},
                None => return Some(range_error()),
            }
        }
        match mode {
            Mode::Percentual => self.percentual = new_value,
            Mode::AmountLine => self.amount_line = new_value,
            Mode::AmountUnit => self.amount_unit = new_value,
        }
        None
    }

    /// The discount on `qty` units of `unit_value` each, and that discount as
    /// a percentage of the line.  `max_discount_allowed` (one hundred when
    /// absent) caps the discount at that percentage of the line.
    #[verifier::rlimit(50)]
    #[verifier::spinoff_prover]
    pub fn compute(
        &self,
        unit_value: Decimal,
        qty: Decimal,
        max_discount_allowed: Option<Decimal>) -> (r: Result<(Decimal, Decimal), DiscountError<String>>)
        requires
            self.valid(),
        ensures
            compute_outcome(self@, unit_value@, qty@, max_or_default(max_discount_allowed), r),
    {
        let max = match max_discount_allowed {
            Some(m) => m,
            None => hundred(),
        };
        if max.is_negative() {
            return Err(DiscountError::NegativeValue("negative max_discount_allowed".to_owned()));
        }
        if unit_value.is_negative() {
            return Err(DiscountError::NegativeValue("negative unit_value".to_owned()));
        }
        if qty.is_negative() {
            return Err(DiscountError::NegativeValue("negative qty".to_owned()));
        }
        let ghost uv = unit_value@;
        let ghost q = qty@;
        let ghost rates = self@;
        let Some((line, d)) = self.line_and_discount(&unit_value, &qty) else {
            return Err(range_error())
        };
        let Some(e) = line.times(&max) else { return Err(range_error()) };
        let Some(cap) = e.times(&cent()) else { return Err(range_error()) };
        let ghost l = mul_s(uv, q);
        let ghost dv = discount_value_s(rates, uv, q);
        let ghost cap_v = cap_s(uv, q, max@);
        proof {
            lemma_same_refl(max@);
            lemma_mul_step(e@, line@, max@, l, max@);
            lemma_cent(cap@, e@, mul_s(l, max@));
            lemma_compare_congruent(cap@, d@, cap_v, dv);
            lemma_compare_congruent(line@, d@, l, dv);
        }
        match cap.less_than(&d) {
            Some(true) => {
                return Err(DiscountError::OverMaxDiscount("discount over max_discount_allowed".to_owned()));
            },
            Some(false) => {},
            None => return Err(range_error()),
        }
        match line.less_than(&d) {
            Some(true) => {
                return Err(DiscountError::OverMaxDiscount("discount over 100% of the line".to_owned()));
            },
            Some(false) => {},
            None => return Err(range_error()),
        }
        let Some(percentage) = percentage_of(&d, &line) else { return Err(range_error()) };
        proof {
            lemma_percentage_holds_congruent(percentage@, d@, line@, dv, l);
        }
        Ok((d, percentage))
    }

    /// The value of `qty` units of `unit_value` each, and its discount, or
    /// nothing where a scale is out of range.
    #[verifier::rlimit(60)]
    #[verifier::spinoff_prover]
    fn line_and_discount(&self, unit_value: &Decimal, qty: &Decimal) -> (r: Option<(Decimal, Decimal)>)
        requires
            self.valid(),
        ensures
            r matches Some((line, d)) ==> line@ == product_of(unit_value@, qty@),
            r matches Some((line, d)) ==> same(line@, mul_s(unit_value@, qty@)) && same(
                d@,
                discount_value_s(self@, unit_value@, qty@)),
            r matches Some((line, d)) ==> scale_size(line@) <= scale_size(unit_value@) + scale_size(
                qty@) && scale_size(d@) <= scale_size(unit_value@) + scale_size(qty@) + RATE_SCALE + 2,
            scale_within(unit_value@, VALUE_SCALE as int) && scale_within(qty@, VALUE_SCALE as int)
                ==> r is Some,
    {
        let ghost uv = unit_value@;
        let ghost q = qty@;
        let ghost rates = self@;
        let line = unit_value.times(qty)?;
        let a1 = line.times(&self.percentual)?;
        let a2 = a1.times(&cent())?;
        let b = self.amount_unit.times(qty)?;
        let c = a2.plus(&b)?;
        let d = c.plus(&self.amount_line)?;
        proof {
            let l = mul_s(uv, q);
            lemma_same_refl(rates.percentual);
            lemma_same_refl(rates.amount_line);
            let pl = mul_s(l, rates.percentual);
            lemma_mul_step(a1@, line@, rates.percentual, l, rates.percentual);
            lemma_cent(a2@, a1@, pl);
            let u = mul_s(rates.amount_unit, q);
            lemma_add_step(c@, a2@, b@, percent_s(pl), u);
            lemma_add_step(d@, c@, rates.amount_line, add_s(percent_s(pl), u), rates.amount_line);
        }
        Some((line, d))
    }

    /// Removes the discounts from `discounted`, the value of a line of `qty`
    /// units after discount: the amounts are added back and the result is
    /// scaled back by the share that the percentual left (not at all where
    /// there is no percentual).  Gives the value before discount, the
    /// discount removed, and that discount as a percentage of the value
    /// before discount.
    pub fn un_discount(&self, discounted: Decimal, qty: Decimal) -> (r: Result<
        (Decimal, Decimal, Decimal),
        DiscountError<String>,
    >)
        requires
            self.valid(),
        ensures
            undiscount_outcome(self@, discounted@, qty@, r),
    {
        if discounted.is_negative() {
            return Err(DiscountError::NegativeValue("negative discounted".to_owned()));
        }
        if qty.is_negative() {
            return Err(DiscountError::NegativeValue("negative qty".to_owned()));
        }
        let ghost rates = self@;
        let Some(e1) = discounted.plus(&self.amount_line) else { return Err(range_error()) };
        let Some(u) = self.amount_unit.times(&qty) else { return Err(range_error()) };
        let Some(base) = e1.plus(&u) else { return Err(range_error()) };
        let ghost base_v = undiscount_base_s(rates, discounted@, qty@);
        let ghost kept_v = kept_share_s(rates);
        proof {
            lemma_same_refl(rates.amount_line);
            lemma_same_refl(discounted@);
            lemma_add_step(e1@, discounted@, rates.amount_line, discounted@, rates.amount_line);
            lemma_add_step(
                base@,
                e1@,
                u@,
                add_s(discounted@, rates.amount_line),
                mul_s(rates.amount_unit, qty@));
        }
        let v = if self.percentual.is_zero() {
            proof {
                lemma_kept_share_full(rates.percentual, kept_v);
                assert forall|line: Scaled|
                    abs_nat(line.digits) < pow10(division_precision()) && same(
                        discounted@,
                        sub_s(line, #[trigger] line_discount_s(rates, line, qty@))) implies same(base@, line) by {
                    lemma_undiscount_identity(rates, discounted@, qty@, line);
                    lemma_same_refl(line);
                    lemma_mul_congruent(kept_v, line, int_s(1), line);
                    assert(mul_s(int_s(1), line) == line);
                    lemma_same_trans(base@, base_v, mul_s(kept_v, line));
                    lemma_same_trans(base@, mul_s(kept_v, line), line);
                }
            }
            base
        } else {
            let Some(pp) = self.percentual.times(&cent()) else { return Err(range_error()) };
            let Some(kept) = one().minus(&pp) else { return Err(range_error()) };
            proof {
                lemma_same_refl(rates.percentual);
                lemma_same_refl(int_s(1));
                lemma_cent(pp@, rates.percentual, rates.percentual);
                lemma_sub_step(kept@, int_s(1), pp@, int_s(1), percent_s(rates.percentual));
                lemma_kept_share_zero(rates.percentual, kept_v);
                lemma_compare_congruent(kept@, int_s(0), kept_v, int_s(0));
            }
            if kept.is_zero() {
                return Err(DiscountError::DivisionByZero("percentual discount of 100%".to_owned()));
            }
            proof {
                lemma_kept_share_bounds(rates.percentual, kept_v);
                lemma_compare_congruent(kept@, int_s(1), kept_v, int_s(1));
                lemma_compare_congruent(int_s(1), kept@, int_s(1), kept_v);
                crate::decimal::lemma_share_digits(kept@);
            }
            let Some(v) = base.over(&kept) else { return Err(range_error()) };
            proof {
                assert forall|line: Scaled|
                    abs_nat(line.digits) < pow10(division_precision()) && same(
                        discounted@,
                        sub_s(line, #[trigger] line_discount_s(rates, line, qty@))) implies same(v@, line) by {
                    lemma_undiscount_identity(rates, discounted@, qty@, line);
                    lemma_same_refl(line);
                    lemma_mul_congruent(kept_v, line, kept@, line);
                    lemma_same_sym(kept_v, kept@);
                    lemma_same_sym(mul_s(kept_v, line), mul_s(kept@, line));
                    lemma_same_trans(base@, base_v, mul_s(kept_v, line));
                    lemma_same_trans(base@, mul_s(kept_v, line), mul_s(kept@, line));
                }
            }
            v
        };
        let Some(removed) = v.minus(&discounted) else { return Err(range_error()) };
        let Some(percentage) = percentage_of(&removed, &v) else { return Err(range_error()) };
        Ok((v, removed, percentage))
    }

    /// [`DiscountComputer::add_discount`] on a discount given as text.
    pub fn add_discount_from_str(&mut self, discount: &str, mode: Mode) -> (r: Option<
        DiscountError<String>,
    >)
        requires
            old(self).valid(),
        ensures
            final(self).valid(),
            parsed(discount@) is None <==> r matches Some(DiscountError::InvalidDecimal(_)),
            parsed(discount@) is None ==> final(self)@ == old(self)@,
            parsed(discount@) matches Some(d) ==> add_discount_outcome(
                old(self)@,
                final(self)@,
                d,
                mode,
                r),
    {
        match Decimal::parse(discount) {
            Some(d) => self.add_discount(d, mode),
            None => Some(DiscountError::InvalidDecimal("discount is not a decimal".to_owned())),
        }
    }

    /// [`DiscountComputer::compute`] on values given as text.
    pub fn compute_from_str(&self, unit_value: &str, qty: &str, max_discount_allowed: Option<&str>) -> (r:
        Result<(Decimal, Decimal), DiscountError<String>>)
        requires
            self.valid(),
        ensures
            (parsed(unit_value@) is None || parsed(qty@) is None || parsed_or_hundred(
                max_discount_allowed) is None) <==> r matches Err(DiscountError::InvalidDecimal(_)),
            parsed(unit_value@) is Some && parsed(qty@) is Some && parsed_or_hundred(
                max_discount_allowed,
            ) is Some ==> compute_outcome(
                self@,
                parsed(unit_value@)->Some_0,
                parsed(qty@)->Some_0,
                parsed_or_hundred(max_discount_allowed)->Some_0,
                r,
            ),
    {
        let Some(uv) = Decimal::parse(unit_value) else {
            return Err(DiscountError::InvalidDecimal("unit_value is not a decimal".to_owned()));
        };
        let Some(q) = Decimal::parse(qty) else {
            return Err(DiscountError::InvalidDecimal("qty is not a decimal".to_owned()));
        };
        let max = match max_discount_allowed {
            Some(m) => match Decimal::parse(m) {
                Some(v) => Some(v),
                None => {
                    return Err(
                        DiscountError::InvalidDecimal(
                            "max_discount_allowed is not a decimal".to_owned()));
                },
            },
            None => None,
        };
        let ghost uvs = uv@;
        let ghost qs = q@;
        let r = self.compute(uv, q, max);
        proof {
            if r is Ok {
                assert(parsed(unit_value@) == Some(uvs) && parsed(qty@) == Some(qs));
            }
        }
        r
    }

    /// [`DiscountComputer::un_discount`] on values given as text.
    pub fn un_discount_from_str(&self, discounted: &str, qty: &str) -> (r: Result<
        (Decimal, Decimal, Decimal),
        DiscountError<String>,
    >)
        requires
            self.valid(),
        ensures
            (parsed(discounted@) is None || parsed(qty@) is None) <==> r matches Err(
                DiscountError::InvalidDecimal(_)),
            parsed(discounted@) is Some && parsed(qty@) is Some ==> undiscount_outcome(
                self@,
                parsed(discounted@)->Some_0,
                parsed(qty@)->Some_0,
                r,
            ),
    {
        let Some(x) = Decimal::parse(discounted) else {
            return Err(DiscountError::InvalidDecimal("discounted is not a decimal".to_owned()));
        };
        let Some(q) = Decimal::parse(qty) else {
            return Err(DiscountError::InvalidDecimal("qty is not a decimal".to_owned()));
        };
        let ghost xs = x@;
        let ghost qs = q@;
        let r = self.un_discount(x, q);
        proof {
            if r is Ok {
                assert(parsed(discounted@) == Some(xs) && parsed(qty@) == Some(qs));
            }
        }
        r
    }
}

/// With no percentual, the share left is all of the line.
proof fn lemma_kept_share_full(p: Scaled, kept: Scaled)
    requires
        is_zero_s(p),
        kept == sub_s(int_s(1), percent_s(p)),
    ensures
        same(kept, int_s(1)),
{
    let k = max_int(p.scale + 2, 0);
    lemma_at_add(int_s(1), percent_s(p), k);
    lemma_sign_at(percent_s(p), k);
    lemma_compare_at(kept, int_s(1), k);
}

/// The share left by a percentual between zero and one hundred is between
/// zero and one.
#[verifier::spinoff_prover]
proof fn lemma_kept_share_bounds(p: Scaled, kept: Scaled)
    requires
        !is_negative_s(p),
        !less(int_s(100), p),
        kept == sub_s(int_s(1), percent_s(p)),
    ensures
        !is_negative_s(kept),
        !less(int_s(1), kept),
{
    let k = max_int(p.scale + 2, 2);
    lemma_at_add(int_s(1), percent_s(p), k);
    lemma_sign_at(kept, k);
    lemma_sign_at(p, k - 2);
    lemma_compare_at(p, int_s(100), k - 2);
    lemma_compare_at(int_s(1), kept, k);
    lemma_sign_at(percent_s(p), k);
    lemma_at_shift(int_s(1), 0, (k - 2) as nat);
    lemma_at_shift(int_s(1), k - 2, 2);
    assert(pow10(0) == 1);
    assert(pow10(2) == 100) by {
        assert(pow10(1) == 10);
    }
    assert(at(int_s(100), k - 2) == 100 * pow10((k - 2) as nat));
    assert(at(percent_s(p), k) == at(p, k - 2));
    assert(at(int_s(1), k) == 100 * pow10((k - 2) as nat));
    assert(at(p, k - 2) <= 100 * pow10((k - 2) as nat));
    assert(at(kept, k) == at(int_s(1), k) - at(percent_s(p), k));
    assert(at(kept, k) >= 0);
}

/// The share left by the percentual is zero exactly when the percentual is
/// one hundred.
proof fn lemma_kept_share_zero(p: Scaled, kept: Scaled)
    requires
        kept == sub_s(int_s(1), percent_s(p)),
    ensures
        is_zero_s(kept) <==> same(p, int_s(100)),
{
    let k = max_int(p.scale + 2, 2);
    lemma_at_add(int_s(1), percent_s(p), k);
    lemma_sign_at(kept, k);
    lemma_compare_at(p, int_s(100), k - 2);
    lemma_at_shift(int_s(1), 0, (k - 2) as nat);
    lemma_at_shift(int_s(1), k - 2, 2);
    assert(pow10(0) == 1);
    assert(pow10(2) == 100) by {
        assert(pow10(1) == 10);
    }
    assert(at(int_s(100), k - 2) == 100 * pow10((k - 2) as nat));
    assert(at(percent_s(p), k) == at(p, k - 2));
}

/// Removing the amounts from a discounted line leaves the share of the line
/// that the percentual kept.
pub proof fn lemma_undiscount_identity(r: DiscountRates, discounted: Scaled, qty: Scaled, line: Scaled)
    requires
        same(discounted, sub_s(line, line_discount_s(r, line, qty))),
    ensures
        same(undiscount_base_s(r, discounted, qty), mul_s(kept_share_s(r), line)),
{
    let pl = mul_s(line, r.percentual);
    let big_p = percent_s(pl);
    let u = mul_s(r.amount_unit, qty);
    let al = r.amount_line;
    let kept = kept_share_s(r);
    let base = undiscount_base_s(r, discounted, qty);
    let ld = line_discount_s(r, line, qty);
    let m = max_int(
        max_int(max_int(line.scale, r.percentual.scale + 2), max_int(u.scale, al.scale)),
        max_int(max_int(discounted.scale, base.scale), max_int(ld.scale, 0)));
    let m = max_int(m, max_int(kept.scale, pl.scale + 2));
    let k = m + m;
    // left side
    lemma_at_add(add_s(discounted, al), u, k);
    lemma_at_add(discounted, al, k);
    lemma_compare_at(discounted, sub_s(line, ld), k);
    lemma_at_add(line, ld, k);
    lemma_at_add(add_s(big_p, u), al, k);
    lemma_at_add(big_p, u, k);
    // right side
    lemma_at_mul(kept, line, m, m);
    lemma_at_add(int_s(1), percent_s(r.percentual), m);
    lemma_at_mul(line, r.percentual, m, m - 2);
    assert(at(big_p, k) == at(pl, k - 2));
    assert(at(percent_s(r.percentual), m) == at(r.percentual, m - 2));
    lemma_at_shift(line, m, m as nat);
    lemma_at_shift(int_s(1), 0, m as nat);
    assert(pow10(0) == 1);
    let x = at(line, m);
    let y = at(r.percentual, m - 2);
    let t = pow10(m as nat);
    assert((t - y) * x == x * t - x * y) by (nonlinear_arith);
    lemma_compare_at(base, mul_s(kept, line), k);
}

} // verus!
