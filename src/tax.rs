//! Taxes: stages of cumulative rates, and the three-stage composition of
//! taxes on the base, taxes on tax, and taxes left out of the tax on tax.
use crate::decimal::{
    abs_nat, add_s, at, cent, cents_s, difference_s, product_of, common, division_precision, hundred, in_range, int_s,
    is_negative_s, is_zero_s, lemma_add_step, lemma_at_add, lemma_at_mul, lemma_at_shift,
    lemma_cent, lemma_compare_at, lemma_compare_congruent, lemma_mul_step,
    lemma_negative_difference, lemma_nonnegative_sum, lemma_same_refl, lemma_same_sym,
    lemma_same_trans, lemma_sign_at, lemma_sub_step, less, max_int, mul_s, one, parsed, percent_s,
    pow10, quotient_of, same, scale_size, scale_within, sub_s, zero, Decimal, Scaled, INPUT_SCALE,
    RATE_SCALE, VALUE_SCALE,
};
use crate::discount::{percentage_holds, percentage_of};
use vstd::prelude::*;

verus! {

/// How a tax applies.
#[derive(PartialEq, Eq, Structural, Clone, Copy, Debug)]
pub enum Mode {
    /// A percentage of the taxable value.
    Percentual,
    /// A fixed amount on the whole line, whatever the quantity.
    AmountLine,
    /// A fixed amount on each unit.
    AmountUnit,
}

impl Mode {
    /// `0`, `1` and `2` select `Percentual`, `AmountLine` and `AmountUnit`.
    pub fn from_i8(kind: i8) -> (r: Option<Mode>)
        ensures
            r == (if kind == 0 {
                Some(Mode::Percentual)
            } else if kind == 1 {
                Some(Mode::AmountLine)
            } else if kind == 2 {
                Some(Mode::AmountUnit)
            } else {
                None
            }),
    {
        if kind == 0 {
            return Some(Mode::Percentual);
        }
        if kind == 1 {
            return Some(Mode::AmountLine);
        }
        if kind == 2 {
            return Some(Mode::AmountUnit);
        }
        None
    }
}

/// Why a tax could not be added, computed or removed.
#[derive(Debug)]
pub enum TaxError<S: Into<String>> {
    /// A rate, value or quantity is negative, or a taxed value is smaller
    /// than a stage's fixed amounts.
    NegativeValue(S),
    /// A value goes beyond what is allowed.
    OverMaxDiscount(S),
    /// A text is not a decimal number.
    InvalidDecimal(S),
    /// A mode or stage selector is out of range.
    InvalidDiscountMode(S),
    /// A ratio of zero to zero.
    DivisionByZero(S),
    /// A decimal's scale went out of the range that the arithmetic accepts.
    Other(S),
}

/// When a tax is charged.
#[derive(PartialEq, Eq, Structural, Clone, Copy, Debug)]
pub enum Stage {
    /// Charged on the value of the products.
    OverTaxable,
    /// Charged on the value of the products plus their over-taxable tax.
    OverTax,
    /// Charged like an over-taxable tax, but left out of the base of the
    /// over-tax stage.
    OverTaxIgnorable,
}

impl Stage {
    /// `0`, `1` and `2` select `OverTaxable`, `OverTax` and `OverTaxIgnorable`.
    pub fn from_i8(stage: i8) -> (r: Option<Stage>)
        ensures
            r == (if stage == 0 {
                Some(Stage::OverTaxable)
            } else if stage == 1 {
                Some(Stage::OverTax)
            } else if stage == 2 {
                Some(Stage::OverTaxIgnorable)
            } else {
                None
            }),
    {
        if stage == 0 {
            return Some(Stage::OverTaxable);
        }
        if stage == 1 {
            return Some(Stage::OverTax);
        }
        if stage == 2 {
            return Some(Stage::OverTaxIgnorable);
        }
        None
    }
}

/// The cumulative rates of one [`TaxStage`].
pub struct TaxRates {
    pub percentual: Scaled,
    pub amount_line: Scaled,
    pub amount_unit: Scaled,
}

/// Rates are never negative, and are written with a moderate scale.
pub open spec fn tax_rates_valid(r: TaxRates) -> bool {
    !is_negative_s(r.percentual) && !is_negative_s(r.amount_line) && !is_negative_s(
        r.amount_unit) && scale_within(r.percentual, RATE_SCALE as int) && scale_within(
        r.amount_line,
        RATE_SCALE as int) && scale_within(r.amount_unit, RATE_SCALE as int)
}

/// The tax of one stage on `qty` units of `taxable` each: nothing on a zero
/// value, else the percentual and the per-unit amount on each unit, plus the
/// per-line amount.
pub open spec fn stage_tax_s(r: TaxRates, taxable: Scaled, qty: Scaled) -> Scaled {
    if is_zero_s(taxable) {
        int_s(0)
    } else {
        add_s(
            mul_s(add_s(percent_s(mul_s(taxable, r.percentual)), r.amount_unit), qty),
            r.amount_line)
    }
}

/// What is left of `taxed` once a stage's fixed amounts are taken out.
pub open spec fn untax_base_s(r: TaxRates, taxed: Scaled, qty: Scaled) -> Scaled {
    sub_s(sub_s(taxed, r.amount_line), mul_s(r.amount_unit, qty))
}

/// One plus the stage's percentual, as a share.
pub open spec fn grown_share_s(r: TaxRates) -> Scaled {
    add_s(int_s(1), percent_s(r.percentual))
}

/// How the removal writes what is left of `taxed` once the stage's fixed
/// amounts are taken out.
pub open spec fn untax_base_r(r: TaxRates, taxed: Scaled, qty: Scaled) -> Scaled {
    difference_s(difference_s(taxed, r.amount_line), product_of(r.amount_unit, qty))
}

/// How the removal writes one plus the stage's percentual.
pub open spec fn grown_share_r(r: TaxRates) -> Scaled {
    add_s(int_s(1), product_of(r.percentual, cents_s(1)))
}

/// `taxed` with one stage's tax removed, as the division writes it.
pub open spec fn stage_untax_s(r: TaxRates, taxed: Scaled, qty: Scaled) -> Scaled {
    quotient_of(untax_base_r(r, taxed, qty), grown_share_r(r))
}

/// Removing one stage's tax from `taxed` is refused.
pub open spec fn stage_untax_refused(r: TaxRates, taxed: Scaled, qty: Scaled) -> bool {
    is_negative_s(taxed) || is_negative_s(qty) || less(taxed, r.amount_line) || less(
        sub_s(taxed, r.amount_line),
        mul_s(r.amount_unit, qty))
}

fn range_error() -> (r: TaxError<String>)
    ensures
        r is Other,
{
    TaxError::Other("a decimal scale is out of range".to_owned())
}

/// What adding `amount` to a stage's rate of `mode` gives: `r` and the
/// rates `new` that follow from `old`.
pub open spec fn stage_add_outcome(old: TaxRates, new: TaxRates, amount: Scaled, mode: Mode, r: Option<TaxError<String>>) -> bool {
    (is_negative_s(amount) <==> r matches Some(TaxError::NegativeValue(_)))
        && (r matches Some(TaxError::Other(_)) <==> !is_negative_s(amount) && !scale_within(amount, RATE_SCALE as int))
        && (r matches Some(e) ==> (e is NegativeValue || e is Other))
        && (r is Some ==> new == old)
        && (r is None ==> rate_added(old, new, mode, amount))
}

/// What one stage's tax on `qty` units of `taxable` gives.
pub open spec fn stage_tax_outcome(rates: TaxRates, taxable: Scaled, qty: Scaled, r: Result<Decimal, TaxError<String>>) -> bool {
    ((is_negative_s(taxable) || is_negative_s(qty)) <==> r matches Err(TaxError::NegativeValue(_)))
        && (r matches Err(e) ==> (e is NegativeValue || e is Other))
        && (!(is_negative_s(taxable) || is_negative_s(qty)) && is_zero_s(taxable) ==> r is Ok)
        && (r matches Ok(t) ==> same(t@, stage_tax_s(rates, taxable, qty)))
        && (r matches Ok(t) ==> !is_negative_s(t@))
        && (scale_within(taxable, VALUE_SCALE as int) && scale_within(qty, VALUE_SCALE as int) ==> !(r matches Err(TaxError::Other(_))))
        && (r matches Ok(t) ==> scale_size(t@) <= scale_size(taxable) + scale_size(qty) + 4 * RATE_SCALE)
}

/// The cumulative rates of one stage of taxes.
pub struct TaxStage {
    percentuals: Decimal,
    amount_line: Decimal,
    amount_unit: Decimal,
}

impl View for TaxStage {
    type V = TaxRates;

    closed spec fn view(&self) -> TaxRates {
        TaxRates {
            percentual: self.percentuals@,
            amount_line: self.amount_line@,
            amount_unit: self.amount_unit@,
        }
    }
}

/// Adds `amount` to `rate`, refusing a negative amount and one written with
/// too large a scale.
fn add_rate(rate: &mut Decimal, amount: Decimal) -> (r: Option<TaxError<String>>)
    requires
        !is_negative_s(old(rate)@),
        scale_within(old(rate)@, RATE_SCALE as int),
    ensures
        !is_negative_s(final(rate)@),
        scale_within(final(rate)@, RATE_SCALE as int),
        is_negative_s(amount@) <==> r matches Some(TaxError::NegativeValue(_)),
        r matches Some(TaxError::Other(_)) <==> !is_negative_s(amount@) && !scale_within(
            amount@,
            RATE_SCALE as int),
        r matches Some(e) ==> (e is NegativeValue || e is Other),
        r is Some ==> *final(rate) == *old(rate),
        r is None ==> same(final(rate)@, add_s(old(rate)@, amount@)),
{
    if amount.is_negative() {
        return Some(TaxError::NegativeValue("negative tax".to_owned()));
    }
    if !amount.scale_within(RATE_SCALE) {
        return Some(range_error());
    }
    let Some(sum) = rate.plus(&amount) else { return Some(range_error()) };
    proof {
        lemma_nonnegative_sum(rate@, amount@, sum@);
    }
    *rate = sum;
    None
}

impl Default for TaxStage {
    fn default() -> (r: TaxStage)
        ensures
            r@ == (TaxRates {
                percentual: int_s(0),
                amount_line: int_s(0),
                amount_unit: int_s(0),
            }),
    {
        TaxStage::new()
    }
}

impl TaxStage {
    pub open spec fn valid(&self) -> bool {
        tax_rates_valid(self@)
    }

    /// A stage with every rate at zero.
    pub fn new() -> (r: TaxStage)
        ensures
            r@ == (TaxRates {
                percentual: int_s(0),
                amount_line: int_s(0),
                amount_unit: int_s(0),
            }),
            r.valid(),
    {
        TaxStage { percentuals: zero(), amount_line: zero(), amount_unit: zero() }
    }

    /// An independent copy of this stage.
    pub fn copy(&self) -> (r: TaxStage)
        ensures
            r@ == self@,
    {
        TaxStage {
            percentuals: self.percentuals.copy(),
            amount_line: self.amount_line.copy(),
            amount_unit: self.amount_unit.copy(),
        }
    }

    /// Adds a percentual tax; a negative one is refused and changes nothing.
    pub fn add_percentual(&mut self, percent: Decimal) -> (r: Option<TaxError<String>>)
        requires
            old(self).valid(),
        ensures
            final(self).valid(),
            stage_add_outcome(old(self)@, final(self)@, percent@, Mode::Percentual, r),
    {
        add_rate(&mut self.percentuals, percent)
    }

    /// Adds a tax of a fixed amount on each unit; a negative one is refused
    /// and changes nothing.
    pub fn add_amount_by_qty(&mut self, amount: Decimal) -> (r: Option<TaxError<String>>)
        requires
            old(self).valid(),
        ensures
            final(self).valid(),
            stage_add_outcome(old(self)@, final(self)@, amount@, Mode::AmountUnit, r),
    {
        add_rate(&mut self.amount_unit, amount)
    }

    /// Adds a tax of a fixed amount on the line; a negative one is refused
    /// and changes nothing.
    pub fn add_amount_by_line(&mut self, amount: Decimal) -> (r: Option<TaxError<String>>)
        requires
            old(self).valid(),
        ensures
            final(self).valid(),
            stage_add_outcome(old(self)@, final(self)@, amount@, Mode::AmountLine, r),
    {
        add_rate(&mut self.amount_line, amount)
    }

    /// The cumulative percentual rate.
    pub fn percent(&self) -> (r: Decimal)
        ensures
            r@ == self@.percentual,
    {
        self.percentuals.copy()
    }

    /// The cumulative amount charged on each line.
    pub fn amount_line(&self) -> (r: Decimal)
        ensures
            r@ == self@.amount_line,
    {
        self.amount_line.copy()
    }

    /// The cumulative amount charged on each unit.
    pub fn amount_by_qty(&self) -> (r: Decimal)
        ensures
            r@ == self@.amount_unit,
    {
        self.amount_unit.copy()
    }

    /// This stage's tax on `qty` units of `taxable` each.
    #[verifier::rlimit(60)]
    #[verifier::spinoff_prover]
    pub fn tax(&self, taxable: &Decimal, qty: &Decimal) -> (r: Result<Decimal, TaxError<String>>)
        requires
            self.valid(),
        ensures
            stage_tax_outcome(self@, taxable@, qty@, r),
    {
        if taxable.is_negative() {
            return Err(TaxError::NegativeValue("negative taxable".to_owned()));
        }
        if qty.is_negative() {
            return Err(TaxError::NegativeValue("negative quantity".to_owned()));
        }
        if taxable.is_zero() {
            return Ok(zero());
        }
        let ghost rates = self@;
        let Some(a1) = taxable.times(&self.percentuals) else { return Err(range_error()) };
        let Some(a2) = a1.times(&cent()) else { return Err(range_error()) };
        let Some(a3) = a2.plus(&self.amount_unit) else { return Err(range_error()) };
        let Some(a4) = a3.times(qty) else { return Err(range_error()) };
        let Some(t) = a4.plus(&self.amount_line) else { return Err(range_error()) };
        proof {
            let pl = mul_s(taxable@, rates.percentual);
            lemma_same_refl(rates.amount_unit);
            lemma_same_refl(rates.amount_line);
            lemma_same_refl(qty@);
            lemma_same_refl(pl);
            lemma_cent(a2@, a1@, pl);
            lemma_add_step(a3@, a2@, rates.amount_unit, percent_s(pl), rates.amount_unit);
            let s3 = add_s(percent_s(pl), rates.amount_unit);
            lemma_mul_step(a4@, a3@, qty@, s3, qty@);
            lemma_add_step(t@, a4@, rates.amount_line, mul_s(s3, qty@), rates.amount_line);
            crate::decimal::lemma_nonnegative_product(taxable@, rates.percentual, pl);
            crate::decimal::lemma_nonnegative_product(pl, crate::decimal::cents_s(1), percent_s(pl));
            lemma_nonnegative_sum(percent_s(pl), rates.amount_unit, s3);
            crate::decimal::lemma_nonnegative_product(s3, qty@, mul_s(s3, qty@));
            lemma_nonnegative_sum(mul_s(s3, qty@), rates.amount_line, t@);
        }
        Ok(t)
    }

    /// Removes this stage's tax from `taxed`, the value of a line of `qty`
    /// units with the tax: the per-line and per-unit amounts are taken out
    /// and the rest is scaled back by one plus the percentual.
    pub fn untax(&self, taxed: &Decimal, qty: &Decimal) -> (r: Result<Decimal, TaxError<String>>)
        requires
            self.valid(),
        ensures
            (is_negative_s(taxed@) || is_negative_s(qty@)) ==> r matches Err(
                TaxError::NegativeValue(_)),
            r matches Err(TaxError::NegativeValue(_)) ==> stage_untax_refused(self@, taxed@, qty@),
            stage_untax_refused(self@, taxed@, qty@) ==> r is Err,
            r matches Err(e) ==> (e is NegativeValue || e is Other),
            scale_within(taxed@, VALUE_SCALE as int) && scale_within(qty@, VALUE_SCALE as int)
                ==> !(r matches Err(TaxError::Other(_))),
            r matches Ok(v) ==> v@ == stage_untax_s(self@, taxed@, qty@),
            r matches Ok(v) ==> !is_negative_s(v@),
            r matches Ok(v) ==> forall|x: Scaled|
                !is_zero_s(x) && abs_nat(#[trigger] mul_s(x, qty@).digits) < pow10(
                    division_precision()) && same(
                    taxed@,
                    add_s(mul_s(x, qty@), stage_tax_s(self@, x, qty@))) ==> same(v@, mul_s(x, qty@)),
            r matches Ok(v) ==> forall|c: Scaled|
                abs_nat(c.digits) < pow10(division_precision()) && same(
                    untax_base_s(self@, taxed@, qty@),
                    #[trigger] mul_s(grown_share_s(self@), c)) ==> same(v@, c),
    {
        if taxed.is_negative() {
            return Err(TaxError::NegativeValue("negative taxed".to_owned()));
        }
        if qty.is_negative() {
            return Err(TaxError::NegativeValue("negative quantity".to_owned()));
        }
        let ghost rates = self@;
        match taxed.less_than(&self.amount_line) {
            Some(true) => {
                return Err(TaxError::NegativeValue("taxed below the line amount".to_owned()));
            },
            Some(false) => {},
            None => return Err(range_error()),
        }
        let Some(b1) = taxed.minus(&self.amount_line) else { return Err(range_error()) };
        let Some(u) = self.amount_unit.times(qty) else { return Err(range_error()) };
        proof {
            lemma_same_refl(rates.amount_line);
            lemma_same_refl(taxed@);
            lemma_compare_congruent(b1@, u@, sub_s(taxed@, rates.amount_line), mul_s(rates.amount_unit, qty@));
        }
        match b1.less_than(&u) {
            Some(true) => {
                return Err(TaxError::NegativeValue("taxed below the fixed amounts".to_owned()));
            },
            Some(false) => {},
            None => return Err(range_error()),
        }
        let Some(b2) = b1.minus(&u) else { return Err(range_error()) };
        let Some(pp) = self.percentuals.times(&cent()) else { return Err(range_error()) };
        let Some(g) = one().plus(&pp) else { return Err(range_error()) };
        let ghost base_v = untax_base_s(rates, taxed@, qty@);
        let ghost share_v = grown_share_s(rates);
        proof {
            lemma_same_refl(rates.percentual);
            lemma_same_refl(int_s(1));
            lemma_sub_step(b2@, b1@, u@, sub_s(taxed@, rates.amount_line), mul_s(rates.amount_unit, qty@));
            lemma_cent(pp@, rates.percentual, rates.percentual);
            lemma_add_step(g@, int_s(1), pp@, int_s(1), percent_s(rates.percentual));
            crate::decimal::lemma_grown_share_positive(rates.percentual, share_v);
            lemma_compare_congruent(g@, int_s(0), share_v, int_s(0));
            lemma_negative_difference(b1@, u@, b2@);
        }
        let Some(v) = b2.over(&g) else { return Err(range_error()) };
        proof {
            assert forall|x: Scaled|
                !is_zero_s(x) && abs_nat(#[trigger] mul_s(x, qty@).digits) < pow10(
                    division_precision()) && same(
                    taxed@,
                    add_s(mul_s(x, qty@), stage_tax_s(rates, x, qty@))) implies same(v@, mul_s(x, qty@)) by {
                let xq = mul_s(x, qty@);
                lemma_untax_identity(rates, taxed@, qty@, x);
                lemma_same_refl(xq);
                lemma_mul_step(base_v, share_v, xq, g@, xq);
                lemma_same_sym(share_v, g@);
                lemma_same_trans(b2@, base_v, mul_s(g@, xq));
            }
            assert forall|c: Scaled|
                abs_nat(c.digits) < pow10(division_precision()) && same(
                    base_v,
                    #[trigger] mul_s(share_v, c)) implies same(v@, c) by {
                lemma_same_refl(c);
                lemma_mul_step(base_v, share_v, c, g@, c);
                lemma_same_sym(share_v, g@);
                lemma_same_trans(b2@, base_v, mul_s(g@, c));
            }
        }
        Ok(v)
    }

    /// [`TaxStage::tax`] on values given as text.
    pub fn tax_from_str(&self, taxable: &str, qty: &str) -> (r: Result<Decimal, TaxError<String>>)
        requires
            self.valid(),
        ensures
            (parsed(taxable@) is None || parsed(qty@) is None) <==> r matches Err(
                TaxError::InvalidDecimal(_),
            ),
            parsed(taxable@) is Some && parsed(qty@) is Some ==> stage_tax_outcome(
                self@,
                parsed(taxable@)->Some_0,
                parsed(qty@)->Some_0,
                r,
            ),
    {
        let Some(x) = Decimal::parse(taxable) else {
            return Err(TaxError::InvalidDecimal("taxable is not a decimal".to_owned()));
        };
        let Some(q) = Decimal::parse(qty) else {
            return Err(TaxError::InvalidDecimal("qty is not a decimal".to_owned()));
        };
        let r = self.tax(&x, &q);
        proof {
            if r is Ok {
                assert(parsed(taxable@) == Some(x@) && parsed(qty@) == Some(q@));
            }
        }
        r
    }

    /// [`TaxStage::add_percentual`] on a rate given as text.
    pub fn add_percentual_from_str(&mut self, percent: &str) -> (r: Option<TaxError<String>>)
        requires
            old(self).valid(),
        ensures
            final(self).valid(),
            parsed(percent@) is None <==> r matches Some(TaxError::InvalidDecimal(_)),
            parsed(percent@) is None ==> final(self)@ == old(self)@,
            parsed(percent@) is Some ==> stage_add_outcome(
                old(self)@,
                final(self)@,
                parsed(percent@)->Some_0,
                Mode::Percentual,
                r,
            ),
    {
        match Decimal::parse(percent) {
            Some(p) => self.add_percentual(p),
            None => Some(TaxError::InvalidDecimal("percent is not a decimal".to_owned())),
        }
    }

    /// [`TaxStage::add_amount_by_qty`] on an amount given as text.
    pub fn add_amount_by_qty_from_str(&mut self, amount: &str) -> (r: Option<TaxError<String>>)
        requires
            old(self).valid(),
        ensures
            final(self).valid(),
            parsed(amount@) is None <==> r matches Some(TaxError::InvalidDecimal(_)),
            parsed(amount@) is None ==> final(self)@ == old(self)@,
            parsed(amount@) is Some ==> stage_add_outcome(
                old(self)@,
                final(self)@,
                parsed(amount@)->Some_0,
                Mode::AmountUnit,
                r,
            ),
    {
        match Decimal::parse(amount) {
            Some(a) => self.add_amount_by_qty(a),
            None => Some(TaxError::InvalidDecimal("amount is not a decimal".to_owned())),
        }
    }

    /// [`TaxStage::add_amount_by_line`] on an amount given as text.
    pub fn add_amount_by_line_from_str(&mut self, amount: &str) -> (r: Option<TaxError<String>>)
        requires
            old(self).valid(),
        ensures
            final(self).valid(),
            parsed(amount@) is None <==> r matches Some(TaxError::InvalidDecimal(_)),
            parsed(amount@) is None ==> final(self)@ == old(self)@,
            parsed(amount@) is Some ==> stage_add_outcome(
                old(self)@,
                final(self)@,
                parsed(amount@)->Some_0,
                Mode::AmountLine,
                r,
            ),
    {
        match Decimal::parse(amount) {
            Some(a) => self.add_amount_by_line(a),
            None => Some(TaxError::InvalidDecimal("amount is not a decimal".to_owned())),
        }
    }
}

/// The rates of the three stages of a [`TaxComputer`].
pub struct TaxConfig {
    pub over_taxable: TaxRates,
    pub over_tax: TaxRates,
    pub over_tax_ignorable: TaxRates,
}

pub open spec fn stage_of(c: TaxConfig, stage: Stage) -> TaxRates {
    match stage {
        Stage::OverTaxable => c.over_taxable,
        Stage::OverTax => c.over_tax,
        Stage::OverTaxIgnorable => c.over_tax_ignorable,
    }
}

pub open spec fn config_valid(c: TaxConfig) -> bool {
    tax_rates_valid(c.over_taxable) && tax_rates_valid(c.over_tax) && tax_rates_valid(
        c.over_tax_ignorable)
}

/// `new` is `old` with `amount` added to the rate of `mode`.
pub open spec fn rate_added(old: TaxRates, new: TaxRates, mode: Mode, amount: Scaled) -> bool {
    match mode {
        Mode::Percentual => same(new.percentual, add_s(old.percentual, amount))
            && new.amount_line == old.amount_line && new.amount_unit == old.amount_unit,
        Mode::AmountLine => same(new.amount_line, add_s(old.amount_line, amount))
            && new.percentual == old.percentual && new.amount_unit == old.amount_unit,
        Mode::AmountUnit => same(new.amount_unit, add_s(old.amount_unit, amount))
            && new.percentual == old.percentual && new.amount_line == old.amount_line,
    }
}

/// The tax of the three stages on `qty` units of `unit_value` each: the
/// over-taxable tax, the over-tax tax on the value plus the over-taxable
/// tax, and the over-tax-ignorable tax on the value alone.
pub open spec fn total_tax_s(c: TaxConfig, unit_value: Scaled, qty: Scaled) -> Scaled {
    let t1 = stage_tax_s(c.over_taxable, unit_value, qty);
    add_s(
        add_s(t1, stage_tax_s(c.over_tax, add_s(unit_value, t1), qty)),
        stage_tax_s(c.over_tax_ignorable, unit_value, qty))
}

/// `taxed` with the three stages removed in turn: over-tax-ignorable, then
/// over-tax, then over-taxable.
pub open spec fn total_untax_s(c: TaxConfig, taxed: Scaled, qty: Scaled) -> Scaled {
    let u1 = stage_untax_s(c.over_tax_ignorable, taxed, qty);
    let u2 = stage_untax_s(c.over_tax, u1, qty);
    stage_untax_s(c.over_taxable, u2, qty)
}

/// Removing the three stages from `taxed` is refused at one of them.
pub open spec fn total_untax_refused(c: TaxConfig, taxed: Scaled, qty: Scaled) -> bool {
    let u1 = stage_untax_s(c.over_tax_ignorable, taxed, qty);
    let u2 = stage_untax_s(c.over_tax, u1, qty);
    stage_untax_refused(c.over_tax_ignorable, taxed, qty) || stage_untax_refused(
        c.over_tax,
        u1,
        qty) || stage_untax_refused(c.over_taxable, u2, qty)
}

/// The tax of one ad-hoc rate `value` of `mode`.
pub open spec fn line_tax_s(taxable: Scaled, qty: Scaled, value: Scaled, mode: Mode) -> Scaled {
    match mode {
        Mode::Percentual => percent_s(mul_s(mul_s(taxable, qty), value)),
        Mode::AmountLine => mul_s(qty, value),
        Mode::AmountUnit => value,
    }
}

/// The stage's tax is the same for the same value.
pub proof fn lemma_stage_tax_congruent(r: TaxRates, a: Scaled, b: Scaled, qty: Scaled)
    requires
        same(a, b),
    ensures
        same(stage_tax_s(r, a, qty), stage_tax_s(r, b, qty)),
{
    lemma_compare_congruent(a, a, b, b);
    if is_zero_s(a) {
        lemma_same_refl(int_s(0));
    } else {
        lemma_same_refl(r.percentual);
        lemma_same_refl(r.amount_unit);
        lemma_same_refl(r.amount_line);
        lemma_same_refl(qty);
        crate::decimal::lemma_mul_congruent(a, r.percentual, b, r.percentual);
        let pa = mul_s(a, r.percentual);
        let pb = mul_s(b, r.percentual);
        lemma_same_refl(crate::decimal::cents_s(1));
        crate::decimal::lemma_mul_congruent(pa, crate::decimal::cents_s(1), pb, crate::decimal::cents_s(1));
        assert(mul_s(pa, crate::decimal::cents_s(1)) == percent_s(pa));
        assert(mul_s(pb, crate::decimal::cents_s(1)) == percent_s(pb));
        crate::decimal::lemma_add_congruent(percent_s(pa), r.amount_unit, percent_s(pb), r.amount_unit);
        let sa = add_s(percent_s(pa), r.amount_unit);
        let sb = add_s(percent_s(pb), r.amount_unit);
        crate::decimal::lemma_mul_congruent(sa, qty, sb, qty);
        crate::decimal::lemma_add_congruent(mul_s(sa, qty), r.amount_line, mul_s(sb, qty), r.amount_line);
    }
}

/// The three stages' tax is the same for the same value.
pub proof fn lemma_total_tax_congruent(c: TaxConfig, a: Scaled, b: Scaled, qty: Scaled)
    requires
        same(a, b),
    ensures
        same(total_tax_s(c, a, qty), total_tax_s(c, b, qty)),
{
    let t1a = stage_tax_s(c.over_taxable, a, qty);
    let t1b = stage_tax_s(c.over_taxable, b, qty);
    lemma_stage_tax_congruent(c.over_taxable, a, b, qty);
    crate::decimal::lemma_add_congruent(a, t1a, b, t1b);
    lemma_stage_tax_congruent(c.over_tax, add_s(a, t1a), add_s(b, t1b), qty);
    crate::decimal::lemma_add_congruent(
        t1a,
        stage_tax_s(c.over_tax, add_s(a, t1a), qty),
        t1b,
        stage_tax_s(c.over_tax, add_s(b, t1b), qty));
    lemma_stage_tax_congruent(c.over_tax_ignorable, a, b, qty);
    crate::decimal::lemma_add_congruent(
        add_s(t1a, stage_tax_s(c.over_tax, add_s(a, t1a), qty)),
        stage_tax_s(c.over_tax_ignorable, a, qty),
        add_s(t1b, stage_tax_s(c.over_tax, add_s(b, t1b), qty)),
        stage_tax_s(c.over_tax_ignorable, b, qty));
}

/// Keeps the kind of a stage's error and names the stage in its message.
fn in_stage(e: TaxError<String>, stage: &str) -> (r: TaxError<String>)
    ensures
        e is NegativeValue <==> r is NegativeValue,
        e is Other <==> r is Other,
        e is OverMaxDiscount <==> r is OverMaxDiscount,
        e is InvalidDecimal <==> r is InvalidDecimal,
        e is InvalidDiscountMode <==> r is InvalidDiscountMode,
        e is DivisionByZero <==> r is DivisionByZero,
{
    match e {
        TaxError::NegativeValue(_) => TaxError::NegativeValue(stage.to_owned()),
        TaxError::OverMaxDiscount(_) => TaxError::OverMaxDiscount(stage.to_owned()),
        TaxError::InvalidDecimal(_) => TaxError::InvalidDecimal(stage.to_owned()),
        TaxError::InvalidDiscountMode(_) => TaxError::InvalidDiscountMode(stage.to_owned()),
        TaxError::DivisionByZero(_) => TaxError::DivisionByZero(stage.to_owned()),
        TaxError::Other(_) => TaxError::Other(stage.to_owned()),
    }
}

/// What adding `tax` to the rate of `mode` in `stage` gives: `r` and the rates `new` that follow from `old`.
pub open spec fn add_tax_outcome(old: TaxConfig, new: TaxConfig, tax: Scaled, stage: Stage, mode: Mode, r: Option<TaxError<String>>) -> bool {
    (is_negative_s(tax) <==> r matches Some(TaxError::NegativeValue(_)))
        && (r matches Some(e) ==> (e is NegativeValue || e is Other))
        && (r matches Some(TaxError::Other(_)) <==> !is_negative_s(tax) && !scale_within(tax, RATE_SCALE as int))
        && (r is Some ==> new == old)
        && (r is None ==> rate_added(stage_of(old, stage), stage_of(new, stage), mode, tax))
        && (forall|s: Stage| s != stage ==> #[trigger] stage_of(new, s) == stage_of(old, s))
}

/// What the three stages' tax on `qty` units of `unit_value` gives.
pub open spec fn total_tax_outcome(c: TaxConfig, unit_value: Scaled, qty: Scaled, r: Result<Decimal, TaxError<String>>) -> bool {
    ((is_negative_s(unit_value) || is_negative_s(qty)) <==> r matches Err(TaxError::NegativeValue(_)))
        && (r matches Err(e) ==> (e is NegativeValue || e is Other))
        && (r matches Ok(t) ==> same(t@, total_tax_s(c, unit_value, qty)))
        && (r matches Ok(t) ==> !is_negative_s(t@))
        && (scale_within(unit_value, INPUT_SCALE as int) && scale_within(qty, INPUT_SCALE as int) ==> !(r matches Err(TaxError::Other(_))))
        && (r matches Ok(t) ==> scale_size(t@) <= scale_size(unit_value) + 2 * scale_size(qty) + 8 * RATE_SCALE)
}

/// What removing the three stages from `taxed`, a line of `qty` units with its taxes, gives.
pub open spec fn untax_outcome(c: TaxConfig, taxed: Scaled, qty: Scaled, r: Result<Decimal, TaxError<String>>) -> bool {
    ((is_negative_s(taxed) || is_negative_s(qty)) ==> r matches Err(TaxError::NegativeValue(_)))
        && (r matches Err(TaxError::NegativeValue(_)) ==> total_untax_refused(c, taxed, qty))
        && (total_untax_refused(c, taxed, qty) ==> r is Err)
        && (r matches Err(e) ==> (e is NegativeValue || e is Other))
        && (r matches Ok(v) ==> v@ == total_untax_s(c, taxed, qty) && !is_negative_s(v@))
        && (!total_untax_refused(c, taxed, qty) && scale_within(taxed, VALUE_SCALE as int)
            && scale_within(qty, VALUE_SCALE as int) && scale_within(
            stage_untax_s(c.over_tax_ignorable, taxed, qty),
            VALUE_SCALE as int,
        ) && scale_within(
            stage_untax_s(c.over_tax, stage_untax_s(c.over_tax_ignorable, taxed, qty), qty),
            VALUE_SCALE as int,
        ) ==> r is Ok)
        && (r matches Ok(v) ==> forall|x: Scaled| one_stage_charges(c) && !is_zero_s(x) && abs_nat(#[trigger] mul_s(x, qty).digits) < pow10(division_precision()) && abs_nat(taxed.digits) < pow10(division_precision()) && same(taxed, add_s(mul_s(x, qty), total_tax_s(c, x, qty))) ==> same(v@, mul_s(x, qty)))
}

/// What the tax of the single rate `value` of `mode` gives.
pub open spec fn line_tax_outcome(taxable: Scaled, qty: Scaled, value: Scaled, mode: Mode, r: Result<Decimal, TaxError<String>>) -> bool {
    ((is_negative_s(taxable) || is_negative_s(qty)) <==> r matches Err(TaxError::NegativeValue(_)))
        && (r matches Err(e) ==> (e is NegativeValue || e is Other))
        && (r matches Ok(t) ==> same(t@, line_tax_s(taxable, qty, value, mode)))
        && (scale_within(taxable, VALUE_SCALE as int) && scale_within(qty, VALUE_SCALE as int) && scale_within(value, VALUE_SCALE as int) ==> !(r matches Err(TaxError::Other(_))))
}

/// Holds the three stages of taxes of a line and composes them.
pub struct TaxComputer {
    over_taxable: TaxStage,
    over_tax: TaxStage,
    over_tax_ignorable: TaxStage,
}

impl View for TaxComputer {
    type V = TaxConfig;

    closed spec fn view(&self) -> TaxConfig {
        TaxConfig {
            over_taxable: self.over_taxable@,
            over_tax: self.over_tax@,
            over_tax_ignorable: self.over_tax_ignorable@,
        }
    }
}

impl Default for TaxComputer {
    fn default() -> (r: TaxComputer)
        ensures
            r.valid(),
            forall|s: Stage|
                #[trigger] stage_of(r@, s) == (TaxRates {
                    percentual: int_s(0),
                    amount_line: int_s(0),
                    amount_unit: int_s(0),
                }),
    {
        TaxComputer::new()
    }
}

impl TaxComputer {
    pub open spec fn valid(&self) -> bool {
        config_valid(self@)
    }

    /// A computer with every rate of every stage at zero.
    pub fn new() -> (r: TaxComputer)
        ensures
            r.valid(),
            forall|s: Stage|
                #[trigger] stage_of(r@, s) == (TaxRates {
                    percentual: int_s(0),
                    amount_line: int_s(0),
                    amount_unit: int_s(0),
                }),
    {
        TaxComputer {
            over_taxable: TaxStage::new(),
            over_tax: TaxStage::new(),
            over_tax_ignorable: TaxStage::new(),
        }
    }

    /// The over-taxable stage.
    pub fn over_taxables(&self) -> (r: TaxStage)
        ensures
            r@ == self@.over_taxable,
    {
        self.over_taxable.copy()
    }

    /// The over-tax stage.
    pub fn over_taxes(&self) -> (r: TaxStage)
        ensures
            r@ == self@.over_tax,
    {
        self.over_tax.copy()
    }

    /// The over-tax-ignorable stage.
    pub fn over_tax_ignorables(&self) -> (r: TaxStage)
        ensures
            r@ == self@.over_tax_ignorable,
    {
        self.over_tax_ignorable.copy()
    }

    /// Adds `tax` to the rate of `mode` in `stage`.  A negative tax is
    /// refused and changes nothing.
    pub fn add_tax(&mut self, tax: Decimal, stage: Stage, mode: Mode) -> (r: Option<TaxError<String>>)
        requires
            old(self).valid(),
        ensures
            final(self).valid(),
            add_tax_outcome(old(self)@, final(self)@, tax@, stage, mode, r),
    {
        let target = match stage {
            Stage::OverTaxable => &mut self.over_taxable,
            Stage::OverTax => &mut self.over_tax,
            Stage::OverTaxIgnorable => &mut self.over_tax_ignorable,
        };
        match mode {
            Mode::Percentual => target.add_percentual(tax),
            Mode::AmountLine => target.add_amount_by_line(tax),
            Mode::AmountUnit => target.add_amount_by_qty(tax),
        }
    }

    /// The tax of the three stages on `qty` units of `unit_value` each.
    pub fn tax(&self, unit_value: &Decimal, qty: &Decimal) -> (r: Result<Decimal, TaxError<String>>)
        requires
            self.valid(),
        ensures
            total_tax_outcome(self@, unit_value@, qty@, r),
    {
        let ghost c = self@;
        let t1 = match self.over_taxable.tax(unit_value, qty) {
            Ok(t) => t,
            Err(e) => return Err(in_stage(e, "over-taxable stage")),
        };
        let Some(base2) = unit_value.plus(&t1) else { return Err(range_error()) };
        proof {
            lemma_nonnegative_sum(unit_value@, t1@, base2@);
        }
        let t2 = match self.over_tax.tax(&base2, qty) {
            Ok(t) => t,
            Err(e) => return Err(in_stage(e, "over-tax stage")),
        };
        let t3 = match self.over_tax_ignorable.tax(unit_value, qty) {
            Ok(t) => t,
            Err(e) => return Err(in_stage(e, "over-tax-ignorable stage")),
        };
        let Some(s12) = t1.plus(&t2) else { return Err(range_error()) };
        let Some(total) = s12.plus(&t3) else { return Err(range_error()) };
        proof {
            let ts1 = stage_tax_s(c.over_taxable, unit_value@, qty@);
            let b2 = add_s(unit_value@, ts1);
            lemma_same_refl(unit_value@);
            lemma_add_step(base2@, unit_value@, t1@, unit_value@, ts1);
            lemma_stage_tax_congruent(c.over_tax, base2@, b2, qty@);
            let ts2 = stage_tax_s(c.over_tax, b2, qty@);
            lemma_same_trans(t2@, stage_tax_s(c.over_tax, base2@, qty@), ts2);
            lemma_add_step(s12@, t1@, t2@, ts1, ts2);
            lemma_add_step(total@, s12@, t3@, add_s(ts1, ts2), stage_tax_s(c.over_tax_ignorable, unit_value@, qty@));
            lemma_nonnegative_sum(t1@, t2@, s12@);
            lemma_nonnegative_sum(s12@, t3@, total@);
        }
        Ok(total)
    }

    /// Removes the three stages from `taxed`, the value of a line of `qty`
    /// units with its taxes: over-tax-ignorable first, then over-tax, then
    /// over-taxable, each working on what the one before left.  This
    /// inverts the three-stage tax exactly where at most one stage charges;
    /// where the over-tax or over-tax-ignorable stage charges besides
    /// another, the staged removal is not the exact inverse of the
    /// three-stage tax, since the over-tax stage is charged on the value plus
    /// the over-taxable tax and the over-tax-ignorable tax is left out of it.
    pub fn un_tax(&self, taxed: &Decimal, qty: &Decimal) -> (r: Result<Decimal, TaxError<String>>)
        requires
            self.valid(),
        ensures
            untax_outcome(self@, taxed@, qty@, r),
    {
        let ghost c = self@;
        let u1 = match self.over_tax_ignorable.untax(taxed, qty) {
            Ok(v) => v,
            Err(e) => return Err(in_stage(e, "removing the over-tax-ignorable stage")),
        };
        let u2 = match self.over_tax.untax(&u1, qty) {
            Ok(v) => v,
            Err(e) => return Err(in_stage(e, "removing the over-tax stage")),
        };
        let u3 = match self.over_taxable.untax(&u2, qty) {
            Ok(v) => v,
            Err(e) => return Err(in_stage(e, "removing the over-taxable stage")),
        };
        proof {
            assert forall|x: Scaled|
                one_stage_charges(c) && !is_zero_s(x) && abs_nat(#[trigger] mul_s(x, qty@).digits)
                    < pow10(division_precision()) && abs_nat(taxed@.digits) < pow10(
                    division_precision(),
                ) && same(taxed@, add_s(mul_s(x, qty@), total_tax_s(c, x, qty@))) implies same(
                u3@,
                mul_s(x, qty@),
            ) by {
                let xq = mul_s(x, qty@);
                if charges_nothing(c.over_tax) && charges_nothing(c.over_tax_ignorable) {
                    lemma_single_stage_untax(c, taxed@, u1@, u2@, qty@, x);
                } else if charges_nothing(c.over_taxable) && charges_nothing(c.over_tax_ignorable) {
                    lemma_total_tax_one_stage(c, x, qty@);
                    lemma_same_refl(xq);
                    crate::decimal::lemma_add_congruent(
                        xq,
                        total_tax_s(c, x, qty@),
                        xq,
                        stage_tax_s(c.over_tax, x, qty@),
                    );
                    lemma_same_trans(
                        taxed@,
                        add_s(xq, total_tax_s(c, x, qty@)),
                        add_s(xq, stage_tax_s(c.over_tax, x, qty@)),
                    );
                    lemma_same_refl(taxed@);
                    lemma_idle_untax(c.over_tax_ignorable, taxed@, u1@, qty@, taxed@);
                    lemma_same_trans(u1@, taxed@, add_s(xq, stage_tax_s(c.over_tax, x, qty@)));
                    assert(same(u2@, xq));
                    lemma_idle_untax(c.over_taxable, u2@, u3@, qty@, xq);
                } else {
                    lemma_total_tax_one_stage(c, x, qty@);
                    lemma_same_refl(xq);
                    crate::decimal::lemma_add_congruent(
                        xq,
                        total_tax_s(c, x, qty@),
                        xq,
                        stage_tax_s(c.over_tax_ignorable, x, qty@),
                    );
                    lemma_same_trans(
                        taxed@,
                        add_s(xq, total_tax_s(c, x, qty@)),
                        add_s(xq, stage_tax_s(c.over_tax_ignorable, x, qty@)),
                    );
                    assert(same(u1@, xq));
                    lemma_idle_untax(c.over_tax, u1@, u2@, qty@, xq);
                    lemma_idle_untax(c.over_taxable, u2@, u3@, qty@, xq);
                }
            }
        }
        Ok(u3)
    }

    /// `tax` as a percentage of `taxed + tax`.  Refused where that sum is
    /// zero, as it is when both are zero.
    pub fn ratio(taxed: &Decimal, tax: &Decimal) -> (r: Result<Decimal, TaxError<String>>)
        ensures
            r matches Err(TaxError::Other(_)) <==> !(in_range(*taxed) && in_range(*tax)),
            in_range(*taxed) && in_range(*tax) ==> (is_zero_s(add_s(taxed@, tax@)) <==> r matches Err(
                TaxError::DivisionByZero(_))),
            r matches Err(e) ==> (e is DivisionByZero || e is Other),
            r matches Ok(v) ==> v@ == quotient_of(product_of(int_s(100), tax@), add_s(taxed@, tax@)),
            r matches Ok(v) ==> percentage_holds(v@, tax@, add_s(taxed@, tax@)),
            r matches Ok(v) ==> (!is_negative_s(taxed@) && !is_negative_s(tax@) ==> !is_negative_s(v@)
                && !less(int_s(100), v@)),
    {
        let Some(sum) = taxed.plus(tax) else { return Err(range_error()) };
        if sum.is_zero() {
            return Err(TaxError::DivisionByZero("taxed and tax add up to zero".to_owned()));
        }
        let Some(v) = percentage_of(tax, &sum) else { return Err(range_error()) };
        proof {
            if !is_negative_s(taxed@) && !is_negative_s(tax@) {
                lemma_part_of_sum(taxed@, tax@);
                lemma_nonnegative_sum(taxed@, tax@, sum@);
            }
        }
        Ok(v)
    }

    /// The tax of a single rate `value` of `mode`, not recorded: a percentual
    /// rate on the line, a per-line amount times the quantity, or a per-unit
    /// amount as it is.
    pub fn line_tax(&self, taxable: &Decimal, qty: &Decimal, value: &Decimal, mode: Mode) -> (r:
        Result<Decimal, TaxError<String>>)
        ensures
            line_tax_outcome(taxable@, qty@, value@, mode, r),
    {
        if taxable.is_negative() {
            return Err(TaxError::NegativeValue("negative taxable".to_owned()));
        }
        if qty.is_negative() {
            return Err(TaxError::NegativeValue("negative quantity".to_owned()));
        }
        match mode {
            Mode::Percentual => {
                let Some(a) = taxable.times(qty) else { return Err(range_error()) };
                let Some(b) = a.times(value) else { return Err(range_error()) };
                let Some(t) = b.times(&cent()) else { return Err(range_error()) };
                proof {
                    lemma_same_refl(value@);
                    lemma_mul_step(b@, a@, value@, mul_s(taxable@, qty@), value@);
                    lemma_cent(t@, b@, mul_s(mul_s(taxable@, qty@), value@));
                }
                Ok(t)
            },
            Mode::AmountLine => {
                let Some(t) = qty.times(value) else { return Err(range_error()) };
                Ok(t)
            },
            Mode::AmountUnit => {
                proof {
                    lemma_same_refl(value@);
                }
                Ok(value.copy())
            },
        }
    }

    /// [`TaxComputer::add_tax`] on a tax given as text.
    pub fn add_tax_from_str(&mut self, tax: &str, stage: Stage, mode: Mode) -> (r: Option<TaxError<String>>)
        requires
            old(self).valid(),
        ensures
            final(self).valid(),
            parsed(tax@) is None <==> r matches Some(TaxError::InvalidDecimal(_)),
            parsed(tax@) is None ==> final(self)@ == old(self)@,
            parsed(tax@) is Some ==> add_tax_outcome(
                old(self)@,
                final(self)@,
                parsed(tax@)->Some_0,
                stage,
                mode,
                r,
            ),
    {
        match Decimal::parse(tax) {
            Some(t) => self.add_tax(t, stage, mode),
            None => Some(TaxError::InvalidDecimal("tax is not a decimal".to_owned())),
        }
    }

    /// [`TaxComputer::tax`] on values given as text.
    pub fn tax_from_str(&self, unit_value: &str, qty: &str) -> (r: Result<Decimal, TaxError<String>>)
        requires
            self.valid(),
        ensures
            (parsed(unit_value@) is None || parsed(qty@) is None) <==> r matches Err(
                TaxError::InvalidDecimal(_),
            ),
            parsed(unit_value@) is Some && parsed(qty@) is Some ==> total_tax_outcome(
                self@,
                parsed(unit_value@)->Some_0,
                parsed(qty@)->Some_0,
                r,
            ),
    {
        let Some(x) = Decimal::parse(unit_value) else {
            return Err(TaxError::InvalidDecimal("unit_value is not a decimal".to_owned()));
        };
        let Some(q) = Decimal::parse(qty) else {
            return Err(TaxError::InvalidDecimal("qty is not a decimal".to_owned()));
        };
        let r = self.tax(&x, &q);
        proof {
            if r is Ok {
                assert(parsed(unit_value@) == Some(x@) && parsed(qty@) == Some(q@));
            }
        }
        r
    }

    /// [`TaxComputer::un_tax`] on values given as text.
    pub fn un_tax_from_str(&self, taxed: &str, qty: &str) -> (r: Result<Decimal, TaxError<String>>)
        requires
            self.valid(),
        ensures
            (parsed(taxed@) is None || parsed(qty@) is None) <==> r matches Err(
                TaxError::InvalidDecimal(_),
            ),
            parsed(taxed@) is Some && parsed(qty@) is Some ==> untax_outcome(
                self@,
                parsed(taxed@)->Some_0,
                parsed(qty@)->Some_0,
                r,
            ),
    {
        let Some(x) = Decimal::parse(taxed) else {
            return Err(TaxError::InvalidDecimal("taxed is not a decimal".to_owned()));
        };
        let Some(q) = Decimal::parse(qty) else {
            return Err(TaxError::InvalidDecimal("qty is not a decimal".to_owned()));
        };
        let r = self.un_tax(&x, &q);
        proof {
            if r is Ok {
                assert(parsed(taxed@) == Some(x@) && parsed(qty@) == Some(q@));
            }
        }
        r
    }

    /// [`TaxComputer::line_tax`] on values given as text.
    pub fn line_tax_from_str(&self, taxable: &str, qty: &str, value: &str, mode: Mode) -> (r:
        Result<Decimal, TaxError<String>>)
        ensures
            (parsed(taxable@) is None || parsed(qty@) is None || parsed(value@) is None) <==> r matches Err(
                TaxError::InvalidDecimal(_),
            ),
            parsed(taxable@) is Some && parsed(qty@) is Some && parsed(value@) is Some
                ==> line_tax_outcome(
                parsed(taxable@)->Some_0,
                parsed(qty@)->Some_0,
                parsed(value@)->Some_0,
                mode,
                r,
            ),
    {
        let Some(x) = Decimal::parse(taxable) else {
            return Err(TaxError::InvalidDecimal("taxable is not a decimal".to_owned()));
        };
        let Some(q) = Decimal::parse(qty) else {
            return Err(TaxError::InvalidDecimal("qty is not a decimal".to_owned()));
        };
        let Some(v) = Decimal::parse(value) else {
            return Err(TaxError::InvalidDecimal("value is not a decimal".to_owned()));
        };
        let r = self.line_tax(&x, &q, &v, mode);
        proof {
            if r is Ok {
                assert(parsed(taxable@) == Some(x@) && parsed(qty@) == Some(q@) && parsed(value@)
                    == Some(v@));
            }
        }
        r
    }
}

/// Exactly one stage charges at most: the two others charge nothing.
pub open spec fn one_stage_charges(c: TaxConfig) -> bool {
    (charges_nothing(c.over_tax) && charges_nothing(c.over_tax_ignorable)) || (charges_nothing(
        c.over_taxable,
    ) && charges_nothing(c.over_tax_ignorable)) || (charges_nothing(c.over_taxable)
        && charges_nothing(c.over_tax))
}

/// Removing a stage that charges nothing leaves the value as it is, where
/// the value has at most a hundred digits.
proof fn lemma_idle_untax(r: TaxRates, input: Scaled, output: Scaled, qty: Scaled, target: Scaled)
    requires
        charges_nothing(r),
        same(input, target),
        abs_nat(target.digits) < pow10(division_precision()),
        forall|k: Scaled|
            abs_nat(k.digits) < pow10(division_precision()) && same(
                untax_base_s(r, input, qty),
                #[trigger] mul_s(grown_share_s(r), k),
            ) ==> same(output, k),
    ensures
        same(output, target),
{
    lemma_idle_stage(r, input, qty);
    lemma_same_trans(untax_base_s(r, input, qty), input, target);
    lemma_same_refl(target);
    crate::decimal::lemma_mul_congruent(grown_share_s(r), target, int_s(1), target);
    assert(mul_s(int_s(1), target) == target);
    lemma_same_sym(mul_s(grown_share_s(r), target), target);
    lemma_same_trans(untax_base_s(r, input, qty), target, mul_s(grown_share_s(r), target));
}

/// Where only the over-tax stage or only the over-tax-ignorable stage
/// charges, the three stages' tax is that stage's tax on the value.
proof fn lemma_total_tax_one_stage(c: TaxConfig, x: Scaled, qty: Scaled)
    requires
        charges_nothing(c.over_taxable),
        charges_nothing(c.over_tax) || charges_nothing(c.over_tax_ignorable),
    ensures
        charges_nothing(c.over_tax_ignorable) ==> same(
            total_tax_s(c, x, qty),
            stage_tax_s(c.over_tax, x, qty),
        ),
        charges_nothing(c.over_tax) ==> same(
            total_tax_s(c, x, qty),
            stage_tax_s(c.over_tax_ignorable, x, qty),
        ),
{
    let t1 = stage_tax_s(c.over_taxable, x, qty);
    lemma_idle_stage(c.over_taxable, x, qty);
    lemma_zero_is_zero(t1);
    lemma_same_refl(x);
    crate::decimal::lemma_add_congruent(x, t1, x, int_s(0));
    lemma_zero_sum(x);
    lemma_same_trans(add_s(x, t1), add_s(x, int_s(0)), x);
    lemma_stage_tax_congruent(c.over_tax, add_s(x, t1), x, qty);
    let t2 = stage_tax_s(c.over_tax, add_s(x, t1), qty);
    let t3 = stage_tax_s(c.over_tax_ignorable, x, qty);
    if charges_nothing(c.over_tax_ignorable) {
        lemma_idle_stage(c.over_tax_ignorable, x, qty);
        lemma_zero_is_zero(t3);
        lemma_same_refl(t2);
        // t1 + t2 + t3 is t2
        lemma_add_commute_zero(t2, t1);
        lemma_same_refl(t3);
        crate::decimal::lemma_add_congruent(add_s(t1, t2), t3, t2, int_s(0));
        lemma_zero_sum(t2);
        lemma_same_trans(add_s(add_s(t1, t2), t3), add_s(t2, int_s(0)), t2);
        lemma_same_trans(add_s(add_s(t1, t2), t3), t2, stage_tax_s(c.over_tax, x, qty));
    }
    if charges_nothing(c.over_tax) {
        lemma_idle_stage(c.over_tax, add_s(x, t1), qty);
        lemma_zero_is_zero(t2);
        crate::decimal::lemma_add_congruent(t1, t2, int_s(0), int_s(0));
        lemma_zero_sum(int_s(0));
        lemma_same_trans(add_s(t1, t2), add_s(int_s(0), int_s(0)), int_s(0));
        lemma_same_refl(t3);
        lemma_add_commute_zero(t3, add_s(t1, t2));
    }
}

/// Adding a number that is zero, on the left, changes nothing.
proof fn lemma_add_commute_zero(a: Scaled, z: Scaled)
    requires
        same(z, int_s(0)),
    ensures
        same(add_s(z, a), a),
{
    let k = max_int(max_int(a.scale, z.scale), 0);
    lemma_at_add(z, a, k);
    lemma_compare_at(z, int_s(0), k);
    lemma_sign_at(int_s(0), k);
    lemma_compare_at(add_s(z, a), a, k);
}

/// With only the over-taxable stage charging, removing the two idle stages
/// leaves the taxed value, and what reaches the over-taxable stage is the
/// line plus that stage's tax.
proof fn lemma_single_stage_untax(
    c: TaxConfig,
    taxed: Scaled,
    u1: Scaled,
    u2: Scaled,
    qty: Scaled,
    x: Scaled)
    requires
        charges_nothing(c.over_tax),
        charges_nothing(c.over_tax_ignorable),
        abs_nat(taxed.digits) < pow10(division_precision()),
        same(taxed, add_s(mul_s(x, qty), total_tax_s(c, x, qty))),
        forall|k: Scaled|
            abs_nat(k.digits) < pow10(division_precision()) && same(
                untax_base_s(c.over_tax_ignorable, taxed, qty),
                #[trigger] mul_s(grown_share_s(c.over_tax_ignorable), k)) ==> same(u1, k),
        forall|k: Scaled|
            abs_nat(k.digits) < pow10(division_precision()) && same(
                untax_base_s(c.over_tax, u1, qty),
                #[trigger] mul_s(grown_share_s(c.over_tax), k)) ==> same(u2, k),
    ensures
        same(u2, add_s(mul_s(x, qty), stage_tax_s(c.over_taxable, x, qty))),
{
    let t1 = stage_tax_s(c.over_taxable, x, qty);
    let t2 = stage_tax_s(c.over_tax, add_s(x, t1), qty);
    let t3 = stage_tax_s(c.over_tax_ignorable, x, qty);
    let xq = mul_s(x, qty);
    // the two idle stages add nothing to the tax
    lemma_idle_stage(c.over_tax, add_s(x, t1), qty);
    lemma_idle_stage(c.over_tax_ignorable, x, qty);
    lemma_same_refl(t1);
    lemma_zero_is_zero(t2);
    lemma_zero_is_zero(t3);
    crate::decimal::lemma_add_congruent(t1, t2, t1, int_s(0));
    lemma_zero_sum(t1);
    lemma_same_trans(add_s(t1, t2), add_s(t1, int_s(0)), t1);
    crate::decimal::lemma_add_congruent(add_s(t1, t2), t3, t1, int_s(0));
    lemma_same_trans(add_s(add_s(t1, t2), t3), add_s(t1, int_s(0)), t1);
    lemma_same_refl(xq);
    crate::decimal::lemma_add_congruent(xq, total_tax_s(c, x, qty), xq, t1);
    lemma_same_trans(taxed, add_s(xq, total_tax_s(c, x, qty)), add_s(xq, t1));
    // removing the idle over-tax-ignorable stage
    lemma_idle_stage(c.over_tax_ignorable, taxed, qty);
    lemma_same_refl(taxed);
    crate::decimal::lemma_mul_congruent(grown_share_s(c.over_tax_ignorable), taxed, int_s(1), taxed);
    assert(mul_s(int_s(1), taxed) == taxed);
    lemma_same_sym(mul_s(grown_share_s(c.over_tax_ignorable), taxed), taxed);
    lemma_same_trans(
        untax_base_s(c.over_tax_ignorable, taxed, qty),
        taxed,
        mul_s(grown_share_s(c.over_tax_ignorable), taxed));
    assert(same(u1, taxed));
    // removing the idle over-tax stage
    lemma_idle_stage(c.over_tax, u1, qty);
    lemma_same_trans(untax_base_s(c.over_tax, u1, qty), u1, taxed);
    crate::decimal::lemma_mul_congruent(grown_share_s(c.over_tax), taxed, int_s(1), taxed);
    lemma_same_sym(mul_s(grown_share_s(c.over_tax), taxed), taxed);
    lemma_same_trans(untax_base_s(c.over_tax, u1, qty), taxed, mul_s(grown_share_s(c.over_tax), taxed));
    assert(same(u2, taxed));
    lemma_same_trans(u2, taxed, add_s(xq, t1));
}

/// A number with no digits is zero.
proof fn lemma_zero_is_zero(a: Scaled)
    requires
        is_zero_s(a),
    ensures
        same(a, int_s(0)),
{
    let k = common(a, int_s(0));
    lemma_sign_at(a, k);
    lemma_sign_at(int_s(0), k);
}

/// Adding zero changes nothing.
proof fn lemma_zero_sum(a: Scaled)
    ensures
        same(add_s(a, int_s(0)), a),
{
    let k = common(a, int_s(0));
    lemma_at_add(a, int_s(0), k);
    lemma_sign_at(int_s(0), k);
    lemma_compare_at(add_s(a, int_s(0)), a, k);
}

/// A part that is not negative is no larger than its sum with another.
proof fn lemma_part_of_sum(a: Scaled, b: Scaled)
    requires
        !is_negative_s(a),
    ensures
        !less(add_s(a, b), b),
{
    let k = common(a, b);
    lemma_at_add(a, b, k);
    lemma_sign_at(a, k);
    lemma_compare_at(add_s(a, b), b, k);
}

/// A stage that charges nothing.
pub open spec fn charges_nothing(r: TaxRates) -> bool {
    is_zero_s(r.percentual) && is_zero_s(r.amount_line) && is_zero_s(r.amount_unit)
}

/// A stage that charges nothing has no tax, and removing it leaves the
/// value as it is.
pub proof fn lemma_idle_stage(r: TaxRates, y: Scaled, qty: Scaled)
    requires
        charges_nothing(r),
    ensures
        is_zero_s(stage_tax_s(r, y, qty)),
        same(untax_base_s(r, y, qty), y),
        same(grown_share_s(r), int_s(1)),
{
    let m = mul_s(y, r.percentual);
    let k = common(percent_s(m), r.amount_unit);
    lemma_at_add(percent_s(m), r.amount_unit, k);
    lemma_sign_at(percent_s(m), k);
    lemma_sign_at(r.amount_unit, k);
    let s3 = add_s(percent_s(m), r.amount_unit);
    let k2 = common(mul_s(s3, qty), r.amount_line);
    lemma_at_add(mul_s(s3, qty), r.amount_line, k2);
    lemma_sign_at(mul_s(s3, qty), k2);
    lemma_sign_at(r.amount_line, k2);
    let u = mul_s(r.amount_unit, qty);
    let d1 = sub_s(y, r.amount_line);
    let kk = max_int(max_int(y.scale, r.amount_line.scale), u.scale);
    lemma_at_add(y, r.amount_line, kk);
    lemma_at_add(d1, u, kk);
    lemma_sign_at(r.amount_line, kk);
    lemma_sign_at(u, kk);
    lemma_compare_at(untax_base_s(r, y, qty), y, kk);
    let k3 = common(int_s(1), percent_s(r.percentual));
    lemma_at_add(int_s(1), percent_s(r.percentual), k3);
    lemma_sign_at(percent_s(r.percentual), k3);
    lemma_compare_at(grown_share_s(r), int_s(1), k3);
}

/// With the tax of a stage added to a line of a nonzero value, taking the
/// stage's amounts out leaves the line grown by the percentual.
#[verifier::spinoff_prover]
#[verifier::rlimit(60)]
pub proof fn lemma_untax_identity(r: TaxRates, taxed: Scaled, qty: Scaled, x: Scaled)
    requires
        !is_zero_s(x),
        same(taxed, add_s(mul_s(x, qty), stage_tax_s(r, x, qty))),
    ensures
        same(untax_base_s(r, taxed, qty), mul_s(grown_share_s(r), mul_s(x, qty))),
{
    let p = r.percentual;
    let au = r.amount_unit;
    let al = r.amount_line;
    let xq = mul_s(x, qty);
    let xp = mul_s(x, p);
    let s3 = add_s(percent_s(xp), au);
    let t = stage_tax_s(r, x, qty);
    let grown = grown_share_s(r);
    let base = untax_base_s(r, taxed, qty);
    let uq = mul_s(au, qty);
    let m0 = max_int(max_int(x.scale, qty.scale), max_int(p.scale + 2, max_int(au.scale, al.scale)));
    let m1 = max_int(max_int(taxed.scale, base.scale), max_int(t.scale, xq.scale));
    let m2 = max_int(max_int(grown.scale, s3.scale), max_int(uq.scale, 0));
    let m = max_int(m0, max_int(m1, m2));
    let k = m + m + m;
    // the left side, written with k places
    lemma_at_add(sub_s(taxed, al), uq, k);
    lemma_at_add(taxed, al, k);
    lemma_compare_at(taxed, add_s(xq, t), k);
    lemma_at_add(xq, t, k);
    lemma_at_add(mul_s(s3, qty), al, k);
    lemma_at_mul(s3, qty, m + m, m);
    lemma_at_add(percent_s(xp), au, m + m);
    assert(at(percent_s(xp), m + m) == at(xp, m + m - 2));
    lemma_at_mul(x, p, m, m - 2);
    lemma_at_mul(au, qty, m + m, m);
    lemma_at_mul(x, qty, m + m, m);
    lemma_at_shift(x, m, m as nat);
    // the right side
    lemma_at_mul(grown, xq, m, m + m);
    lemma_at_add(int_s(1), percent_s(p), m);
    assert(at(percent_s(p), m) == at(p, m - 2));
    lemma_at_shift(int_s(1), 0, m as nat);
    assert(pow10(0) == 1);
    lemma_at_mul(x, qty, m, m);
    let xv = at(x, m);
    let qv = at(qty, m);
    let pv = at(p, m - 2);
    let uv = at(au, m + m);
    let tp = pow10(m as nat);
    assert((xv * tp) * qv + ((xv * pv + uv) * qv) - uv * qv == (tp + pv) * (xv * qv))
        by (nonlinear_arith);
    lemma_compare_at(base, mul_s(grown, xq), k);
}

} // verus!
