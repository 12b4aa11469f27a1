//! Line-item sales arithmetic: discounts and taxes over exact decimals.
//!
//! A [`DetailCalculator`] holds the discounts and the three stages of taxes
//! of a line, computes the line's figures from a unit value and a quantity,
//! and recovers them from a value with taxes.
use vstd::prelude::*;

pub mod decimal;
pub mod discount;
pub mod tax;

pub use decimal::{hundred, inverse, one, zero, Decimal};

use decimal::{
    abs_nat, add_s, canon, difference_s, digit_count, division_precision, in_range, pow10,
    product_of, int_s, is_negative_s, is_zero_s, lemma_add_congruent, lemma_add_step,
    lemma_compare_congruent, lemma_same_refl,
    lemma_same_trans, less, mul_s, parsed, quotient_of, rounded_of, same, scale_within, sub_s,
    Scaled, INPUT_SCALE, SCALE_LIMIT, LINE_LIMBS, LINE_SCALE, VALUE_SCALE,
};
use discount::{
    discount_value_s, max_or_default, over_max, percentage_holds, percentage_s, rates_valid,
    undiscounted_s, DiscountComputer, DiscountError, DiscountRates,
};
use tax::{config_valid, stage_untax_s, total_tax_s, total_untax_refused, total_untax_s, TaxComputer, TaxConfig, TaxError};

verus! {

/// Why a line could not be computed.
#[derive(Debug)]
pub enum BagginsError<S: Into<String>> {
    /// A quantity is negative.
    NegativeQty(S),
    /// A text is not a decimal number.
    InvalidDecimalValue(S),
    /// A discount or a tax was refused; the message says which.
    Other(S),
}

/// The figures of a line with its discounts.
#[derive(Debug)]
pub struct CalculationWithDiscount {
    /// The unit value times the quantity, less the discount.
    pub net: Decimal,
    /// The net plus taxes.
    pub brute: Decimal,
    /// The taxes on the discounted line.
    pub tax: Decimal,
    /// The discount.
    pub discount_value: Decimal,
    /// What the discount takes off the value with taxes.
    pub discount_brute_value: Decimal,
    /// The discount as a percentage of the line.
    pub total_discount_percent: Decimal,
    /// The unit value after discount.
    pub unit_value: Decimal,
}

impl CalculationWithDiscount {
    pub fn new(
        net: Decimal,
        brute: Decimal,
        tax: Decimal,
        discount_value: Decimal,
        discount_brute_value: Decimal,
        total_discount_percent: Decimal,
        unit_value: Decimal,
    ) -> (r: CalculationWithDiscount)
        ensures
            r.net == net,
            r.brute == brute,
            r.tax == tax,
            r.discount_value == discount_value,
            r.discount_brute_value == discount_brute_value,
            r.total_discount_percent == total_discount_percent,
            r.unit_value == unit_value,
    {
        CalculationWithDiscount {
            net,
            brute,
            tax,
            discount_value,
            discount_brute_value,
            total_discount_percent,
            unit_value,
        }
    }
}

impl Default for CalculationWithDiscount {
    fn default() -> (r: CalculationWithDiscount)
        ensures
            r.net@ == int_s(0) && r.brute@ == int_s(0) && r.tax@ == int_s(0) && r.discount_value@
                == int_s(0) && r.discount_brute_value@ == int_s(0) && r.total_discount_percent@
                == int_s(0) && r.unit_value@ == int_s(0),
    {
        CalculationWithDiscount {
            net: zero(),
            brute: zero(),
            tax: zero(),
            discount_value: zero(),
            discount_brute_value: zero(),
            total_discount_percent: zero(),
            unit_value: zero(),
        }
    }
}

/// The figures of a line without its discounts.
#[derive(Debug)]
pub struct CalculationWithoutDiscount {
    /// The unit value times the quantity.
    pub net: Decimal,
    /// The net plus taxes.
    pub brute: Decimal,
    /// The taxes on the line.
    pub tax: Decimal,
    /// The unit value.
    pub unit_value: Decimal,
}

impl CalculationWithoutDiscount {
    pub fn new(net: Decimal, brute: Decimal, tax: Decimal, unit_value: Decimal) -> (r:
        CalculationWithoutDiscount)
        ensures
            r.net == net,
            r.brute == brute,
            r.tax == tax,
            r.unit_value == unit_value,
    {
        CalculationWithoutDiscount { net, brute, tax, unit_value }
    }
}

impl Default for CalculationWithoutDiscount {
    fn default() -> (r: CalculationWithoutDiscount)
        ensures
            r.net@ == int_s(0) && r.brute@ == int_s(0) && r.tax@ == int_s(0) && r.unit_value@
                == int_s(0),
    {
        CalculationWithoutDiscount { net: zero(), brute: zero(), tax: zero(), unit_value: zero() }
    }
}

/// The figures of a line, without and with its discounts.
#[derive(Debug)]
pub struct Calculation {
    pub without_discount_values: CalculationWithoutDiscount,
    pub with_discount_values: CalculationWithDiscount,
}

impl Calculation {
    pub fn new(
        without_discount_values: CalculationWithoutDiscount,
        with_discount_values: CalculationWithDiscount,
    ) -> (r: Calculation)
        ensures
            r.without_discount_values == without_discount_values,
            r.with_discount_values == with_discount_values,
    {
        Calculation { without_discount_values, with_discount_values }
    }
}

/// `r` is `c` with every figure rounded to `scale` decimal places.
pub open spec fn rounded_figures(c: Calculation, r: Calculation, scale: int) -> bool {
    let w = c.with_discount_values;
    let o = c.without_discount_values;
    let rw = r.with_discount_values;
    let ro = r.without_discount_values;
    same(ro.net@, rounded_of(canon(o.net@), scale)) && same(ro.brute@, rounded_of(canon(o.brute@), scale))
        && same(ro.tax@, rounded_of(canon(o.tax@), scale)) && same(
        ro.unit_value@,
        rounded_of(canon(o.unit_value@), scale),
    ) && same(rw.net@, rounded_of(canon(w.net@), scale)) && same(
        rw.brute@,
        rounded_of(canon(w.brute@), scale),
    ) && same(rw.tax@, rounded_of(canon(w.tax@), scale)) && same(
        rw.discount_value@,
        rounded_of(canon(w.discount_value@), scale),
    ) && same(rw.discount_brute_value@, rounded_of(canon(w.discount_brute_value@), scale)) && same(
        rw.total_discount_percent@,
        rounded_of(canon(w.total_discount_percent@), scale),
    ) && same(rw.unit_value@, rounded_of(canon(w.unit_value@), scale))
}

/// Every figure of `c` has a scale that the arithmetic accepts.
pub open spec fn figures_in_range(c: Calculation) -> bool {
    let w = c.with_discount_values;
    let o = c.without_discount_values;
    in_range(o.net) && in_range(o.brute) && in_range(o.tax) && in_range(o.unit_value) && in_range(
        w.net,
    ) && in_range(w.brute) && in_range(w.tax) && in_range(w.discount_value) && in_range(
        w.discount_brute_value,
    ) && in_range(w.total_discount_percent) && in_range(w.unit_value)
}

fn round_or_fail(d: &Decimal, scale: i64) -> (r: Result<Decimal, BagginsError<String>>)
    ensures
        r matches Ok(v) ==> same(v@, rounded_of(canon(d@), scale as int)),
        r matches Err(e) ==> e is Other,
        in_range(*d) && -SCALE_LIMIT <= scale <= SCALE_LIMIT ==> r is Ok,
{
    match d.round(scale) {
        Some(v) => Ok(v),
        None => Err(range_error()),
    }
}

impl Calculation {
    /// A new calculation with every figure rounded to `scale` decimal
    /// places; `self` is left as it is.
    pub fn round(&self, scale: i64) -> (r: Result<Calculation, BagginsError<String>>)
        ensures
            r matches Ok(c) ==> rounded_figures(*self, c, scale as int),
            r matches Err(e) ==> e is Other,
            figures_in_range(*self) && -SCALE_LIMIT <= scale <= SCALE_LIMIT ==> r is Ok,
    {
        let w = &self.with_discount_values;
        let o = &self.without_discount_values;
        let without = CalculationWithoutDiscount {
            net: round_or_fail(&o.net, scale)?,
            brute: round_or_fail(&o.brute, scale)?,
            tax: round_or_fail(&o.tax, scale)?,
            unit_value: round_or_fail(&o.unit_value, scale)?,
        };
        let with = CalculationWithDiscount {
            net: round_or_fail(&w.net, scale)?,
            brute: round_or_fail(&w.brute, scale)?,
            tax: round_or_fail(&w.tax, scale)?,
            discount_value: round_or_fail(&w.discount_value, scale)?,
            discount_brute_value: round_or_fail(&w.discount_brute_value, scale)?,
            total_discount_percent: round_or_fail(&w.total_discount_percent, scale)?,
            unit_value: round_or_fail(&w.unit_value, scale)?,
        };
        Ok(Calculation { without_discount_values: without, with_discount_values: with })
    }
}

/// The unit value after discount, as the division writes it: the net
/// divided by the quantity, or the unit value itself for no quantity.
pub open spec fn discounted_unit_value_s(net: Scaled, unit_value: Scaled, qty: Scaled) -> Scaled {
    if is_zero_s(qty) {
        unit_value
    } else {
        quotient_of(net, qty)
    }
}

/// `c` holds the figures of `qty` units of `unit_value` each, under the
/// discount rates `d` and the taxes `t`.
pub open spec fn figures_of(
    c: Calculation,
    d: DiscountRates,
    t: TaxConfig,
    unit_value: Scaled,
    qty: Scaled,
) -> bool {
    let line = mul_s(unit_value, qty);
    let discount = discount_value_s(d, unit_value, qty);
    let net = sub_s(line, discount);
    let w = c.with_discount_values;
    let o = c.without_discount_values;
    let tax = total_tax_s(t, w.unit_value@, qty);
    let tax_wo = total_tax_s(t, unit_value, qty);
    let brute = add_s(net, tax);
    let brute_wo = add_s(line, tax_wo);
    o.net@ == product_of(unit_value, qty) && o.unit_value@ == unit_value && same(o.tax@, tax_wo)
        && same(o.brute@, brute_wo) && same(w.discount_value@, discount)
        && w.total_discount_percent@ == percentage_s(w.discount_value@, o.net@) && percentage_holds(
        w.total_discount_percent@,
        discount,
        line,
    ) && w.net@ == difference_s(o.net@, w.discount_value@) && same(w.net@, net) && w.unit_value@
        == discounted_unit_value_s(w.net@, unit_value, qty) && (!is_zero_s(qty) ==> forall|x: Scaled|
        abs_nat(x.digits) < pow10(division_precision()) && same(net, #[trigger] mul_s(qty, x))
            ==> same(w.unit_value@, x)) && same(w.tax@, tax) && same(w.brute@, brute) && same(
        w.discount_brute_value@,
        sub_s(brute, brute_wo),
    )
}

/// `c` holds `line`, `net`, the discounted unit value `duv`, `discount`
/// and `percent` as they are, with the taxes `t` on `duv` and on
/// `unit_value` and the values with taxes that follow.
pub open spec fn taxed_figures(
    c: Calculation,
    t: TaxConfig,
    unit_value: Scaled,
    qty: Scaled,
    line: Scaled,
    net: Scaled,
    duv: Scaled,
    discount: Scaled,
    percent: Scaled,
) -> bool {
    let tax = total_tax_s(t, duv, qty);
    let tax_wo = total_tax_s(t, unit_value, qty);
    let brute = add_s(net, tax);
    let brute_wo = add_s(line, tax_wo);
    let w = c.with_discount_values;
    let o = c.without_discount_values;
    o.net@ == line && o.unit_value@ == unit_value && w.discount_value@ == discount
        && w.total_discount_percent@ == percent && w.net@ == net && w.unit_value@ == duv && same(
        o.tax@,
        tax_wo,
    ) && same(o.brute@, brute_wo) && same(w.tax@, tax) && same(w.brute@, brute) && same(
        w.discount_brute_value@,
        sub_s(brute, brute_wo),
    )
}

/// Figures built from parts that are a line's parts are the line's figures.
proof fn lemma_figures_from_parts(
    c: Calculation,
    d: DiscountRates,
    t: TaxConfig,
    unit_value: Scaled,
    qty: Scaled,
    line: Scaled,
    net: Scaled,
    duv: Scaled,
    discount: Scaled,
    percent: Scaled,
)
    requires
        taxed_figures(c, t, unit_value, qty, line, net, duv, discount, percent),
        line == product_of(unit_value, qty),
        same(line, mul_s(unit_value, qty)),
        same(discount, discount_value_s(d, unit_value, qty)),
        percent == percentage_s(discount, line),
        percentage_holds(percent, discount_value_s(d, unit_value, qty), mul_s(unit_value, qty)),
        net == difference_s(line, discount),
        same(net, sub_s(mul_s(unit_value, qty), discount_value_s(d, unit_value, qty))),
        duv == discounted_unit_value_s(net, unit_value, qty),
        !is_zero_s(qty) ==> forall|x: Scaled|
            abs_nat(x.digits) < pow10(division_precision()) && same(
                sub_s(mul_s(unit_value, qty), discount_value_s(d, unit_value, qty)),
                #[trigger] mul_s(qty, x),
            ) ==> same(duv, x),
    ensures
        figures_of(c, d, t, unit_value, qty),
{
    let l = mul_s(unit_value, qty);
    let dv = discount_value_s(d, unit_value, qty);
    let n = sub_s(l, dv);
    let w = c.with_discount_values;
    let o = c.without_discount_values;
    let ts = total_tax_s(t, duv, qty);
    let tws = total_tax_s(t, unit_value, qty);
    lemma_same_refl(ts);
    lemma_same_refl(tws);
    lemma_add_congruent(net, ts, n, ts);
    lemma_add_congruent(line, tws, l, tws);
    lemma_add_congruent(add_s(net, ts), add_s(line, tws), add_s(n, ts), add_s(l, tws));
    lemma_same_trans(o.brute@, add_s(line, tws), add_s(l, tws));
    lemma_same_trans(w.brute@, add_s(net, ts), add_s(n, ts));
    lemma_same_trans(
        w.discount_brute_value@,
        sub_s(add_s(net, ts), add_s(line, tws)),
        sub_s(add_s(n, ts), add_s(l, tws)),
    );
}

/// The discounts refuse to apply to `qty` units of `unit_value`.
pub open spec fn discount_refused(d: DiscountRates, unit_value: Scaled, qty: Scaled, max: Scaled) -> bool {
    is_negative_s(max) || is_negative_s(unit_value) || is_negative_s(qty) || over_max(
        d,
        unit_value,
        qty,
        max,
    )
}

/// The unit value recovered from `brute`, the value with taxes of `qty`
/// units, as the computation writes it: the taxes are removed, then the
/// discounts, and the line is shared among the units.
pub open spec fn recovered_unit_value_s(d: DiscountRates, t: TaxConfig, brute: Scaled, qty: Scaled) -> Scaled {
    quotient_of(undiscounted_s(d, total_untax_s(t, brute, qty), qty), qty)
}

/// What computing the figures of `qty` units of `unit_value` under the cap
/// `max` gives.
pub open spec fn line_outcome(
    d: DiscountRates,
    t: TaxConfig,
    unit_value: Scaled,
    qty: Scaled,
    max: Scaled,
    r: Result<Calculation, BagginsError<String>>,
) -> bool {
    (discount_refused(d, unit_value, qty, max) ==> (r matches Err(BagginsError::Other(m)) && m@
        == "calculating discount"@)) && (r matches Err(BagginsError::Other(m)) ==> m@
        == "calculating discount"@ || m@ == "calculating taxes"@ || m@
        == "a decimal scale is out of range"@) && (r matches Err(e) ==> e is Other) && (r matches Ok(
        c,
    ) ==> figures_of(c, d, t, unit_value, qty)) && (!discount_refused(d, unit_value, qty, max)
        && scale_within(unit_value, LINE_SCALE as int) && scale_within(qty, LINE_SCALE as int)
        && scale_within(max, LINE_SCALE as int) && digit_count(abs_nat(qty.digits)) <= 10
        * LINE_LIMBS ==> r is Ok)
}

/// What recovering the figures of a line of `qty` units from `brute`, its
/// value with taxes, gives.
pub open spec fn brute_outcome(
    d: DiscountRates,
    t: TaxConfig,
    brute: Scaled,
    qty: Scaled,
    max: Scaled,
    r: Result<Calculation, BagginsError<String>>,
) -> bool {
    (r matches Err(BagginsError::Other(m)) ==> m@ == "untaxing brute"@ || m@
        == "undiscounting the untaxed value"@ || m@ == "no quantity to share the line among"@ || m@
        == "a decimal scale is out of range"@ || m@ == "calculating discount"@ || m@
        == "calculating taxes"@) && (is_negative_s(brute) || is_negative_s(qty) || total_untax_refused(t, brute, qty) ==> (r matches Err(
        BagginsError::Other(m),
    ) && m@ == "untaxing brute"@)) && (is_zero_s(qty) ==> r is Err) && (r matches Err(e)
        ==> e is Other) && (r matches Ok(c) ==> figures_of(
        c,
        d,
        t,
        recovered_unit_value_s(d, t, brute, qty),
        qty,
    ) && !discount_refused(d, recovered_unit_value_s(d, t, brute, qty), qty, max)) && (
    !is_negative_s(brute) && !is_negative_s(qty) && !is_zero_s(qty) && !total_untax_refused(
        t,
        brute,
        qty,
    ) && scale_within(brute, VALUE_SCALE as int) && scale_within(qty, LINE_SCALE as int)
        && scale_within(stage_untax_s(t.over_tax_ignorable, brute, qty), VALUE_SCALE as int)
        && scale_within(
        stage_untax_s(t.over_tax, stage_untax_s(t.over_tax_ignorable, brute, qty), qty),
        VALUE_SCALE as int,
    ) && scale_within(total_untax_s(t, brute, qty), VALUE_SCALE as int) && !same(
        d.percentual,
        int_s(100),
    ) && scale_within(undiscounted_s(d, total_untax_s(t, brute, qty), qty), SCALE_LIMIT as int)
        && scale_within(recovered_unit_value_s(d, t, brute, qty), LINE_SCALE as int)
        && scale_within(max, LINE_SCALE as int) && digit_count(abs_nat(qty.digits)) <= 10
        * LINE_LIMBS && !discount_refused(d, recovered_unit_value_s(d, t, brute, qty), qty, max)
        ==> r is Ok)
}

fn range_error() -> (r: BagginsError<String>)
    ensures
        r matches BagginsError::Other(m) && m@ == "a decimal scale is out of range"@,
{
    BagginsError::Other("a decimal scale is out of range".to_owned())
}

/// Computes the figures of a line from its discounts and taxes.
pub struct DetailCalculator {
    tax_handler: TaxComputer,
    discount_handler: DiscountComputer,
}

impl Default for DetailCalculator {
    fn default() -> (r: DetailCalculator)
        ensures
            r.valid(),
    {
        DetailCalculator::new()
    }
}

impl DetailCalculator {
    pub open spec fn valid(&self) -> bool {
        config_valid(self.taxes()) && rates_valid(self.discounts())
    }

    /// The discount rates of the line.
    pub closed spec fn discounts(&self) -> DiscountRates {
        self.discount_handler@
    }

    /// The tax rates of the line's three stages.
    pub closed spec fn taxes(&self) -> TaxConfig {
        self.tax_handler@
    }

    /// A calculator with no discount and no tax.
    pub fn new() -> (r: DetailCalculator)
        ensures
            r.valid(),
            r.discounts() == (DiscountRates {
                percentual: int_s(0),
                amount_line: int_s(0),
                amount_unit: int_s(0),
            }),
            forall|s: tax::Stage|
                #[trigger] tax::stage_of(r.taxes(), s) == (tax::TaxRates {
                    percentual: int_s(0),
                    amount_line: int_s(0),
                    amount_unit: int_s(0),
                }),
    {
        DetailCalculator { tax_handler: TaxComputer::new(), discount_handler: DiscountComputer::new() }
    }

    /// The figures of `qty` units of `unit_value` each: the discount, the
    /// net, the taxes on the discounted unit value and the value with taxes,
    /// and the same figures without the discount.
    #[verifier::rlimit(60)]
    #[verifier::spinoff_prover]
    pub fn compute(&self, unit_value: Decimal, qty: Decimal, max_discount_allowed: Option<Decimal>) -> (r:
        Result<Calculation, BagginsError<String>>)
        requires
            self.valid(),
        ensures
            line_outcome(
                self.discounts(),
                self.taxes(),
                unit_value@,
                qty@,
                max_or_default(max_discount_allowed),
                r,
            ),
    {
        let ghost d = self.discounts();
        let ghost t = self.taxes();
        let ghost max = max_or_default(max_discount_allowed);
        let (discount, percent) = match self.discount_handler.compute(
            unit_value.copy(),
            qty.copy(),
            max_discount_allowed,
        ) {
            Ok(v) => v,
            Err(_) => return Err(BagginsError::Other("calculating discount".to_owned())),
        };
        let Some(line) = unit_value.times(&qty) else { return Err(range_error()) };
        let Some(net) = line.minus(&discount) else { return Err(range_error()) };
        let ghost line_s = mul_s(unit_value@, qty@);
        let ghost discount_s = discount_value_s(d, unit_value@, qty@);
        let ghost net_s = sub_s(line_s, discount_s);
        proof {
            lemma_same_refl(unit_value@);
            crate::decimal::lemma_sub_step(net@, line@, discount@, line_s, discount_s);
            lemma_compare_congruent(qty@, qty@, qty@, qty@);
            lemma_compare_congruent(line@, discount@, line_s, discount_s);
            decimal::lemma_negative_difference(line@, discount@, net@);
        }
        let duv = if qty.is_zero() {
            unit_value.copy()
        } else {
            let Some(v) = net.over(&qty) else { return Err(range_error()) };
            proof {
                assert forall|x: Scaled|
                    abs_nat(x.digits) < pow10(division_precision()) && same(
                        net_s,
                        #[trigger] mul_s(qty@, x),
                    ) implies same(v@, x) by {
                    lemma_same_trans(net@, net_s, mul_s(qty@, x));
                }
            }
            v
        };
        let ghost uv = unit_value@;
        let ghost q = qty@;
        let ghost parts = (line@, net@, duv@, discount@, percent@);
        let r = self.with_taxes(unit_value, &qty, line, net, duv, discount, percent);
        proof {
            if r is Ok {
                lemma_figures_from_parts(
                    r->Ok_0,
                    d,
                    t,
                    uv,
                    q,
                    parts.0,
                    parts.1,
                    parts.2,
                    parts.3,
                    parts.4,
                );
            }
        }
        r
    }

    /// The taxes and the values with taxes of a line whose discount is
    /// known, and the calculation that holds them.
    #[verifier::spinoff_prover]
    fn with_taxes(
        &self,
        unit_value: Decimal,
        qty: &Decimal,
        line: Decimal,
        net: Decimal,
        duv: Decimal,
        discount: Decimal,
        percent: Decimal,
    ) -> (r: Result<Calculation, BagginsError<String>>)
        requires
            self.valid(),
        ensures
            r matches Err(e) ==> e is Other,
            r matches Err(BagginsError::Other(m)) ==> m@ == "calculating taxes"@ || m@
                == "a decimal scale is out of range"@,
            r matches Ok(c) ==> taxed_figures(
                c,
                self.taxes(),
                unit_value@,
                qty@,
                line@,
                net@,
                duv@,
                discount@,
                percent@,
            ),
            !is_negative_s(unit_value@) && !is_negative_s(qty@) && !is_negative_s(duv@)
                && scale_within(unit_value@, INPUT_SCALE as int) && scale_within(
                qty@,
                INPUT_SCALE as int,
            ) && scale_within(duv@, INPUT_SCALE as int) && scale_within(
                line@,
                VALUE_SCALE as int,
            ) && scale_within(net@, VALUE_SCALE as int) ==> r is Ok,
    {
        let tax = match self.tax_handler.tax(&duv, qty) {
            Ok(v) => v,
            Err(_) => return Err(BagginsError::Other("calculating taxes".to_owned())),
        };
        let tax_wo = match self.tax_handler.tax(&unit_value, qty) {
            Ok(v) => v,
            Err(_) => return Err(BagginsError::Other("calculating taxes".to_owned())),
        };
        let Some(brute_wo) = line.plus(&tax_wo) else { return Err(range_error()) };
        let Some(brute) = net.plus(&tax) else { return Err(range_error()) };
        let Some(discount_brute) = brute.minus(&brute_wo) else { return Err(range_error()) };
        let c = Calculation {
            without_discount_values: CalculationWithoutDiscount {
                net: line,
                brute: brute_wo,
                tax: tax_wo,
                unit_value: unit_value,
            },
            with_discount_values: CalculationWithDiscount {
                net,
                brute,
                tax,
                discount_value: discount,
                discount_brute_value: discount_brute,
                total_discount_percent: percent,
                unit_value: duv,
            },
        };
        proof {
            let t = self.taxes();
            let ts = total_tax_s(t, c.with_discount_values.unit_value@, qty@);
            let tws = total_tax_s(t, c.without_discount_values.unit_value@, qty@);
            lemma_same_refl(c.without_discount_values.net@);
            lemma_same_refl(c.with_discount_values.net@);
            lemma_add_step(
                c.without_discount_values.brute@,
                c.without_discount_values.net@,
                c.without_discount_values.tax@,
                c.without_discount_values.net@,
                tws,
            );
            lemma_add_step(
                c.with_discount_values.brute@,
                c.with_discount_values.net@,
                c.with_discount_values.tax@,
                c.with_discount_values.net@,
                ts,
            );
            crate::decimal::lemma_sub_step(
                c.with_discount_values.discount_brute_value@,
                c.with_discount_values.brute@,
                c.without_discount_values.brute@,
                add_s(c.with_discount_values.net@, ts),
                add_s(c.without_discount_values.net@, tws),
            );
            lemma_same_refl(c.without_discount_values.unit_value@);
            lemma_same_refl(c.with_discount_values.unit_value@);
            lemma_same_refl(c.with_discount_values.discount_value@);
            lemma_same_refl(c.with_discount_values.total_discount_percent@);
        }
        Ok(c)
    }

    /// The figures of a line of `qty` units whose value with taxes is
    /// `brute`: the taxes and then the discounts are removed, the line is
    /// shared among the units, and the figures are computed again from that
    /// unit value.
    pub fn compute_from_brute(
        &self,
        brute: Decimal,
        qty: Decimal,
        max_discount_allowed: Option<Decimal>,
    ) -> (r: Result<Calculation, BagginsError<String>>)
        requires
            self.valid(),
        ensures
            brute_outcome(
                self.discounts(),
                self.taxes(),
                brute@,
                qty@,
                max_or_default(max_discount_allowed),
                r,
            ),
    {
        let ghost d = self.discounts();
        let ghost t = self.taxes();
        let untaxed = match self.tax_handler.un_tax(&brute, &qty) {
            Ok(v) => v,
            Err(_) => return Err(BagginsError::Other("untaxing brute".to_owned())),
        };
        let (line, _, _) = match self.discount_handler.un_discount(untaxed.copy(), qty.copy()) {
            Ok(v) => v,
            Err(_) => return Err(BagginsError::Other("undiscounting the untaxed value".to_owned())),
        };
        if qty.is_zero() {
            return Err(BagginsError::Other("no quantity to share the line among".to_owned()));
        }
        let Some(unit_value) = line.over(&qty) else { return Err(range_error()) };
        assert(unit_value@ == recovered_unit_value_s(d, t, brute@, qty@));
        self.compute(unit_value, qty, max_discount_allowed)
    }

    /// Adds a discount; see [`DiscountComputer::add_discount`].
    pub fn add_discount(&mut self, discount: Decimal, mode: discount::Mode) -> (r: Option<
        DiscountError<String>,
    >)
        requires
            old(self).valid(),
        ensures
            final(self).valid(),
            final(self).taxes() == old(self).taxes(),
            discount::add_discount_outcome(old(self).discounts(), final(self).discounts(), discount@, mode, r),
    {
        self.discount_handler.add_discount(discount, mode)
    }

    /// Adds a discount given as text.
    pub fn add_discount_from_str(&mut self, discount: &str, mode: discount::Mode) -> (r: Option<
        DiscountError<String>,
    >)
        requires
            old(self).valid(),
        ensures
            final(self).valid(),
            final(self).taxes() == old(self).taxes(),
            parsed(discount@) is None <==> r matches Some(DiscountError::InvalidDecimal(_)),
            parsed(discount@) is None ==> final(self).discounts() == old(self).discounts(),
            parsed(discount@) is Some ==> discount::add_discount_outcome(
                old(self).discounts(),
                final(self).discounts(),
                parsed(discount@)->Some_0,
                mode,
                r,
            ),
    {
        match Decimal::parse(discount) {
            Some(d) => self.add_discount(d, mode),
            None => Some(DiscountError::InvalidDecimal("discount is not a decimal".to_owned())),
        }
    }

    /// Adds a tax to a stage; see [`TaxComputer::add_tax`].
    pub fn add_tax(&mut self, tax: Decimal, stage: tax::Stage, mode: tax::Mode) -> (r: Option<
        TaxError<String>,
    >)
        requires
            old(self).valid(),
        ensures
            final(self).valid(),
            final(self).discounts() == old(self).discounts(),
            tax::add_tax_outcome(old(self).taxes(), final(self).taxes(), tax@, stage, mode, r),
    {
        self.tax_handler.add_tax(tax, stage, mode)
    }

    /// Adds a tax given as text to a stage.
    pub fn add_tax_from_str(&mut self, tax: &str, stage: tax::Stage, mode: tax::Mode) -> (r: Option<
        TaxError<String>,
    >)
        requires
            old(self).valid(),
        ensures
            final(self).valid(),
            final(self).discounts() == old(self).discounts(),
            parsed(tax@) is None <==> r matches Some(TaxError::InvalidDecimal(_)),
            parsed(tax@) is None ==> final(self).taxes() == old(self).taxes(),
            parsed(tax@) is Some ==> tax::add_tax_outcome(
                old(self).taxes(),
                final(self).taxes(),
                parsed(tax@)->Some_0,
                stage,
                mode,
                r,
            ),
    {
        match Decimal::parse(tax) {
            Some(t) => self.add_tax(t, stage, mode),
            None => Some(TaxError::InvalidDecimal("tax is not a decimal".to_owned())),
        }
    }

    /// The tax of a single rate, not recorded; see [`TaxComputer::line_tax`].
    pub fn line_tax(&self, taxable: &Decimal, qty: &Decimal, value: &Decimal, mode: tax::Mode) -> (r:
        Result<Decimal, TaxError<String>>)
        ensures
            tax::line_tax_outcome(taxable@, qty@, value@, mode, r),
    {
        self.tax_handler.line_tax(taxable, qty, value, mode)
    }

    /// [`DetailCalculator::line_tax`] on values given as text.
    pub fn line_tax_from_str(&self, taxable: &str, qty: &str, value: &str, mode: tax::Mode) -> (r:
        Result<Decimal, TaxError<String>>)
        ensures
            (parsed(taxable@) is None || parsed(qty@) is None || parsed(value@) is None) <==> r matches Err(
                TaxError::InvalidDecimal(_),
            ),
            parsed(taxable@) is Some && parsed(qty@) is Some && parsed(value@) is Some
                ==> tax::line_tax_outcome(
                parsed(taxable@)->Some_0,
                parsed(qty@)->Some_0,
                parsed(value@)->Some_0,
                mode,
                r,
            ),
    {
        self.tax_handler.line_tax_from_str(taxable, qty, value, mode)
    }

    /// [`DetailCalculator::compute`] on values given as text.
    pub fn compute_from_str(&self, unit_value: &str, qty: &str, max_discount_allowed: Option<&str>) -> (r:
        Result<Calculation, BagginsError<String>>)
        requires
            self.valid(),
        ensures
            (parsed(unit_value@) is None || parsed(qty@) is None || discount::parsed_or_hundred(
                max_discount_allowed,
            ) is None) <==> r matches Err(BagginsError::InvalidDecimalValue(_)),
            parsed(unit_value@) is Some && parsed(qty@) is Some && discount::parsed_or_hundred(
                max_discount_allowed,
            ) is Some ==> line_outcome(
                self.discounts(),
                self.taxes(),
                parsed(unit_value@)->Some_0,
                parsed(qty@)->Some_0,
                discount::parsed_or_hundred(max_discount_allowed)->Some_0,
                r,
            ),
    {
        let Some(uv) = Decimal::parse(unit_value) else {
            return Err(BagginsError::InvalidDecimalValue("unit_value is not a decimal".to_owned()));
        };
        let Some(q) = Decimal::parse(qty) else {
            return Err(BagginsError::InvalidDecimalValue("qty is not a decimal".to_owned()));
        };
        let max = match max_discount_allowed {
            Some(m) => match Decimal::parse(m) {
                Some(v) => Some(v),
                None => {
                    return Err(
                        BagginsError::InvalidDecimalValue(
                            "max_discount_allowed is not a decimal".to_owned(),
                        ),
                    );
                },
            },
            None => None,
        };
        let ghost uvs = uv@;
        let ghost qs = q@;
        let ghost ms = max_or_default(max);
        let r = self.compute(uv, q, max);
        proof {
            if r is Ok {
                assert(parsed(unit_value@) == Some(uvs) && parsed(qty@) == Some(qs));
            }
        }
        r
    }

    /// [`DetailCalculator::compute_from_brute`] on values given as text.
    pub fn compute_from_brute_str(&self, brute: &str, qty: &str, max_discount_allowed: Option<&str>) -> (r:
        Result<Calculation, BagginsError<String>>)
        requires
            self.valid(),
        ensures
            (parsed(brute@) is None || parsed(qty@) is None || discount::parsed_or_hundred(
                max_discount_allowed,
            ) is None) <==> r matches Err(BagginsError::InvalidDecimalValue(_)),
            parsed(brute@) is Some && parsed(qty@) is Some && discount::parsed_or_hundred(
                max_discount_allowed,
            ) is Some ==> brute_outcome(
                self.discounts(),
                self.taxes(),
                parsed(brute@)->Some_0,
                parsed(qty@)->Some_0,
                discount::parsed_or_hundred(max_discount_allowed)->Some_0,
                r,
            ),
    {
        let Some(b) = Decimal::parse(brute) else {
            return Err(BagginsError::InvalidDecimalValue("brute is not a decimal".to_owned()));
        };
        let Some(q) = Decimal::parse(qty) else {
            return Err(BagginsError::InvalidDecimalValue("qty is not a decimal".to_owned()));
        };
        let max = match max_discount_allowed {
            Some(m) => match Decimal::parse(m) {
                Some(v) => Some(v),
                None => {
                    return Err(
                        BagginsError::InvalidDecimalValue(
                            "max_discount_allowed is not a decimal".to_owned(),
                        ),
                    );
                },
            },
            None => None,
        };
        let ghost bs = b@;
        let ghost qs = q@;
        let ghost ms = max_or_default(max);
        let r = self.compute_from_brute(b, q, max);
        proof {
            if r is Ok {
                assert(parsed(brute@) == Some(bs) && parsed(qty@) == Some(qs));
            }
        }
        r
    }
}

} // verus!
