use baggins::discount::{DiscountComputer, DiscountError, Mode as DiscountMode};
use baggins::tax::{Mode, Stage, TaxComputer, TaxError, TaxStage};
use baggins::{BagginsError, Decimal, DetailCalculator};

fn d(s: &str) -> Decimal {
    Decimal::parse(s).unwrap()
}

fn is(a: &Decimal, b: &str) -> bool {
    a.same_value(&d(b)) == Some(true)
}

#[test]
fn discount_round_trip_recovers_line() {
    let mut disc = DiscountComputer::new();
    assert!(disc.add_discount(d("10.2"), DiscountMode::Percentual).is_none());
    assert!(disc.add_discount(d("10.56"), DiscountMode::AmountUnit).is_none());
    assert!(disc.add_discount(d("1.5"), DiscountMode::AmountLine).is_none());
    let (value, _) = disc.compute(d("100"), d("3"), None).unwrap();
    let discounted = d("300").minus(&value).unwrap();
    let (line, removed, percent) = disc.un_discount(discounted, d("3")).unwrap();
    assert!(is(&line, "300"));
    assert!(removed.same_value(&value) == Some(true));
    let (_, expected_percent) = disc.compute(d("100"), d("3"), None).unwrap();
    assert!(percent.same_value(&expected_percent) == Some(true));
}

#[test]
fn discount_full_percentual_cannot_be_removed() {
    let mut disc = DiscountComputer::new();
    assert!(disc.add_discount(d("100"), DiscountMode::Percentual).is_none());
    assert!(matches!(
        disc.un_discount(d("0"), d("1")),
        Err(DiscountError::DivisionByZero(_))
    ));
}

#[test]
fn stage_round_trip_recovers_taxable() {
    let mut stage = TaxStage::new();
    assert!(stage.add_percentual(d("18")).is_none());
    assert!(stage.add_amount_by_qty(d("0.5")).is_none());
    assert!(stage.add_amount_by_line(d("3")).is_none());
    let t = stage.tax(&d("24.576855"), &d("1")).unwrap();
    let taxed = d("24.576855").plus(&t).unwrap();
    let back = stage.untax(&taxed, &d("1")).unwrap();
    assert!(is(&back, "24.576855"));
    let t4 = stage.tax(&d("12.5"), &d("4")).unwrap();
    assert!(is(&t4, "14"));
    let back4 = stage.untax(&d("64"), &d("4")).unwrap();
    assert!(is(&back4, "50"));
}

#[test]
fn stage_untax_below_fixed_amounts_is_refused() {
    let mut stage = TaxStage::new();
    assert!(stage.add_amount_by_line(d("3")).is_none());
    assert!(matches!(stage.untax(&d("2"), &d("1")), Err(TaxError::NegativeValue(_))));
    assert!(matches!(stage.untax(&d("-2"), &d("1")), Err(TaxError::NegativeValue(_))));
}

#[test]
fn over_max_discount_boundary() {
    let mut disc = DiscountComputer::new();
    assert!(disc.add_discount(d("10"), DiscountMode::AmountLine).is_none());
    // the cap is 10% of 100: exactly the discount
    let ok = disc.compute(d("100"), d("1"), Some(d("10")));
    assert!(ok.is_ok());
    let refused = disc.compute(d("100"), d("1"), Some(d("9.99")));
    assert!(matches!(refused, Err(DiscountError::OverMaxDiscount(_))));
    let (value, percent) = ok.unwrap();
    assert!(is(&value, "10"));
    assert!(is(&percent, "10"));
}

#[test]
fn discount_errors() {
    let mut disc = DiscountComputer::new();
    assert!(matches!(
        disc.add_discount(d("-1"), DiscountMode::AmountUnit),
        Some(DiscountError::NegativeValue(_))
    ));
    assert!(disc.add_discount(d("60"), DiscountMode::Percentual).is_none());
    assert!(matches!(
        disc.add_discount(d("40.01"), DiscountMode::Percentual),
        Some(DiscountError::OverMaxDiscount(_))
    ));
    assert!(is(&disc.percentual(), "60"));
    assert!(disc.add_discount(d("40"), DiscountMode::Percentual).is_none());
    assert!(matches!(
        disc.add_discount_from_str("ten", DiscountMode::Percentual),
        Some(DiscountError::InvalidDecimal(_))
    ));
    assert!(matches!(
        disc.compute(d("-1"), d("1"), None),
        Err(DiscountError::NegativeValue(_))
    ));
    assert!(matches!(
        disc.compute(d("1"), d("-1"), None),
        Err(DiscountError::NegativeValue(_))
    ));
    assert!(matches!(
        disc.compute(d("1"), d("1"), Some(d("-1"))),
        Err(DiscountError::NegativeValue(_))
    ));
    assert!(matches!(
        disc.compute_from_str("1", "x", None),
        Err(DiscountError::InvalidDecimal(_))
    ));
}

#[test]
fn discount_percentage_is_share_of_line() {
    let mut disc = DiscountComputer::new();
    assert!(disc.add_discount(d("1"), DiscountMode::AmountLine).is_none());
    let (value, percent) = disc.compute(d("3"), d("1"), None).unwrap();
    assert!(is(&value, "1"));
    // 100 / 3 rounded to one hundred significant digits
    let third = format!("33.{}", "3".repeat(98));
    assert!(is(&percent, &third));
    let (zero_value, zero_percent) = DiscountComputer::new().compute(d("0"), d("0"), None).unwrap();
    assert!(is(&zero_value, "0"));
    assert!(is(&zero_percent, "0"));
}

#[test]
fn ratio_cases() {
    assert!(matches!(
        TaxComputer::ratio(&d("0"), &d("0")),
        Err(TaxError::DivisionByZero(_))
    ));
    assert!(is(&TaxComputer::ratio(&d("100"), &d("0")).unwrap(), "0"));
    assert!(is(&TaxComputer::ratio(&d("0"), &d("100")).unwrap(), "100"));
    assert!(is(&TaxComputer::ratio(&d("84"), &d("16")).unwrap(), "16"));
}

#[test]
fn zero_taxable_gives_zero_tax() {
    let mut taxes = TaxComputer::new();
    assert!(taxes.add_tax(d("18"), Stage::OverTaxable, Mode::Percentual).is_none());
    assert!(taxes.add_tax(d("2"), Stage::OverTax, Mode::AmountLine).is_none());
    assert!(taxes.add_tax(d("1"), Stage::OverTaxIgnorable, Mode::AmountUnit).is_none());
    let t = taxes.tax(&d("0"), &d("3")).unwrap();
    assert!(is(&t, "0"));
    let mut stage = TaxStage::new();
    assert!(stage.add_amount_by_line(d("5")).is_none());
    assert!(is(&stage.tax(&d("0"), &d("2")).unwrap(), "0"));
}

#[test]
fn three_stage_tax_composition() {
    let mut taxes = TaxComputer::new();
    assert!(taxes.add_tax(d("10"), Stage::OverTaxable, Mode::Percentual).is_none());
    assert!(taxes.add_tax(d("10"), Stage::OverTax, Mode::Percentual).is_none());
    assert!(taxes.add_tax(d("5"), Stage::OverTaxIgnorable, Mode::Percentual).is_none());
    // t1 = 10, t2 = 10% of (100 + 10) = 11, t3 = 5
    let t = taxes.tax(&d("100"), &d("1")).unwrap();
    assert!(is(&t, "26"));
    assert!(matches!(taxes.tax(&d("-1"), &d("1")), Err(TaxError::NegativeValue(_))));
    assert!(matches!(taxes.tax_from_str("1", "one"), Err(TaxError::InvalidDecimal(_))));
}

#[test]
fn three_stage_untax_removes_stages_in_turn() {
    let mut taxes = TaxComputer::new();
    assert!(taxes.add_tax(d("16"), Stage::OverTaxable, Mode::Percentual).is_none());
    assert!(taxes.add_tax(d("1"), Stage::OverTaxable, Mode::AmountUnit).is_none());
    let v = taxes.un_tax(&d("208.48"), &d("2")).unwrap();
    assert!(is(&v, "178"));
    assert!(matches!(taxes.un_tax(&d("1"), &d("2")), Err(TaxError::NegativeValue(_))));
    assert!(matches!(taxes.un_tax_from_str("1", "?"), Err(TaxError::InvalidDecimal(_))));
}

#[test]
fn line_tax_modes() {
    let taxes = TaxComputer::new();
    let p = taxes.line_tax(&d("10"), &d("3"), &d("20"), Mode::Percentual).unwrap();
    assert!(is(&p, "6"));
    let l = taxes.line_tax(&d("10"), &d("3"), &d("2"), Mode::AmountLine).unwrap();
    assert!(is(&l, "6"));
    let u = taxes.line_tax(&d("10"), &d("3"), &d("2"), Mode::AmountUnit).unwrap();
    assert!(is(&u, "2"));
    assert!(matches!(
        taxes.line_tax(&d("-10"), &d("3"), &d("2"), Mode::AmountUnit),
        Err(TaxError::NegativeValue(_))
    ));
    assert!(is(&taxes.line_tax_from_str("10", "3", "20", Mode::Percentual).unwrap(), "6"));
}

#[test]
fn add_tax_rejects_negative() {
    let mut taxes = TaxComputer::new();
    assert!(matches!(
        taxes.add_tax(d("-0.01"), Stage::OverTax, Mode::AmountLine),
        Some(TaxError::NegativeValue(_))
    ));
    assert!(matches!(
        taxes.add_tax_from_str("abc", Stage::OverTax, Mode::AmountLine),
        Some(TaxError::InvalidDecimal(_))
    ));
    assert!(taxes.add_tax_from_str("150", Stage::OverTax, Mode::Percentual).is_none());
    assert!(is(&taxes.over_taxes().percent(), "150"));
    assert!(is(&taxes.over_taxables().percent(), "0"));
}

#[test]
fn calculator_errors_and_text_input() {
    let mut c = DetailCalculator::new();
    assert!(c.add_discount_from_str("5", DiscountMode::AmountLine).is_none());
    assert!(matches!(
        c.compute(d("1"), d("1"), None),
        Err(BagginsError::Other(_))
    ));
    assert!(matches!(
        c.compute_from_str("x", "1", None),
        Err(BagginsError::InvalidDecimalValue(_))
    ));
    assert!(matches!(
        c.compute_from_brute(d("10"), d("0"), None),
        Err(BagginsError::Other(_))
    ));
    let calc = c.compute_from_str("10", "2", Some("50")).unwrap();
    assert!(is(&calc.with_discount_values.net, "15"));
    assert!(is(&calc.with_discount_values.unit_value, "7.5"));
    let again = c.compute_from_brute_str("15", "2", None).unwrap();
    assert!(is(&again.without_discount_values.unit_value, "10"));
}

#[test]
fn zero_quantity_line() {
    let c = DetailCalculator::new();
    let calc = c.compute(d("12.5"), d("0"), None).unwrap();
    assert!(is(&calc.with_discount_values.net, "0"));
    assert!(is(&calc.with_discount_values.unit_value, "12.5"));
    assert!(is(&calc.with_discount_values.total_discount_percent, "0"));
}

#[test]
fn decimal_arithmetic() {
    assert!(is(&d("1.25").plus(&d("2.5")).unwrap(), "3.75"));
    assert!(is(&d("1.25").minus(&d("2.5")).unwrap(), "-1.25"));
    assert!(is(&d("1.25").times(&d("-4")).unwrap(), "-5"));
    assert!(is(&d("1").over(&d("8")).unwrap(), "0.125"));
    assert_eq!(d("1.5").less_than(&d("1.50")), Some(false));
    assert_eq!(d("1.49").less_than(&d("1.5")), Some(true));
    assert!(Decimal::parse("1.2.3").is_none());
    assert!(is(&d("1e2"), "100"));
    assert!(d("-0.0").is_zero());
    assert!(d("-0.5").is_negative());
}

#[test]
fn selectors() {
    assert_eq!(DiscountMode::from_i8(0), Some(DiscountMode::Percentual));
    assert_eq!(DiscountMode::from_i8(2), Some(DiscountMode::AmountUnit));
    assert_eq!(DiscountMode::from_i8(3), None);
    assert_eq!(Mode::from_i8(1), Some(Mode::AmountLine));
    assert_eq!(Mode::from_i8(-1), None);
    assert_eq!(Stage::from_i8(2), Some(Stage::OverTaxIgnorable));
    assert_eq!(Stage::from_i8(7), None);
}

#[test]
fn rounding_figures() {
    assert!(is(&d("2.675").round(2).unwrap(), "2.68"));
    assert!(is(&d("2.665").round(2).unwrap(), "2.66"));
    assert!(is(&d("1.5").round(4).unwrap(), "1.5"));
    assert_eq!(d("1.5").round(4).unwrap().scale, 4);
    let mut c = DetailCalculator::new();
    assert!(c.add_discount(d("1"), DiscountMode::AmountLine).is_none());
    let calc = c.compute(d("10"), d("3"), None).unwrap();
    // 29 / 3 = 9.666...
    let rounded = calc.round(2).unwrap();
    assert!(is(&rounded.with_discount_values.unit_value, "9.67"));
    assert!(is(&rounded.with_discount_values.net, "29"));
    assert!(is(&calc.with_discount_values.net, "29"));
    assert!(!is(&calc.with_discount_values.unit_value, "9.67"));
}

#[test]
fn three_stage_untax_inverts_a_single_over_taxable_stage() {
    let mut taxes = TaxComputer::new();
    assert!(taxes.add_tax(d("10"), Stage::OverTaxable, Mode::Percentual).is_none());
    assert!(taxes.add_tax(d("0.5"), Stage::OverTaxable, Mode::AmountUnit).is_none());
    let t = taxes.tax(&d("100"), &d("1")).unwrap();
    let gross = d("100").plus(&t).unwrap();
    assert!(is(&taxes.un_tax(&gross, &d("1")).unwrap(), "100"));
}

#[test]
fn three_stage_untax_diverges_with_an_ignorable_stage() {
    // Removing the stages one after the other is not the inverse of the
    // three-stage tax once the over-tax-ignorable stage is charged.
    let mut taxes = TaxComputer::new();
    assert!(taxes.add_tax(d("10"), Stage::OverTaxable, Mode::Percentual).is_none());
    assert!(taxes.add_tax(d("5"), Stage::OverTaxIgnorable, Mode::Percentual).is_none());
    let t = taxes.tax(&d("100"), &d("1")).unwrap();
    assert!(is(&t, "15"));
    let back = taxes.un_tax(&d("115"), &d("1")).unwrap();
    assert!(!is(&back, "100"));
    assert_eq!(back.less_than(&d("100")), Some(true));
}

#[test]
fn un_discount_known_line() {
    let mut disc = DiscountComputer::new();
    assert!(disc.add_discount(d("10"), DiscountMode::Percentual).is_none());
    assert!(disc.add_discount(d("1"), DiscountMode::AmountUnit).is_none());
    let (value, removed, percent) = disc.un_discount(d("178"), d("2")).unwrap();
    assert!(is(&value, "200"));
    assert!(is(&removed, "22"));
    assert!(is(&percent, "11"));
}

#[test]
fn un_discount_without_percentual_does_not_divide() {
    let mut disc = DiscountComputer::new();
    assert!(disc.add_discount(d("1"), DiscountMode::AmountUnit).is_none());
    assert!(disc.add_discount(d("0.5"), DiscountMode::AmountLine).is_none());
    // a value with more than a hundred digits is kept exactly
    let long = format!("1.{}1", "0".repeat(150));
    let expected = format!("3.5{}1", "0".repeat(149));
    let (value, removed, _) = disc.un_discount(d(&long), d("2")).unwrap();
    assert!(is(&value, &expected));
    assert!(is(&removed, "2.5"));
}

#[test]
fn division_keeps_the_digits_of_the_numerator() {
    let short = d("1").over(&d("3")).unwrap();
    let written_long = format!("1.{}", "0".repeat(149));
    let long = d(&written_long).over(&d("3")).unwrap();
    assert_eq!(short.same_value(&long), Some(false));
    assert!(is(&short, &format!("0.{}", "3".repeat(100))));
}

#[test]
fn three_stage_untax_inverts_a_single_over_tax_stage() {
    let mut taxes = TaxComputer::new();
    assert!(taxes.add_tax(d("10"), Stage::OverTax, Mode::Percentual).is_none());
    assert!(taxes.add_tax(d("0.5"), Stage::OverTax, Mode::AmountUnit).is_none());
    let t = taxes.tax(&d("100"), &d("2")).unwrap();
    let gross = d("200").plus(&t).unwrap();
    assert!(is(&taxes.un_tax(&gross, &d("2")).unwrap(), "200"));
}

#[test]
fn three_stage_untax_inverts_a_single_ignorable_stage() {
    let mut taxes = TaxComputer::new();
    assert!(taxes.add_tax(d("5"), Stage::OverTaxIgnorable, Mode::Percentual).is_none());
    assert!(taxes.add_tax(d("3"), Stage::OverTaxIgnorable, Mode::AmountLine).is_none());
    let t = taxes.tax(&d("40"), &d("3")).unwrap();
    let gross = d("120").plus(&t).unwrap();
    assert!(is(&taxes.un_tax(&gross, &d("3")).unwrap(), "120"));
}

#[test]
fn ratio_stays_between_zero_and_one_hundred() {
    let r = TaxComputer::ratio(&d("1"), &d("2")).unwrap();
    assert!(is(&r, &format!("66.{}7", "6".repeat(97))));
    assert_eq!(d("100").less_than(&r), Some(false));
}

#[test]
fn brute_errors_name_the_step() {
    let c = DetailCalculator::new();
    match c.compute_from_brute(d("-1"), d("1"), None) {
        Err(BagginsError::Other(m)) => assert_eq!(m, "untaxing brute"),
        _ => panic!("a negative brute was accepted"),
    }
    let mut c2 = DetailCalculator::new();
    assert!(c2.add_discount(d("5"), DiscountMode::AmountLine).is_none());
    match c2.compute(d("1"), d("1"), None) {
        Err(BagginsError::Other(m)) => assert_eq!(m, "calculating discount"),
        _ => panic!("a discount over the line was accepted"),
    }
}
