use baggins::tax::{Mode, Stage, TaxComputer};
use baggins::Decimal;
use bigdecimal::{BigDecimal, FromPrimitive};

fn from_f64(x: f64) -> Decimal {
    Decimal::parse(&BigDecimal::from_f64(x).unwrap().to_string()).unwrap()
}

#[test]
fn test_taxes_test_tax_computer_errors() {
    let mut tax_calculator = TaxComputer::new();
    let err = tax_calculator.add_tax(from_f64(-18.0), Stage::OverTaxable, Mode::Percentual);
    match err {
        Some(_) => {}
        None => panic!("a negative tax was accepted"),
    }
}

#[test]
fn test_taxes_test_tax_computer_adding_tax_f64() {
    let mut tax_calculator = TaxComputer::new();

    let err = tax_calculator.add_tax(from_f64(18.0), Stage::OverTaxable, Mode::Percentual);
    assert!(err.is_none(), "error triggered adding first f64 tax");

    let err = tax_calculator.add_tax(from_f64(10.0), Stage::OverTaxable, Mode::Percentual);
    assert!(err.is_none(), "error triggered adding second f64 tax");

    let err = tax_calculator.add_tax(from_f64(0.5), Stage::OverTaxable, Mode::AmountUnit);
    assert!(err.is_none(), "error triggered adding third f64 tax");
}

#[test]
fn test_taxes_test_tax_computer_calculate_over_taxable_f64() {
    let mut tax_calculator = TaxComputer::new();

    let err = tax_calculator.add_tax(from_f64(18.0), Stage::OverTaxable, Mode::Percentual);
    assert!(err.is_none(), "error triggered adding first f64 tax");

    let err = tax_calculator.add_tax(from_f64(10.0), Stage::OverTaxable, Mode::Percentual);
    assert!(err.is_none(), "error triggered adding second f64 tax");

    let err = tax_calculator.add_tax(from_f64(0.5), Stage::OverTaxable, Mode::AmountUnit);
    assert!(err.is_none(), "error triggered adding third f64 tax");

    let r = tax_calculator.tax(&from_f64(24.576855), &from_f64(4.0));
    match r {
        Ok(tax) => {
            let expected =
                Decimal::parse("29.52607759999999814226612215861678123474121093750000").unwrap();
            assert_eq!(tax.same_value(&expected), Some(true));
            println!("calculated_tax: {:?}", tax);
        }
        Err(e) => panic!("{:?}", e),
    }
}
