use baggins::{discount, tax, Decimal, DetailCalculator};

fn dec(s: &str) -> Decimal {
    Decimal::parse(s).unwrap()
}

fn same(a: &Decimal, b: &str) -> bool {
    a.same_value(&dec(b)).unwrap()
}

fn configured(line_discount: bool) -> DetailCalculator {
    let mut c = DetailCalculator::new();

    let err = c.add_discount_from_str("10.0", discount::Mode::Percentual);
    assert!(err.is_none(), "error adding percentual discount");

    let err = c.add_discount_from_str("1.0", discount::Mode::AmountUnit);
    assert!(err.is_none(), "error adding amount unit discount");

    if line_discount {
        let err = c.add_discount_from_str("2.0", discount::Mode::AmountLine);
        assert!(err.is_none(), "error adding amount line discount");
    }

    let err = c.add_tax_from_str("16.0", tax::Stage::OverTaxable, tax::Mode::Percentual);
    assert!(err.is_none(), "error adding percentual 16% tax");

    let err = c.add_tax_from_str("1.0", tax::Stage::OverTaxable, tax::Mode::AmountUnit);
    assert!(err.is_none(), "error adding percentual 1 amount unit tax");
    c
}

#[test]
fn test_calculus_compute() {
    let c = configured(false);
    let r = c.compute(dec("100.0"), dec("2.0"), Some(dec("16")));
    match r {
        Ok(calc) => {
            println!("calc: {:?}", calc);
            assert!(same(&calc.with_discount_values.discount_value, "22"));
            assert!(same(&calc.with_discount_values.net, "178"));
            assert!(same(&calc.with_discount_values.tax, "30.48"));
            assert!(same(&calc.with_discount_values.brute, "208.48"));
        }
        Err(e) => panic!("{:?}", e),
    }
}

#[test]
fn test_calculus_compute_from_brute() {
    let c = configured(false);
    let r = c.compute_from_brute(dec("208.4800"), dec("2.0"), Some(dec("16")));
    match r {
        Ok(calc) => {
            println!("calc: {:?}", calc);
            assert!(same(&calc.without_discount_values.unit_value, "100"));
            assert!(same(&calc.with_discount_values.brute, "208.48"));
        }
        Err(e) => panic!("{:?}", e),
    }
}

#[test]
fn test_calculus_compute_with_line_discount() {
    let c = configured(true);
    let r = c.compute(dec("100.0"), dec("2.0"), Some(dec("16")));
    match r {
        Ok(calc) => {
            println!("calc: {:?}", calc);
            assert!(same(&calc.with_discount_values.discount_value, "24"));
            assert!(same(&calc.with_discount_values.net, "176"));
            assert!(same(&calc.with_discount_values.tax, "30.16"));
            assert!(same(&calc.with_discount_values.brute, "206.16"));
        }
        Err(e) => panic!("{:?}", e),
    }
}

#[test]
fn test_calculus_compute_with_line_discount_from_brute() {
    let c = configured(true);
    let r = c.compute_from_brute(dec("206.1600"), dec("2.0"), Some(dec("16")));
    match r {
        Ok(calc) => {
            println!("calc: {:?}", calc);
            assert!(same(&calc.without_discount_values.unit_value, "100"));
            assert!(same(&calc.with_discount_values.brute, "206.16"));
        }
        Err(e) => panic!("{:?}", e),
    }
}
