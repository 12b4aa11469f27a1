use baggins::{discount, tax, Decimal, DetailCalculator};

#[test]
fn test_baggins_compute() {
    let mut c = DetailCalculator::new();

    let err = c.add_discount_from_str("10.0", discount::Mode::Percentual);
    assert!(err.is_none(), "error adding percentual discount {:?}", err);

    let err = c.add_discount_from_str("1.0", discount::Mode::AmountUnit);
    assert!(err.is_none(), "error adding amount unit discount {:?}", err);

    let err = c.add_tax_from_str("16.0", tax::Stage::OverTaxable, tax::Mode::Percentual);
    assert!(err.is_none(), "error adding percentual 16% tax {:?}", err);

    let err = c.add_tax_from_str("1.0", tax::Stage::OverTaxable, tax::Mode::AmountUnit);
    assert!(err.is_none(), "error adding percentual 1 amount unit tax {:?}", err);

    let r = c.compute(
        Decimal::parse("100.0").unwrap(),
        Decimal::parse("2.0").unwrap(),
        None,
    );
    match r {
        Ok(calc) => {
            println!("calc: {:?}", calc);
            let check = |d: &Decimal, v: &str| d.same_value(&Decimal::parse(v).unwrap()) == Some(true);
            let w = &calc.with_discount_values;
            let o = &calc.without_discount_values;
            assert!(check(&w.discount_value, "22"));
            assert!(check(&w.total_discount_percent, "11"));
            assert!(check(&w.net, "178"));
            assert!(check(&w.unit_value, "89"));
            assert!(check(&w.tax, "30.48"));
            assert!(check(&w.brute, "208.48"));
            assert!(check(&w.discount_brute_value, "-25.52"));
            assert!(check(&o.net, "200"));
            assert!(check(&o.tax, "34"));
            assert!(check(&o.brute, "234"));
            assert!(check(&o.unit_value, "100"));
        }
        Err(e) => panic!("{:?}", e),
    }
}
