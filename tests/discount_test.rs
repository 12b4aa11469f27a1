use baggins::discount::{DiscountComputer, Mode};
use baggins::Decimal;

#[test]
fn test_discount_computer() {
    let mut d = DiscountComputer::new();

    let err = d.add_discount(Decimal::parse("10.2").unwrap(), Mode::Percentual);
    if let Some(e) = err {
        panic!("{:?}", e)
    }

    let err = d.add_discount_from_str("10.56", Mode::AmountUnit);
    if let Some(e) = err {
        panic!("{:?}", e)
    }

    let err = d.add_discount(Decimal::parse("1.5").unwrap(), Mode::AmountLine);
    if let Some(e) = err {
        panic!("{:?}", e)
    }

    let res = d.compute(
        Decimal::parse("100.0").unwrap(),
        Decimal::parse("1.0").unwrap(),
        Some(Decimal::parse("100.0").unwrap()),
    );
    match res {
        Ok(disc) => {
            let expected = Decimal::parse("22.26").unwrap();
            if disc.0.same_value(&expected) != Some(true) {
                panic!("expected {:?}. Got {:?}", expected, disc);
            }
        }
        Err(e) => panic!("{:?}", e),
    }
}
