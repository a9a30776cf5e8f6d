use dataset_ops::percentage::{FailureKind, InvalidPercentage, Percentage};

fn kind_of(s: &str) -> FailureKind {
    Percentage::parse(s).unwrap_err().kind()
}

#[test]
fn every_value_up_to_one_hundred_parses() {
    for n in 0u32..=100 {
        let p = Percentage::parse(&format!("{}%", n)).unwrap();
        assert_eq!(p.value() as u32, n);
    }
}

#[test]
fn values_above_one_hundred_are_out_of_bound() {
    for text in ["101%", "200%", "255%", "256%", "1000%", "99999999999999999999999%"] {
        assert_eq!(kind_of(text), FailureKind::OutOfBound);
    }
    assert_eq!(Percentage::parse("101%"), Err(InvalidPercentage::OutOfBound));
}

#[test]
fn default_flag_values() {
    assert_eq!(Percentage::parse("10%"), Ok(Percentage(10)));
    assert_eq!(Percentage::parse("20%"), Ok(Percentage(20)));
    assert_eq!("10%".parse::<Percentage>(), Ok(Percentage(10)));
}

#[test]
fn leading_zeros_and_plus_are_accepted() {
    assert_eq!(Percentage::parse("07%"), Ok(Percentage(7)));
    assert_eq!(Percentage::parse("+50%"), Ok(Percentage(50)));
    assert_eq!(Percentage::parse("0100%"), Ok(Percentage(100)));
}

#[test]
fn missing_symbol() {
    for text in ["", "10", "abc", "10%x", "%5", "10% "] {
        assert_eq!(kind_of(text), FailureKind::MissingModuleSymbol);
    }
}

#[test]
fn invalid_number() {
    for text in ["abc%", "-1%", "%", "+%", " 5%", "5 %", "1_0%", "10%%", "1.5%"] {
        assert_eq!(kind_of(text), FailureKind::InvalidNumber);
    }
    assert!(matches!(Percentage::parse("-1%"), Err(InvalidPercentage::InvalidNumber(_))));
}

#[test]
fn messages_differ_per_kind() {
    let bound = Percentage::parse("150%").unwrap_err().message();
    let symbol = Percentage::parse("15").unwrap_err().message();
    let number = Percentage::parse("x%").unwrap_err().message();
    assert_eq!(bound, "The percentage is out of the [0:100] bounds");
    assert_eq!(symbol, "The percentage must be followed by the `%` symbol");
    assert_eq!(number, "invalid digit found in string");
    assert_eq!(Percentage::parse("%").unwrap_err().message(), "cannot parse integer from empty string");
}

#[test]
fn validated_constructor() {
    assert_eq!(Percentage::new(100), Some(Percentage(100)));
    assert_eq!(Percentage::new(0), Some(Percentage(0)));
    assert_eq!(Percentage::new(101), None);
}
