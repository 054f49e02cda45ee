use libpenguin::amount::Amount;

fn amount(value: &str) -> Amount {
    Amount::parse(value).expect("valid decimal")
}

#[test]
fn parse_counts_ten_thousandths() {
    assert_eq!(amount("1").units(), 10_000);
    assert_eq!(amount("1.0").units(), 10_000);
    assert_eq!(amount("0.6").units(), 6_000);
    assert_eq!(amount("12.3456").units(), 123_456);
    assert_eq!(amount("-0.0001").units(), -1);
    assert_eq!(amount("0").units(), 0);
}

#[test]
fn parse_equates_texts_of_one_value() {
    assert_eq!(amount("2"), amount("2.0000"));
    assert_eq!(amount("1.5"), amount("1.50"));
    assert_ne!(amount("1.5"), amount("1.51"));
}

#[test]
fn parse_rounds_half_to_even_at_the_fourth_digit() {
    assert_eq!(amount("1.00005").units(), 10_000);
    assert_eq!(amount("1.00015").units(), 10_002);
    assert_eq!(amount("1.00025").units(), 10_002);
    assert_eq!(amount("1.000251").units(), 10_003);
    assert_eq!(amount("1.23456").units(), 12_346);
    assert_eq!(amount("1.23454").units(), 12_345);
    assert_eq!(amount("-1.00015").units(), -10_002);
    assert_eq!(amount("0.00004").units(), 0);
}

#[test]
fn parse_refuses_what_is_no_decimal() {
    assert_eq!(Amount::parse("abc"), None);
    assert_eq!(Amount::parse(""), None);
    assert_eq!(Amount::parse("1.2.3"), None);
}

#[test]
fn parse_refuses_what_is_out_of_range() {
    assert_eq!(
        amount("7922816251426433759354395.0335").units(),
        79_228_162_514_264_337_593_543_950_335
    );
    assert_eq!(Amount::parse("7922816251426433759354395.0336"), None);
    assert_eq!(Amount::parse("79228162514264337593543950335"), None);
}

#[test]
fn from_parts_rescales_to_four_digits() {
    assert_eq!(Amount::from_parts(15, 1).map(|a| a.units()), Some(15_000));
    assert_eq!(Amount::from_parts(7, 0).map(|a| a.units()), Some(70_000));
    assert_eq!(Amount::from_parts(12345, 4).map(|a| a.units()), Some(12_345));
    assert_eq!(Amount::from_parts(-5, 3).map(|a| a.units()), Some(-50));
}

#[test]
fn from_parts_rounds_longer_fractions() {
    assert_eq!(Amount::from_parts(123_455, 5).map(|a| a.units()), Some(12_346));
    assert_eq!(Amount::from_parts(123_445, 5).map(|a| a.units()), Some(12_344));
    assert_eq!(Amount::from_parts(123_456_789, 8).map(|a| a.units()), Some(12_346));
    assert_eq!(Amount::from_parts(1, 28).map(|a| a.units()), Some(0));
}

#[test]
fn from_parts_refuses_parts_of_no_decimal() {
    assert_eq!(Amount::from_parts(1, 29), None);
    assert_eq!(
        Amount::from_parts(79_228_162_514_264_337_593_543_950_336, 4),
        None
    );
    assert_eq!(
        Amount::from_parts(-79_228_162_514_264_337_593_543_950_336, 4),
        None
    );
    assert_eq!(
        Amount::from_parts(79_228_162_514_264_337_593_543_950_335, 3),
        None
    );
}

#[test]
fn from_units_checks_the_range() {
    let most = 79_228_162_514_264_337_593_543_950_335i128;
    assert_eq!(Amount::from_units(most).map(|a| a.units()), Some(most));
    assert_eq!(Amount::from_units(-most).map(|a| a.units()), Some(-most));
    assert_eq!(Amount::from_units(most + 1), None);
    assert_eq!(Amount::from_units(-most - 1), None);
    assert_eq!(Amount::zero().units(), 0);
}

#[test]
fn checked_add_is_exact() {
    assert_eq!(amount("0.1").checked_add(amount("0.2")), Some(amount("0.3")));
    assert_eq!(amount("1.5").checked_add(amount("-2.25")), Some(amount("-0.75")));
    assert_eq!(amount("0").checked_add(amount("7")), Some(amount("7")));
    assert_eq!(
        amount("4294967295.9999").checked_add(amount("0.0001")).map(|a| a.units()),
        Some(42_949_672_960_000)
    );
    assert_eq!(
        amount("1844674407370955.1615")
            .checked_add(amount("1844674407370955.1615"))
            .map(|a| a.units()),
        Some(36_893_488_147_419_103_230)
    );
}

#[test]
fn checked_add_reports_overflow() {
    let most = Amount::from_units(79_228_162_514_264_337_593_543_950_335).expect("in range");
    assert_eq!(most.checked_add(amount("0.0001")), None);
    assert_eq!(most.checked_add(most), None);
    assert_eq!(
        most.checked_add(amount("-0.0001")).map(|a| a.units()),
        Some(79_228_162_514_264_337_593_543_950_334)
    );
    let half = Amount::from_units(39_614_081_257_132_168_796_771_975_168).expect("in range");
    assert_eq!(half.checked_add(half), None);
    let least = Amount::from_units(-79_228_162_514_264_337_593_543_950_335).expect("in range");
    assert_eq!(least.checked_add(amount("-0.0001")), None);
}

#[test]
fn checked_sub_is_exact() {
    assert_eq!(amount("1.0").checked_sub(amount("0.4")), Some(amount("0.6")));
    assert_eq!(amount("0.4").checked_sub(amount("1.0")), Some(amount("-0.6")));
    assert_eq!(amount("3").checked_sub(amount("3")), Some(amount("0")));
    assert_eq!(amount("0").checked_sub(amount("2.5")), Some(amount("-2.5")));
}

#[test]
fn checked_sub_reports_overflow() {
    let most = Amount::from_units(79_228_162_514_264_337_593_543_950_335).expect("in range");
    let least = Amount::from_units(-79_228_162_514_264_337_593_543_950_335).expect("in range");
    assert_eq!(least.checked_sub(amount("0.0001")), None);
    assert_eq!(most.checked_sub(least), None);
    assert_eq!(most.checked_sub(most), Some(Amount::zero()));
}

#[test]
fn less_than_orders_by_value() {
    assert!(amount("1").less_than(&amount("2")));
    assert!(!amount("2").less_than(&amount("1")));
    assert!(!amount("2").less_than(&amount("2.0")));
    assert!(amount("-3").less_than(&amount("-2.9999")));
    assert!(amount("-0.0001").less_than(&amount("0")));
    assert!(!amount("0").less_than(&amount("-0.0001")));
}

#[test]
fn to_string_strips_trailing_zeros() {
    assert_eq!(amount("1.5000").to_string(), "1.5");
    assert_eq!(amount("2.0").to_string(), "2");
    assert_eq!(amount("0").to_string(), "0");
    assert_eq!(amount("0.0100").to_string(), "0.01");
    assert_eq!(amount("-2.30").to_string(), "-2.3");
    assert_eq!(amount("12.3456").to_string(), "12.3456");
    assert_eq!(amount("100").to_string(), "100");
    assert_eq!(amount("1.23456").to_string(), "1.2346");
}
