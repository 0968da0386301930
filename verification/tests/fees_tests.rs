use aurora_forwarder::fees::{parse_percent, FeesCalculator, ParseError};
use aurora_forwarder::types::account_id::AccountId;

fn owner() -> AccountId {
    AccountId::new("owner.near").unwrap()
}

#[test]
fn test_parse_percent() {
    assert_eq!(parse_percent(None).unwrap(), None);
    assert_eq!(parse_percent(Some("0")).unwrap(), None);
    assert_eq!(parse_percent(Some("10")).unwrap(), Some(1000));
    assert_eq!(parse_percent(Some("2")).unwrap(), Some(200));
    assert_eq!(parse_percent(Some("0.25")).unwrap(), Some(25));
    assert_eq!(parse_percent(Some("0.01")).unwrap(), Some(1));
    assert!(matches!(
        parse_percent(Some("0.015")).err(),
        Some(ParseError::TooManyDecimals)
    ));
    assert!(matches!(
        parse_percent(Some("0.009")).err(),
        Some(ParseError::TooManyDecimals)
    ));
    assert!(matches!(
        parse_percent(Some("10.1")).err(),
        Some(ParseError::TooHighPercent)
    ));
    assert!(matches!(
        parse_percent(Some("hello")).err(),
        Some(ParseError::ParseFloat)
    ));
}

#[test]
fn test_parse_percent_oddities() {
    assert!(matches!(
        parse_percent(Some("")).err(),
        Some(ParseError::ParseFloat)
    ));
    assert!(matches!(
        parse_percent(Some("-1")).err(),
        Some(ParseError::ParseFloat)
    ));
    assert_eq!(parse_percent(Some(".5")).unwrap(), Some(50));
    assert_eq!(parse_percent(Some("5.")).unwrap(), Some(500));
    assert_eq!(parse_percent(Some("0.00")).unwrap(), None);
    assert!(matches!(
        parse_percent(Some("99999999999999999999999999999999999999999")).err(),
        Some(ParseError::TooHighPercent)
    ));
}

#[test]
fn test_check_supported_tokens() {
    let aurora = AccountId::new("aurora").unwrap();
    let target_address = "0xea2342".to_string();
    let usdt = AccountId::new("usdt.near").unwrap();
    let mut contract = FeesCalculator::new(vec![], owner());

    assert_eq!(
        contract.calculate_fees(1000, &usdt, &aurora, target_address.clone()),
        0 // the token is not supported yet, so the quote is zero
    );

    contract.add_supported_token(usdt.clone());

    assert_eq!(
        contract.calculate_fees(1000, &usdt, &aurora, target_address.clone()),
        50
    );

    contract.remove_supported_token(&usdt);

    assert_eq!(
        contract.calculate_fees(1000, &usdt, &aurora, target_address),
        0
    );
}

#[test]
fn test_check_set_fee() {
    let aurora = AccountId::new("aurora").unwrap();
    let target_address = "0xea2342".to_string();
    let usdt = AccountId::new("usdt.near").unwrap();
    let mut contract = FeesCalculator::new(vec![usdt.clone()], owner());

    assert_eq!(
        contract.calculate_fees(1000, &usdt, &aurora, target_address.clone()),
        50
    );

    contract.set_fee_percent(Some("0".to_string())).unwrap();

    assert_eq!(
        contract.calculate_fees(1000, &usdt, &aurora, target_address.clone()),
        0
    );

    contract.set_fee_percent(Some("2.5".to_string())).unwrap();

    assert_eq!(
        contract.calculate_fees(1000, &usdt, &aurora, target_address),
        25
    );
}

#[test]
fn test_set_percent() {
    let mut contract = FeesCalculator::new(vec![], owner());

    assert_eq!(contract.get_fee_percent(), Some("5.00".to_string()));
    contract.set_fee_percent(Some("6".to_string())).unwrap();
    assert_eq!(contract.get_fee_percent(), Some("6.00".to_string()));
    contract.set_fee_percent(Some("7.5".to_string())).unwrap();
    assert_eq!(contract.get_fee_percent(), Some("7.50".to_string()));
    contract.set_fee_percent(Some("0".to_string())).unwrap();
    assert_eq!(contract.get_fee_percent(), None);
}

#[test]
fn test_set_percent_with_many_decimals() {
    let mut contract = FeesCalculator::new(vec![], owner());
    assert!(matches!(
        contract.set_fee_percent(Some("6.123".to_string())),
        Err(ParseError::TooManyDecimals)
    ));
    assert_eq!(contract.get_fee_percent(), Some("5.00".to_string()));
}

#[test]
fn test_set_too_high_percents() {
    let mut contract = FeesCalculator::new(vec![], owner());
    assert!(matches!(
        contract.set_fee_percent(Some("12.12".to_string())),
        Err(ParseError::TooHighPercent)
    ));
    assert_eq!(contract.get_fee_percent(), Some("5.00".to_string()));
}

#[test]
fn test_fee_monotone_and_bounded() {
    let aurora = AccountId::new("aurora").unwrap();
    let usdt = AccountId::new("usdt.near").unwrap();
    let contract = FeesCalculator::new(vec![usdt.clone()], owner());

    let mut last = 0;
    for amount in [0u128, 1, 19, 20, 1000, 1_000_000, 1_000_000_000_000] {
        let fee = contract.calculate_fees(amount, &usdt, &aurora, String::new());
        assert!(fee <= amount);
        assert!(fee >= last);
        last = fee;
    }
}

#[test]
fn test_duplicate_tokens_kept_once() {
    let usdt = AccountId::new("usdt.near").unwrap();
    let contract = FeesCalculator::new(vec![usdt.clone(), usdt.clone()], owner());
    assert_eq!(contract.supported_tokens().len(), 1);
}
