use aurora_forwarder::error::ContractError;
use aurora_forwarder::params::{
    amount_to_str, ft_balance_args, ft_transfer_args, ft_transfer_call_args, parse_account_id,
    parse_state, push_account_id, vec_to_number, State,
};
use aurora_forwarder::types::account_id::AccountId;
use aurora_forwarder::types::address::Address;

#[test]
fn test_deserialize_state() {
    let original = State {
        target_address: Address([1; 20]),
        target_network: AccountId::new("target.near").unwrap(),
        wnear_contract_id: AccountId::new("wnear.near").unwrap(),
        fees_contract_id: AccountId::new("fees.near").unwrap(),
    };

    let bytes = original.to_borsh();
    let expected = parse_state(&bytes).unwrap();

    assert_eq!(original, expected);
}

#[test]
fn test_ft_balance_args() {
    let json = ft_balance_args(&AccountId::new("test.near").unwrap());
    assert_eq!(&json[..], br#"{"account_id":"test.near"}"#);
}

#[test]
fn test_ft_transfer_args() {
    let json = ft_transfer_args(&AccountId::new("test.near").unwrap(), 12_345_670);
    assert_eq!(
        &json[..],
        br#"{"receiver_id":"test.near","amount":"12345670"}"#
    );

    let json = ft_transfer_args(&AccountId::new("test.near").unwrap(), 0);
    assert_eq!(&json[..], br#"{"receiver_id":"test.near","amount":"0"}"#);
}

#[test]
fn test_ft_transfer_call_args() {
    let mut address = [0; 20];
    hex::decode_to_slice("7e5f4552091a69125d5dfcb7b8c2659029395bdf", &mut address).unwrap();
    let json = ft_transfer_call_args(
        &AccountId::new("test.near").unwrap(),
        12_345_670,
        Address(address),
    );
    assert_eq!(&json[..], br#"{"receiver_id":"test.near","amount":"12345670","msg":"7e5f4552091a69125d5dfcb7b8c2659029395bdf"}"#);
}

#[test]
fn test_amount_to_str() {
    assert_eq!(amount_to_str(0).as_str(), "0");
    assert_eq!(amount_to_str(3_498_832).as_str(), "3498832");
    assert_eq!(
        amount_to_str(u128::MAX).as_str(),
        "340282366920938463463374607431768211455"
    );
}

#[test]
fn test_vec_to_number() {
    assert_eq!(vec_to_number(b"42"), Ok(42));
    assert_eq!(
        vec_to_number(b"4\xc3\x28"),
        Err(ContractError::BadUtf8String)
    );
    assert_eq!(vec_to_number(b"4x"), Err(ContractError::BadNumber));
}

#[test]
fn test_account_id() {
    let account_id = AccountId::new("test.near").unwrap();
    assert_eq!(account_id.as_str(), "test.near");

    let mut ser = Vec::new();
    push_account_id(&mut ser, &account_id);
    let (expected, end) = parse_account_id(&ser, 0).unwrap();

    assert_eq!(end, ser.len());
    assert_eq!(account_id, expected);
}

#[test]
fn test_numeric_string_round_trip() {
    for v in [0u128, 1, u128::MAX] {
        let rendered = amount_to_str(v);
        assert_eq!(vec_to_number(rendered.as_bytes()), Ok(v));
    }
}

#[test]
fn test_quoted_numbers() {
    assert_eq!(vec_to_number(b"\"1000000\""), Ok(1_000_000));
    assert_eq!(vec_to_number(b"\"\""), Err(ContractError::BadNumber));
    assert_eq!(vec_to_number(b""), Err(ContractError::BadNumber));
    assert_eq!(
        vec_to_number(b"340282366920938463463374607431768211456"),
        Err(ContractError::BadNumber)
    );
}

#[test]
fn test_wire_layout_matches_borsh() {
    let bytes = aurora_forwarder::params::borsh_u128_bytes(12_345_678_901_234_567_890);
    assert_eq!(bytes, borsh::to_vec(&12_345_678_901_234_567_890u128).unwrap());

    let mut ser = Vec::new();
    push_account_id(&mut ser, &AccountId::new("test.near").unwrap());
    assert_eq!(ser, borsh::to_vec(&"test.near".to_string()).unwrap());
}

#[test]
fn test_invalid_account_ids() {
    assert!(AccountId::new("a").is_err());
    assert!(AccountId::new("-leading.near").is_err());
    assert!(AccountId::new("trailing.near-").is_err());
    assert!(AccountId::new("double..dot").is_err());
    assert!(AccountId::new("Upper.near").is_err());
    assert!(AccountId::new(&"a".repeat(65)).is_err());
    assert!(AccountId::new(&"a".repeat(64)).is_ok());
    assert_eq!(
        AccountId::validate("ok-id_0.near"),
        Ok(()),
    );
    assert_eq!(
        AccountId::validate(""),
        Err(ContractError::ParseAccountError),
    );
}
