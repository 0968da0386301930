use aurora_forwarder::error::ContractError;
use aurora_forwarder::fees::FeesCalculator;
use aurora_forwarder::params::{
    borsh_u128_bytes, fees_params_to_borsh, push_account_id, FinishForwardParams, State,
};
use aurora_forwarder::runtime::{PromiseNode, Runtime};
use aurora_forwarder::types::account_id::AccountId;
use aurora_forwarder::types::address::Address;
use aurora_forwarder::types::promise::PromiseResult;
use aurora_forwarder::utils::forwarder_prefix;
use aurora_forwarder::{
    calculate_fees_callback, fee_bound_ok, finish_forward_callback, forward, new, MINIMUM_BALANCE,
};

fn id(s: &str) -> AccountId {
    AccountId::new(s).unwrap()
}

fn borsh_id(s: &str) -> Vec<u8> {
    let mut out = Vec::new();
    push_account_id(&mut out, &id(s));
    out
}

fn relay_runtime(input: Vec<u8>, predecessor: &str, deposit: u128, balance: u128, results: Vec<PromiseResult>) -> Runtime {
    Runtime::new(
        input,
        id("signer.near"),
        id("relay.test.near"),
        id(predecessor),
        100,
        deposit,
        balance,
        results,
    )
}

fn test_state() -> State {
    let mut address = [0; 20];
    hex::decode_to_slice("17ffdf6becbbc34d5c7d3bf4a0ed4a680395d057", &mut address).unwrap();
    State {
        target_address: Address(address),
        target_network: id("aurora"),
        wnear_contract_id: id("wrap.test.near"),
        fees_contract_id: id("fees.near"),
    }
}

#[test]
fn test_fee_bound_check() {
    assert!(fee_bound_ok(4000, 400));
    assert!(!fee_bound_ok(4000, 401));
    assert!(!fee_bound_ok(4000, 420));
    assert!(fee_bound_ok(4000, 0));
    assert!(fee_bound_ok(0, 0));
    assert!(!fee_bound_ok(0, 1));
}

#[test]
fn test_forward_requires_one_yocto() {
    let mut rt = relay_runtime(borsh_id("usdt.near"), "user.near", 0, 0, vec![]);
    assert_eq!(forward(&mut rt), Err(ContractError::OneYoctoAttachError));
    assert!(rt.promises.is_empty());
}

#[test]
fn test_forward_rejects_bad_input() {
    let mut rt = relay_runtime(b"garbage".to_vec(), "user.near", 1, 0, vec![]);
    assert_eq!(forward(&mut rt), Err(ContractError::BorshDeserializeError));
}

#[test]
fn test_forward_token_schedules_balance_query() {
    let mut rt = relay_runtime(borsh_id("usdt.near"), "user.near", 1, 0, vec![]);
    let result = forward(&mut rt).unwrap();

    assert_eq!(rt.promises.len(), 2);
    match &rt.promises[0] {
        PromiseNode::Create(call) => {
            assert_eq!(call.target_account_id, id("usdt.near"));
            assert_eq!(call.method, "ft_balance_of");
            assert_eq!(&call.args[..], br#"{"account_id":"relay.test.near"}"#);
        }
        _ => panic!("expected a plain call first"),
    }
    match &rt.promises[1] {
        PromiseNode::Callback(base, call) => {
            assert_eq!(*base, 0);
            assert_eq!(call.target_account_id, id("relay.test.near"));
            assert_eq!(call.method, "calculate_fees_callback");
            assert_eq!(call.args, borsh_id("usdt.near"));
        }
        _ => panic!("expected the pricing callback second"),
    }
    assert_eq!(rt.returned, Some(result.raw()));
}

#[test]
fn test_forward_native_needs_reserved_minimum() {
    let mut rt = relay_runtime(borsh_id("near"), "user.near", 1, MINIMUM_BALANCE, vec![]);
    assert_eq!(forward(&mut rt), Err(ContractError::InsufficientBalance));

    let mut rt = relay_runtime(borsh_id("near"), "user.near", 1, MINIMUM_BALANCE + 5, vec![]);
    assert_eq!(forward(&mut rt), Err(ContractError::StateNotFound));
}

#[test]
fn test_forward_native_wraps_and_prices() {
    let mut rt = relay_runtime(borsh_id("near"), "user.near", 1, MINIMUM_BALANCE + 1_000_000, vec![]);
    test_state().save(&mut rt);
    let result = forward(&mut rt).unwrap();

    assert_eq!(rt.promises.len(), 4);
    match &rt.promises[0] {
        PromiseNode::Create(call) => {
            assert_eq!(call.target_account_id, id("wrap.test.near"));
            assert_eq!(call.method, "near_deposit");
            assert!(call.args.is_empty());
            assert_eq!(call.attached_balance, 1_000_000);
        }
        _ => panic!("expected the wrap call first"),
    }
    match &rt.promises[1] {
        PromiseNode::Create(call) => {
            assert_eq!(call.target_account_id, id("fees.near"));
            assert_eq!(call.method, "calculate_fees");
            let state = test_state();
            assert_eq!(
                call.args,
                fees_params_to_borsh(
                    1_000_000,
                    &state.wnear_contract_id,
                    &state.target_network,
                    state.target_address,
                )
            );
        }
        _ => panic!("expected the pricing call second"),
    }
    match &rt.promises[2] {
        PromiseNode::Combine(ids) => assert_eq!(&ids[..], &[0, 1]),
        _ => panic!("expected the join third"),
    }
    match &rt.promises[3] {
        PromiseNode::Callback(base, call) => {
            assert_eq!(*base, 2);
            assert_eq!(call.method, "finish_forward_callback");
            let continuation = FinishForwardParams {
                amount: 1_000_000,
                token_id: id("wrap.test.near"),
                promise_idx: 1,
            };
            assert_eq!(call.args, continuation.to_borsh());
        }
        _ => panic!("expected the settlement callback last"),
    }
    assert_eq!(rt.returned, Some(result.raw()));
}

#[test]
fn test_callbacks_are_private() {
    let mut rt = relay_runtime(borsh_id("usdt.near"), "user.near", 0, 0, vec![]);
    assert_eq!(
        calculate_fees_callback(&mut rt),
        Err(ContractError::PrivateCallError)
    );
    assert_eq!(
        finish_forward_callback(&mut rt),
        Err(ContractError::PrivateCallError)
    );
}

#[test]
fn test_fees_callback_demands_result() {
    let mut rt = relay_runtime(borsh_id("usdt.near"), "relay.test.near", 0, 0, vec![]);
    test_state().save(&mut rt);
    assert_eq!(
        calculate_fees_callback(&mut rt),
        Err(ContractError::PromiseResultMissing)
    );

    let mut rt = relay_runtime(
        borsh_id("usdt.near"),
        "relay.test.near",
        0,
        0,
        vec![PromiseResult::Failed],
    );
    test_state().save(&mut rt);
    assert_eq!(
        calculate_fees_callback(&mut rt),
        Err(ContractError::PromiseFailed)
    );

    let mut rt = relay_runtime(
        borsh_id("usdt.near"),
        "relay.test.near",
        0,
        0,
        vec![PromiseResult::NotReady],
    );
    test_state().save(&mut rt);
    assert_eq!(
        calculate_fees_callback(&mut rt),
        Err(ContractError::PromiseNotReady)
    );
}

#[test]
fn test_fees_callback_rejects_bad_balance() {
    let mut rt = relay_runtime(
        borsh_id("usdt.near"),
        "relay.test.near",
        0,
        0,
        vec![PromiseResult::Successful(b"4\xc3\x28".to_vec())],
    );
    test_state().save(&mut rt);
    assert_eq!(
        calculate_fees_callback(&mut rt),
        Err(ContractError::BadUtf8String)
    );

    let mut rt = relay_runtime(
        borsh_id("usdt.near"),
        "relay.test.near",
        0,
        0,
        vec![PromiseResult::Successful(b"12x4".to_vec())],
    );
    test_state().save(&mut rt);
    assert_eq!(
        calculate_fees_callback(&mut rt),
        Err(ContractError::BadNumber)
    );
}

#[test]
fn test_end_to_end_five_percent() {
    // the pricing actor quotes five percent on a supported token
    let usdt = id("usdt.near");
    let calculator = FeesCalculator::new(vec![usdt.clone()], id("owner.near"));
    let fee = calculator.calculate_fees(1_000_000, &usdt, &id("aurora"), String::new());
    assert_eq!(fee, 50_000);

    // the relay sees the custody balance and asks for the quote
    let mut rt = relay_runtime(
        borsh_id("usdt.near"),
        "relay.test.near",
        0,
        0,
        vec![PromiseResult::Successful(b"\"1000000\"".to_vec())],
    );
    test_state().save(&mut rt);
    let returned = calculate_fees_callback(&mut rt).unwrap();
    assert_eq!(rt.promises.len(), 3);
    match &rt.promises[0] {
        PromiseNode::Create(call) => {
            assert_eq!(call.target_account_id, id("fees.near"));
            assert_eq!(call.method, "calculate_fees");
            let state = test_state();
            assert_eq!(
                call.args,
                fees_params_to_borsh(
                    1_000_000,
                    &id("usdt.near"),
                    &state.target_network,
                    state.target_address,
                )
            );
        }
        _ => panic!("expected the pricing call first"),
    }
    assert_eq!(rt.returned, Some(returned.raw()));

    // the settlement releases the net transfer and the fee transfer
    let continuation = FinishForwardParams {
        amount: 1_000_000,
        token_id: usdt,
        promise_idx: 0,
    };
    let mut rt = relay_runtime(
        continuation.to_borsh(),
        "relay.test.near",
        0,
        0,
        vec![PromiseResult::Successful(borsh_u128_bytes(fee))],
    );
    test_state().save(&mut rt);
    let returned = finish_forward_callback(&mut rt).unwrap();

    assert_eq!(rt.promises.len(), 2);
    match &rt.promises[0] {
        PromiseNode::Create(call) => {
            assert_eq!(call.target_account_id, id("usdt.near"));
            assert_eq!(call.method, "ft_transfer_call");
            assert_eq!(
                &call.args[..],
                br#"{"receiver_id":"aurora","amount":"950000","msg":"17ffdf6becbbc34d5c7d3bf4a0ed4a680395d057"}"#
            );
            assert_eq!(call.attached_balance, 1);
        }
        _ => panic!("expected the net transfer first"),
    }
    match &rt.promises[1] {
        PromiseNode::Callback(base, call) => {
            assert_eq!(*base, 0);
            assert_eq!(call.target_account_id, id("usdt.near"));
            assert_eq!(call.method, "ft_transfer");
            assert_eq!(
                &call.args[..],
                br#"{"receiver_id":"fees.near","amount":"50000"}"#
            );
        }
        _ => panic!("expected the fee transfer second"),
    }
    assert_eq!(rt.returned, Some(returned.raw()));
}

#[test]
fn test_zero_balance_forward_is_harmless() {
    // a second relay run finds a zero balance: the quote is zero and the
    // settlement moves nothing and schedules no fee transfer
    let mut rt = relay_runtime(
        borsh_id("usdt.near"),
        "relay.test.near",
        0,
        0,
        vec![PromiseResult::Successful(b"\"0\"".to_vec())],
    );
    test_state().save(&mut rt);
    calculate_fees_callback(&mut rt).unwrap();

    let continuation = FinishForwardParams {
        amount: 0,
        token_id: id("usdt.near"),
        promise_idx: 0,
    };
    let mut rt = relay_runtime(
        continuation.to_borsh(),
        "relay.test.near",
        0,
        0,
        vec![PromiseResult::Successful(borsh_u128_bytes(0))],
    );
    test_state().save(&mut rt);
    finish_forward_callback(&mut rt).unwrap();

    assert_eq!(rt.promises.len(), 1);
    match &rt.promises[0] {
        PromiseNode::Create(call) => {
            assert_eq!(
                &call.args[..],
                br#"{"receiver_id":"aurora","amount":"0","msg":"17ffdf6becbbc34d5c7d3bf4a0ed4a680395d057"}"#
            );
        }
        _ => panic!("expected only the net transfer"),
    }
}

#[test]
fn test_settlement_enforces_fee_bound() {
    for (fee, expected_ok) in [(400u128, true), (401, false), (420, false), (0, true)] {
        let continuation = FinishForwardParams {
            amount: 4000,
            token_id: id("usdt.near"),
            promise_idx: 0,
        };
        let mut rt = relay_runtime(
            continuation.to_borsh(),
            "relay.test.near",
            0,
            0,
            vec![PromiseResult::Successful(borsh_u128_bytes(fee))],
        );
        test_state().save(&mut rt);
        let result = finish_forward_callback(&mut rt);
        if expected_ok {
            assert!(result.is_ok());
        } else {
            assert_eq!(result, Err(ContractError::FeeBoundExceeded));
            assert!(rt.promises.is_empty());
        }
    }
}

#[test]
fn test_settlement_rejects_oversized_payload() {
    let long_network = "a".repeat(64);
    let state = State {
        target_network: id(&long_network),
        ..test_state()
    };
    let continuation = FinishForwardParams {
        amount: u128::MAX,
        token_id: id("usdt.near"),
        promise_idx: 0,
    };
    let mut rt = relay_runtime(
        continuation.to_borsh(),
        "relay.test.near",
        0,
        0,
        vec![PromiseResult::Successful(borsh_u128_bytes(0))],
    );
    state.save(&mut rt);
    assert_eq!(
        finish_forward_callback(&mut rt),
        Err(ContractError::BorshSerializeError)
    );
    assert!(rt.promises.is_empty());
}

#[test]
fn test_construction_checks_identity() {
    let state = test_state();
    let prefix = forwarder_prefix(
        "17ffdf6becbbc34d5c7d3bf4a0ed4a680395d057",
        &state.target_network,
        &state.fees_contract_id,
    );
    let good_name = format!("{prefix}.fwd.near");

    // the right identity: the record is persisted and the key installed
    let mut rt = Runtime::new(
        state.to_borsh(),
        id("signer.near"),
        id(&good_name),
        id("factory.near"),
        100,
        0,
        0,
        vec![],
    );
    let returned = new(&mut rt).unwrap();
    assert_eq!(rt.storage.len(), 1);
    assert!(matches!(rt.promises[0], PromiseNode::Batch(_)));
    assert_eq!(rt.returned, Some(returned.raw()));

    // a second construction finds the record and refuses
    assert_eq!(new(&mut rt), Err(ContractError::AlreadyInitialized));

    // the wrong identity: nothing is persisted
    let mut rt = Runtime::new(
        state.to_borsh(),
        id("signer.near"),
        id("someone-else.fwd.near"),
        id("factory.near"),
        100,
        0,
        0,
        vec![],
    );
    assert_eq!(new(&mut rt), Err(ContractError::IdentityMismatch));
    assert!(rt.storage.is_empty());
    assert!(rt.promises.is_empty());
}
