use aurora_forwarder::error::ContractError;
use aurora_forwarder::runtime::{PromiseId, RegisterIndex, Runtime, SdkExpect, SdkUnwrap};
use aurora_forwarder::types::account_id::AccountId;

fn id(s: &str) -> AccountId {
    AccountId::new(s).unwrap()
}

fn empty_runtime(input: Vec<u8>) -> Runtime {
    Runtime::new(
        input,
        id("signer.near"),
        id("current.near"),
        id("caller.near"),
        7,
        1,
        100,
        vec![],
    )
}

#[test]
fn test_promise_id_round_trip() {
    let promise = PromiseId::new(42);
    assert_eq!(promise.raw(), 42);
}

#[test]
fn test_sdk_unwrap_and_expect() {
    let ok: Result<u32, ContractError> = Ok(5);
    assert_eq!(ok.sdk_unwrap(), 5);

    let some: Option<u32> = Some(7);
    assert_eq!(some.sdk_expect("missing"), 7);
}

#[test]
fn test_input_register_is_lazy() {
    let mut rt = empty_runtime(b"hello host".to_vec());
    let handle = rt.read_input();
    assert_eq!(rt.register_len(handle), 10);
    assert_eq!(rt.read_register(handle), b"hello host".to_vec());
    assert_eq!(rt.register_len(RegisterIndex(5)), 0);
}

#[test]
fn test_storage_read_back() {
    let mut rt = empty_runtime(vec![]);
    assert!(rt.read_storage(b"missing").is_none());

    assert!(rt.write_storage(b"key", b"first").is_none());
    let evicted = rt.write_storage(b"key", b"second").unwrap();
    assert_eq!(rt.read_register(evicted), b"first".to_vec());

    let handle = rt.read_storage(b"key").unwrap();
    assert_eq!(rt.read_register(handle), b"second".to_vec());
}

#[test]
fn test_environment_facts() {
    let rt = empty_runtime(vec![]);
    assert_eq!(rt.block_height(), 7);
    assert_eq!(rt.attached_deposit(), 1);
    assert_eq!(rt.account_balance(), 100);
    assert_eq!(rt.signer_account_id(), id("signer.near"));
    assert_eq!(rt.current_account_id(), id("current.near"));
    assert_eq!(rt.predecessor_account_id(), id("caller.near"));
    assert!(rt.assert_one_yocto().is_ok());
    assert_eq!(
        rt.assert_private_call(),
        Err(ContractError::PrivateCallError)
    );
}

#[test]
fn test_error_codes() {
    assert_eq!(ContractError::ParseAccountError.as_ref(), "ERR_PARS_ACCOUNT");
    assert_eq!(
        ContractError::BorshDeserializeError.as_ref(),
        "ERR_BORCH_DESERIALIZE"
    );
    assert_eq!(ContractError::StateNotFound.as_ref(), "No state");
    assert_eq!(
        ContractError::PromiseNotReady.as_ref(),
        "FEE RESULT IS NOT READY"
    );
    assert_eq!(ContractError::InsufficientBalance.as_ref(), "Too low balance");
}
