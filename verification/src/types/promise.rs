use vstd::prelude::*;

use crate::types::account_id::AccountId;

verus! {

/// One asynchronous call to another actor: target, entry point, argument
/// bytes, attached value and gas budget.
pub struct PromiseCreateArgs {
    pub target_account_id: AccountId,
    pub method: &'static str,
    pub args: Vec<u8>,
    pub attached_balance: u128,
    pub attached_gas: u64,
}

/// A call together with the callback scheduled after it resolves.
pub struct PromiseWithCallbackArgs {
    pub base: PromiseCreateArgs,
    pub callback: PromiseCreateArgs,
}

/// A batch of actions against one target actor.
pub struct PromiseBatchAction {
    pub target_account_id: AccountId,
    pub actions: Vec<PromiseAction>,
}

/// One action of a batch.
#[derive(Clone, Copy)]
pub enum PromiseAction {
    AddFullAccessKey { public_key: [u8; 33], nonce: u64 },
}

/// The outcome of an earlier promise, as seen from a callback.
pub enum PromiseResult {
    Successful(Vec<u8>),
    Failed,
    NotReady,
}

} // verus!
