//! A deterministic, fee-metered value relay.
//!
//! A custody actor forwards fungible balances to a destination on another
//! network, after deducting a bounded service fee quoted by a pricing actor.
//! The work is split across three cooperating actors: a factory that
//! provisions one relay actor per destination under a deterministically
//! derived name, the pricing actor, and the relay actor itself, whose
//! asynchronous orchestration - forward, the pricing callback, and the
//! settlement callback - is driven entirely by promises against an in-memory
//! model of the ledger host.

use vstd::prelude::*;

pub mod error;
pub mod factory;
pub mod fees;
pub mod params;
pub mod runtime;
pub mod types;
pub mod utils;
pub mod wire;

use crate::error::ContractError;
use crate::params::{
    balance_payload, borsh_account_id, bounded_payload, fees_params_bytes, fees_params_to_borsh,
    finish_forward_bytes, ft_balance_args, ft_transfer_args, ft_transfer_call_args, lit,
    parse_borsh_u128_spec, parse_finish_forward, parse_finish_forward_spec, parse_forward_params,
    parse_forward_spec, parse_state_spec, push_account_id, state_key, transfer_call_payload,
    transfer_payload, vec_to_number_spec, FinishForwardParams, FinishForwardView, State, StateView,
};
use crate::runtime::{storage_lookup, CallView, NodeView, PromiseId, ResultView, Runtime};
use crate::types::account_id::AccountId;
use crate::types::promise::PromiseCreateArgs;
use crate::wire::hex_bytes;

verus! {

/// The least balance that must always stay behind to pay for the actor's own
/// future operations.
pub const MINIMUM_BALANCE: u128 = 355_000_000_000_000_000_000_000;

pub const ZERO_YOCTO: u128 = 0;

pub const CALCULATE_FEES_GAS: u64 = 4_000_000_000_000;

pub const NEAR_DEPOSIT_GAS: u64 = 2_000_000_000_000;

pub const FT_BALANCE_GAS: u64 = 2_000_000_000_000;

pub const FT_TRANSFER_GAS: u64 = 3_000_000_000_000;

pub const FT_TRANSFER_CALL_GAS: u64 = 50_000_000_000_000;

pub const CALCULATE_FEES_CALLBACK_GAS: u64 = 90_000_000_000_000;

pub const FINISH_FORWARD_GAS: u64 = 70_000_000_000_000;

/// The key that is installed on the freshly provisioned actor so that it can
/// later be maintained.
pub const UPDATER_PK: [u8; 33] = [
    0, 157, 55, 171, 39, 212, 8, 14, 19, 58, 101, 78, 158, 202, 229, 222, 152, 23, 144, 112, 79,
    136, 229, 203, 142, 41, 95, 170, 31, 58, 47, 213, 152,
];

/// True when `token` names the native asset rather than a fungible token.
pub open spec fn is_native_token(token: Seq<u8>) -> bool {
    token == lit("near")
}

/// The stored configuration of this actor, when one is stored and decodes.
pub open spec fn stored_state(a: Runtime) -> Option<StateView> {
    match storage_lookup(a.storage_view(), state_key()) {
        Some(bytes) => parse_state_spec(bytes),
        None => None,
    }
}

/// The fee-bound rule: the quoted fee's true share of the amount may not
/// exceed one tenth. A fee whose percentage merely rounds down to the
/// ceiling is already too much, so the rule is the exact inequality: ten
/// times the fee is at most the amount.
pub open spec fn fee_within_bound(amount: u128, fee: u128) -> bool {
    fee * 10 <= amount
}

/// Checks the fee-bound rule.
pub fn fee_bound_ok(amount: u128, fee: u128) -> (r: bool)
    ensures
        r == fee_within_bound(amount, fee),
{
    match fee.checked_mul(10) {
        Some(x) => x <= amount,
        None => false,
    }
}

/// A fee within the bound never exceeds the amount itself.
pub proof fn lemma_fee_bound_le_amount(amount: u128, fee: u128)
    requires
        fee_within_bound(amount, fee),
    ensures
        fee <= amount,
{
}

// ---------------------------------------------------------------------------
// The relay entry point
// ---------------------------------------------------------------------------

/// The promise nodes that relaying the native asset schedules: wrap the
/// spendable balance and price it concurrently, then settle.
pub open spec fn native_forward_nodes(
    current: Seq<u8>,
    sv: StateView,
    spendable: u128,
    base: int,
) -> Seq<NodeView> {
    seq![
        NodeView::Create(
            CallView {
                target: sv.wnear_contract_id,
                method: "near_deposit"@,
                args: Seq::empty(),
                attached_balance: spendable,
                attached_gas: NEAR_DEPOSIT_GAS,
            },
        ),
        NodeView::Create(
            CallView {
                target: sv.fees_contract_id,
                method: "calculate_fees"@,
                args: fees_params_bytes(
                    spendable,
                    sv.wnear_contract_id,
                    sv.target_network,
                    sv.target_address,
                ),
                attached_balance: ZERO_YOCTO,
                attached_gas: CALCULATE_FEES_GAS,
            },
        ),
        NodeView::Combine(seq![base as u64, (base + 1) as u64]),
        NodeView::Callback(
            (base + 2) as u64,
            CallView {
                target: current,
                method: "finish_forward_callback"@,
                args: finish_forward_bytes(
                    FinishForwardView {
                        amount: spendable,
                        token_id: sv.wnear_contract_id,
                        promise_idx: 1,
                    },
                ),
                attached_balance: 2,
                attached_gas: FINISH_FORWARD_GAS,
            },
        ),
    ]
}

/// The promise nodes that relaying a fungible token schedules: query the
/// actor's balance, then resume in the pricing callback.
pub open spec fn nep141_forward_nodes(current: Seq<u8>, token: Seq<u8>, base: int) -> Seq<
    NodeView,
> {
    seq![
        NodeView::Create(
            CallView {
                target: token,
                method: "ft_balance_of"@,
                args: bounded_payload(balance_payload(current)),
                attached_balance: ZERO_YOCTO,
                attached_gas: FT_BALANCE_GAS,
            },
        ),
        NodeView::Callback(
            base as u64,
            CallView {
                target: current,
                method: "calculate_fees_callback"@,
                args: borsh_account_id(token),
                attached_balance: ZERO_YOCTO,
                attached_gas: CALCULATE_FEES_CALLBACK_GAS,
            },
        ),
    ]
}

/// When the native relay path aborts, and with which diagnostic.
pub open spec fn native_forward_error(a: Runtime, e: ContractError) -> bool {
    if a.balance <= MINIMUM_BALANCE {
        e == ContractError::InsufficientBalance
    } else {
        stored_state(a) is None && e == ContractError::StateNotFound
    }
}

/// What the native relay path schedules on success.
pub open spec fn native_forward_success(a: Runtime, b: Runtime, id: PromiseId) -> bool {
    &&& a.balance > MINIMUM_BALANCE
    &&& stored_state(a) matches Some(sv) && {
        let spendable = (a.balance - MINIMUM_BALANCE) as u128;
        let base = a.promises_view().len() as int;
        &&& b.promises_view() == a.promises_view() + native_forward_nodes(
            a.current_account@,
            sv,
            spendable,
            base,
        )
        &&& b.returned == Some((base + 3) as u64)
        &&& id.spec_raw() == base + 3
        &&& b.storage_view() == a.storage_view()
    }
}

/// What the fungible-token relay path schedules: it never aborts.
pub open spec fn nep141_forward_success(
    a: Runtime,
    b: Runtime,
    token: Seq<u8>,
    id: PromiseId,
) -> bool {
    let base = a.promises_view().len() as int;
    &&& b.promises_view() == a.promises_view() + nep141_forward_nodes(
        a.current_account@,
        token,
        base,
    )
    &&& b.returned == Some((base + 1) as u64)
    &&& id.spec_raw() == base + 1
    &&& b.storage_view() == a.storage_view()
}

/// When `forward` aborts, and with which diagnostic.
pub open spec fn forward_error(a: Runtime, e: ContractError) -> bool {
    if a.deposit != 1 {
        e == ContractError::OneYoctoAttachError
    } else {
        match parse_forward_spec(a.input@) {
            None => e == ContractError::BorshDeserializeError,
            Some(token) => is_native_token(token) && native_forward_error(a, e),
        }
    }
}

/// What `forward` schedules on success.
pub open spec fn forward_success(a: Runtime, b: Runtime, id: PromiseId) -> bool {
    &&& a.deposit == 1
    &&& match parse_forward_spec(a.input@) {
        Some(token) => if is_native_token(token) {
            native_forward_success(a, b, id)
        } else {
            nep141_forward_success(a, b, token, id)
        },
        None => false,
    }
}

/// Relays the balance of the requested token to the configured destination.
///
/// Requires the anti-replay guard of exactly one attached unit, then branches
/// on whether the token is the native asset.
pub fn forward(io: &mut Runtime) -> (r: Result<PromiseId, ContractError>)
    requires
        old(io).wf(),
        old(io).promises_view().len() + 8 < u64::MAX,
    ensures
        final(io).wf(),
        Runtime::same_env(*old(io), *final(io)),
        match r {
            Ok(id) => forward_success(*old(io), *final(io), id),
            Err(e) => forward_error(*old(io), e) && Runtime::same_effects(
                *old(io),
                *final(io),
            ),
        },
{
    if let Err(e) = io.assert_one_yocto() {
        return Err(e);
    }
    let reg = io.read_input();
    let input = io.read_register(reg);
    let params = match parse_forward_params(input.as_slice()) {
        Some(p) => p,
        None => {
            return Err(ContractError::BorshDeserializeError);
        },
    };
    if crate::wire::bytes_eq(params.token_id.as_bytes(), "near".as_bytes()) {
        forward_native_token(io)
    } else {
        forward_nep141_token(io, params.token_id)
    }
}

/// The native-asset path: wrap and price the spendable balance concurrently,
/// keeping the reserved minimum behind, and settle in the callback.
pub fn forward_native_token(io: &mut Runtime) -> (r: Result<PromiseId, ContractError>)
    requires
        old(io).wf(),
        old(io).promises_view().len() + 8 < u64::MAX,
    ensures
        final(io).wf(),
        Runtime::same_env(*old(io), *final(io)),
        match r {
            Ok(id) => native_forward_success(*old(io), *final(io), id),
            Err(e) => native_forward_error(*old(io), e) && Runtime::same_effects(
                *old(io),
                *final(io),
            ),
        },
{
    let balance = io.account_balance();
    if balance <= MINIMUM_BALANCE {
        return Err(ContractError::InsufficientBalance);
    }
    let amount = balance - MINIMUM_BALANCE;
    let state = match State::load(io) {
        Some(s) => s,
        None => {
            return Err(ContractError::StateNotFound);
        },
    };
    let ghost base = io.promises_view().len() as int;
    let fees_args = fees_params_to_borsh(
        amount,
        &state.wnear_contract_id,
        &state.target_network,
        state.target_address,
    );
    let mut calls: Vec<PromiseCreateArgs> = Vec::new();
    calls.push(
        PromiseCreateArgs {
            target_account_id: state.wnear_contract_id.clone(),
            method: "near_deposit",
            args: Vec::new(),
            attached_balance: amount,
            attached_gas: NEAR_DEPOSIT_GAS,
        },
    );
    calls.push(
        PromiseCreateArgs {
            target_account_id: state.fees_contract_id.clone(),
            method: "calculate_fees",
            args: fees_args,
            attached_balance: ZERO_YOCTO,
            attached_gas: CALCULATE_FEES_GAS,
        },
    );
    let ghost c1 = calls@[0];
    let ghost c2 = calls@[1];
    proof {
        assert(calls@ =~= seq![c1, c2]);
    }
    let combined = io.promise_create_and_combine(calls);
    proof {
        let sv = stored_state(*old(io))->Some_0;
        let nodes = native_forward_nodes(old(io).current_account@, sv, amount, base);
        assert(calls@.map_values(|a: PromiseCreateArgs| NodeView::Create(a@)).len() == 2);
        assert(calls@.map_values(|a: PromiseCreateArgs| NodeView::Create(a@))[0]
            == NodeView::Create(c1@));
        assert(calls@.map_values(|a: PromiseCreateArgs| NodeView::Create(a@))[1]
            == NodeView::Create(c2@));
        assert(c1@ =~~= nodes[0]->Create_0);
        assert(c2@ =~~= nodes[1]->Create_0);
        assert(Seq::new(calls@.len(), |i: int| (old(io).promises_view().len() + i) as u64)
            =~= seq![base as u64, (base + 1) as u64]);
        assert(io.promises_view() =~~= old(io).promises_view() + seq![
            nodes[0],
            nodes[1],
            nodes[2],
        ]);
    }
    let finish = FinishForwardParams {
        amount,
        token_id: state.wnear_contract_id,
        promise_idx: 1,
    };
    let finish_args = finish.to_borsh();
    let callback = PromiseCreateArgs {
        target_account_id: io.current_account_id(),
        method: "finish_forward_callback",
        args: finish_args,
        attached_balance: 2,
        attached_gas: FINISH_FORWARD_GAS,
    };
    let promise_id = io.promise_attach_callback(combined, callback);
    io.promise_return(promise_id);
    proof {
        let sv = stored_state(*old(io))->Some_0;
        assert(final(io).promises_view() =~~= old(io).promises_view() + native_forward_nodes(
            old(io).current_account@,
            sv,
            amount,
            base,
        ));
    }
    Ok(promise_id)
}

/// The fungible-token path: query the actor's own balance of the token and
/// resume in the pricing callback.
pub fn forward_nep141_token(io: &mut Runtime, token_id: AccountId) -> (r: Result<
    PromiseId,
    ContractError,
>)
    requires
        old(io).wf(),
        old(io).promises_view().len() + 8 < u64::MAX,
        token_id.wf(),
    ensures
        final(io).wf(),
        Runtime::same_env(*old(io), *final(io)),
        r matches Ok(id) && nep141_forward_success(*old(io), *final(io), token_id@, id),
{
    let ghost base = io.promises_view().len() as int;
    let mut callback_args: Vec<u8> = Vec::new();
    push_account_id(&mut callback_args, &token_id);
    let current = io.current_account_id();
    let balance_args = ft_balance_args(&current);
    let base_call = PromiseCreateArgs {
        target_account_id: token_id,
        method: "ft_balance_of",
        args: balance_args,
        attached_balance: ZERO_YOCTO,
        attached_gas: FT_BALANCE_GAS,
    };
    let base_id = io.promise_create_call(base_call);
    let callback = PromiseCreateArgs {
        target_account_id: io.current_account_id(),
        method: "calculate_fees_callback",
        args: callback_args,
        attached_balance: ZERO_YOCTO,
        attached_gas: CALCULATE_FEES_CALLBACK_GAS,
    };
    let promise_id = io.promise_attach_callback(base_id, callback);
    io.promise_return(promise_id);
    proof {
        assert(final(io).promises_view() =~~= old(io).promises_view() + nep141_forward_nodes(
            old(io).current_account@,
            token_id@,
            base,
        ));
    }
    Ok(promise_id)
}

// ---------------------------------------------------------------------------
// The pricing callback
// ---------------------------------------------------------------------------

/// The promise nodes that the pricing callback schedules: ask the pricing
/// actor for a quote on the decoded balance, then settle.
pub open spec fn fees_callback_nodes(
    current: Seq<u8>,
    sv: StateView,
    token: Seq<u8>,
    amount: u128,
    base: int,
) -> Seq<NodeView> {
    seq![
        NodeView::Create(
            CallView {
                target: sv.fees_contract_id,
                method: "calculate_fees"@,
                args: fees_params_bytes(amount, token, sv.target_network, sv.target_address),
                attached_balance: ZERO_YOCTO,
                attached_gas: CALCULATE_FEES_GAS,
            },
        ),
        NodeView::Combine(seq![base as u64]),
        NodeView::Callback(
            (base + 1) as u64,
            CallView {
                target: current,
                method: "finish_forward_callback"@,
                args: finish_forward_bytes(
                    FinishForwardView { amount, token_id: token, promise_idx: 0 },
                ),
                attached_balance: 2,
                attached_gas: FINISH_FORWARD_GAS,
            },
        ),
    ]
}

/// When the pricing callback aborts, and with which diagnostic.
pub open spec fn fees_callback_error(a: Runtime, e: ContractError) -> bool {
    if a.predecessor_account@ != a.current_account@ {
        e == ContractError::PrivateCallError
    } else {
        match parse_forward_spec(a.input@) {
            None => e == ContractError::BorshDeserializeError,
            Some(token) => match stored_state(a) {
                None => e == ContractError::StateNotFound,
                Some(sv) => if a.results_view().len() == 0 {
                    e == ContractError::PromiseResultMissing
                } else {
                    match a.results_view()[0] {
                        ResultView::NotReady => e == ContractError::PromiseNotReady,
                        ResultView::Failed => e == ContractError::PromiseFailed,
                        ResultView::Successful(v) => vec_to_number_spec(v) == Err::<
                            u128,
                            ContractError,
                        >(e),
                    }
                },
            },
        }
    }
}

/// What the pricing callback schedules on success.
pub open spec fn fees_callback_success(a: Runtime, b: Runtime, id: PromiseId) -> bool {
    &&& a.predecessor_account@ == a.current_account@
    &&& parse_forward_spec(a.input@) matches Some(token)
    &&& stored_state(a) matches Some(sv)
    &&& a.results_view().len() > 0
    &&& a.results_view()[0] matches ResultView::Successful(v)
    &&& vec_to_number_spec(v) matches Ok(amount) && {
        let base = a.promises_view().len() as int;
        &&& b.promises_view() == a.promises_view() + fees_callback_nodes(
            a.current_account@,
            stored_state(a)->Some_0,
            parse_forward_spec(a.input@)->Some_0,
            amount,
            base,
        )
        &&& b.returned == Some((base + 2) as u64)
        &&& id.spec_raw() == base + 2
        &&& b.storage_view() == a.storage_view()
    }
}

/// Callback-only: reads the balance-query result, decodes the balance, and
/// asks the pricing actor for a quote before settling.
pub fn calculate_fees_callback(io: &mut Runtime) -> (r: Result<PromiseId, ContractError>)
    requires
        old(io).wf(),
        old(io).promises_view().len() + 8 < u64::MAX,
    ensures
        final(io).wf(),
        Runtime::same_env(*old(io), *final(io)),
        match r {
            Ok(id) => fees_callback_success(*old(io), *final(io), id),
            Err(e) => fees_callback_error(*old(io), e) && Runtime::same_effects(
                *old(io),
                *final(io),
            ),
        },
{
    if let Err(e) = io.assert_private_call() {
        return Err(e);
    }
    let reg = io.read_input();
    let input = io.read_register(reg);
    let params = match parse_forward_params(input.as_slice()) {
        Some(p) => p,
        None => {
            return Err(ContractError::BorshDeserializeError);
        },
    };
    let state = match State::load(io) {
        Some(s) => s,
        None => {
            return Err(ContractError::StateNotFound);
        },
    };
    let amount = match io.promise_result(0) {
        Some(result) => match result {
            crate::types::promise::PromiseResult::Successful(v) => {
                match crate::params::vec_to_number(v.as_slice()) {
                    Ok(n) => n,
                    Err(e) => {
                        return Err(e);
                    },
                }
            },
            crate::types::promise::PromiseResult::NotReady => {
                return Err(ContractError::PromiseNotReady);
            },
            crate::types::promise::PromiseResult::Failed => {
                return Err(ContractError::PromiseFailed);
            },
        },
        None => {
            return Err(ContractError::PromiseResultMissing);
        },
    };
    let ghost base = io.promises_view().len() as int;
    let fees_args = fees_params_to_borsh(
        amount,
        &params.token_id,
        &state.target_network,
        state.target_address,
    );
    let mut calls: Vec<PromiseCreateArgs> = Vec::new();
    calls.push(
        PromiseCreateArgs {
            target_account_id: state.fees_contract_id,
            method: "calculate_fees",
            args: fees_args,
            attached_balance: ZERO_YOCTO,
            attached_gas: CALCULATE_FEES_GAS,
        },
    );
    let ghost c1 = calls@[0];
    proof {
        assert(calls@ =~= seq![c1]);
    }
    let combined = io.promise_create_and_combine(calls);
    proof {
        let sv = stored_state(*old(io))->Some_0;
        let nodes = fees_callback_nodes(
            old(io).current_account@,
            sv,
            parse_forward_spec(old(io).input@)->Some_0,
            amount,
            base,
        );
        assert(calls@.map_values(|a: PromiseCreateArgs| NodeView::Create(a@)).len() == 1);
        assert(calls@.map_values(|a: PromiseCreateArgs| NodeView::Create(a@))[0]
            == NodeView::Create(c1@));
        assert(c1@ =~~= nodes[0]->Create_0);
        assert(Seq::new(calls@.len(), |i: int| (old(io).promises_view().len() + i) as u64)
            =~= seq![base as u64]);
        assert(io.promises_view() =~~= old(io).promises_view() + seq![nodes[0], nodes[1]]);
    }
    let finish = FinishForwardParams { amount, token_id: params.token_id, promise_idx: 0 };
    let finish_args = finish.to_borsh();
    let callback = PromiseCreateArgs {
        target_account_id: io.current_account_id(),
        method: "finish_forward_callback",
        args: finish_args,
        attached_balance: 2,
        attached_gas: FINISH_FORWARD_GAS,
    };
    let promise_id = io.promise_attach_callback(combined, callback);
    io.promise_return(promise_id);
    proof {
        let sv = stored_state(*old(io))->Some_0;
        assert(final(io).promises_view() =~~= old(io).promises_view() + fees_callback_nodes(
            old(io).current_account@,
            sv,
            parse_forward_spec(old(io).input@)->Some_0,
            amount,
            base,
        ));
    }
    Ok(promise_id)
}

// ---------------------------------------------------------------------------
// The settlement callback
// ---------------------------------------------------------------------------

/// The promise nodes that settlement schedules: the net transfer to the
/// destination, and after it the fee transfer to the fee sink when the fee
/// is not zero.
pub open spec fn finish_forward_nodes(
    sv: StateView,
    token: Seq<u8>,
    amount: u128,
    fee: u128,
    base: int,
) -> Seq<NodeView> {
    let first = NodeView::Create(
        CallView {
            target: token,
            method: "ft_transfer_call"@,
            args: transfer_call_payload(sv.target_network, (amount - fee) as u128, sv.target_address),
            attached_balance: 1,
            attached_gas: FT_TRANSFER_CALL_GAS,
        },
    );
    if fee > 0 {
        seq![
            first,
            NodeView::Callback(
                base as u64,
                CallView {
                    target: token,
                    method: "ft_transfer"@,
                    args: transfer_payload(sv.fees_contract_id, fee),
                    attached_balance: 1,
                    attached_gas: FT_TRANSFER_GAS,
                },
            ),
        ]
    } else {
        seq![first]
    }
}

/// When settlement aborts, and with which diagnostic.
pub open spec fn finish_forward_error(a: Runtime, e: ContractError) -> bool {
    if a.predecessor_account@ != a.current_account@ {
        e == ContractError::PrivateCallError
    } else {
        match parse_finish_forward_spec(a.input@) {
            None => e == ContractError::BorshDeserializeError,
            Some(p) => match stored_state(a) {
                None => e == ContractError::StateNotFound,
                Some(sv) => if p.promise_idx >= a.results_view().len() {
                    e == ContractError::PromiseResultMissing
                } else {
                    match a.results_view()[p.promise_idx as int] {
                        ResultView::NotReady => e == ContractError::PromiseNotReady,
                        ResultView::Failed => e == ContractError::PromiseFailed,
                        ResultView::Successful(v) => match parse_borsh_u128_spec(v) {
                            None => e == ContractError::BorshDeserializeError,
                            Some(fee) => if !fee_within_bound(p.amount, fee) {
                                e == ContractError::FeeBoundExceeded
                            } else if bounded_payload(
                                transfer_call_payload(
                                    sv.target_network,
                                    (p.amount - fee) as u128,
                                    sv.target_address,
                                ),
                            ).len() == 0 {
                                e == ContractError::BorshSerializeError
                            } else {
                                fee > 0 && bounded_payload(
                                    transfer_payload(sv.fees_contract_id, fee),
                                ).len() == 0 && e == ContractError::BorshSerializeError
                            },
                        },
                    }
                },
            },
        }
    }
}

/// What settlement schedules on success.
pub open spec fn finish_forward_success(a: Runtime, b: Runtime, id: PromiseId) -> bool {
    &&& a.predecessor_account@ == a.current_account@
    &&& parse_finish_forward_spec(a.input@) matches Some(p)
    &&& stored_state(a) matches Some(sv)
    &&& p.promise_idx < a.results_view().len()
    &&& a.results_view()[p.promise_idx as int] matches ResultView::Successful(v)
    &&& parse_borsh_u128_spec(v) matches Some(fee) && {
        let p = parse_finish_forward_spec(a.input@)->Some_0;
        let sv = stored_state(a)->Some_0;
        let base = a.promises_view().len() as int;
        &&& fee_within_bound(p.amount, fee)
        &&& b.promises_view() == a.promises_view() + finish_forward_nodes(
            sv,
            p.token_id,
            p.amount,
            fee,
            base,
        )
        &&& b.returned == Some(if fee > 0 { (base + 1) as u64 } else { base as u64 })
        &&& id.spec_raw() == if fee > 0 { base + 1 } else { base as int }
        &&& b.storage_view() == a.storage_view()
    }
}

/// Callback-only: reads the fee quote, enforces the fee-bound rule, and
/// releases the net transfer, with the fee transfer chained after it when a
/// fee is due.
pub fn finish_forward_callback(io: &mut Runtime) -> (r: Result<PromiseId, ContractError>)
    requires
        old(io).wf(),
        old(io).promises_view().len() + 8 < u64::MAX,
    ensures
        final(io).wf(),
        Runtime::same_env(*old(io), *final(io)),
        match r {
            Ok(id) => finish_forward_success(*old(io), *final(io), id),
            Err(e) => finish_forward_error(*old(io), e) && Runtime::same_effects(
                *old(io),
                *final(io),
            ),
        },
{
    if let Err(e) = io.assert_private_call() {
        return Err(e);
    }
    let reg = io.read_input();
    let input = io.read_register(reg);
    let params = match parse_finish_forward(input.as_slice()) {
        Some(p) => p,
        None => {
            return Err(ContractError::BorshDeserializeError);
        },
    };
    let state = match State::load(io) {
        Some(s) => s,
        None => {
            return Err(ContractError::StateNotFound);
        },
    };
    let fee = match io.promise_result(params.promise_idx) {
        Some(result) => match result {
            crate::types::promise::PromiseResult::Successful(v) => {
                match crate::params::parse_borsh_u128(v.as_slice()) {
                    Some(n) => n,
                    None => {
                        return Err(ContractError::BorshDeserializeError);
                    },
                }
            },
            crate::types::promise::PromiseResult::NotReady => {
                return Err(ContractError::PromiseNotReady);
            },
            crate::types::promise::PromiseResult::Failed => {
                return Err(ContractError::PromiseFailed);
            },
        },
        None => {
            return Err(ContractError::PromiseResultMissing);
        },
    };
    if !fee_bound_ok(params.amount, fee) {
        return Err(ContractError::FeeBoundExceeded);
    }
    proof {
        lemma_fee_bound_le_amount(params.amount, fee);
    }
    let amount = params.amount - fee;
    let transfer_call_args = ft_transfer_call_args(
        &state.target_network,
        amount,
        state.target_address,
    );
    if transfer_call_args.len() == 0 {
        return Err(ContractError::BorshSerializeError);
    }
    let ghost base = io.promises_view().len() as int;
    if fee > 0 {
        let fee_args = ft_transfer_args(&state.fees_contract_id, fee);
        if fee_args.len() == 0 {
            return Err(ContractError::BorshSerializeError);
        }
        let first = io.promise_create_call(
            PromiseCreateArgs {
                target_account_id: params.token_id.clone(),
                method: "ft_transfer_call",
                args: transfer_call_args,
                attached_balance: 1,
                attached_gas: FT_TRANSFER_CALL_GAS,
            },
        );
        let promise_id = io.promise_attach_callback(
            first,
            PromiseCreateArgs {
                target_account_id: params.token_id,
                method: "ft_transfer",
                args: fee_args,
                attached_balance: 1,
                attached_gas: FT_TRANSFER_GAS,
            },
        );
        io.promise_return(promise_id);
        proof {
            let sv = stored_state(*old(io))->Some_0;
            let p = parse_finish_forward_spec(old(io).input@)->Some_0;
            assert(final(io).promises_view() =~~= old(io).promises_view()
                + finish_forward_nodes(sv, p.token_id, p.amount, fee, base));
        }
        Ok(promise_id)
    } else {
        let promise_id = io.promise_create_call(
            PromiseCreateArgs {
                target_account_id: params.token_id,
                method: "ft_transfer_call",
                args: transfer_call_args,
                attached_balance: 1,
                attached_gas: FT_TRANSFER_CALL_GAS,
            },
        );
        io.promise_return(promise_id);
        proof {
            let sv = stored_state(*old(io))->Some_0;
            let p = parse_finish_forward_spec(old(io).input@)->Some_0;
            assert(final(io).promises_view() =~~= old(io).promises_view()
                + finish_forward_nodes(sv, p.token_id, p.amount, fee, base));
        }
        Ok(promise_id)
    }
}

// ---------------------------------------------------------------------------
// Construction
// ---------------------------------------------------------------------------

/// True when the actor's own name starts with the prefix derived from the
/// given configuration: the deployment-time self-verification.
pub open spec fn identity_matches(current: Seq<u8>, sv: StateView) -> bool {
    crate::utils::first_segment(current) == crate::utils::forwarder_prefix_bytes(
        hex_bytes(sv.target_address),
        sv.target_network,
        sv.fees_contract_id,
    )
}

/// When construction aborts, and with which diagnostic.
pub open spec fn new_error(a: Runtime, e: ContractError) -> bool {
    if stored_state(a) is Some {
        e == ContractError::AlreadyInitialized
    } else {
        match parse_state_spec(a.input@) {
            None => e == ContractError::BorshDeserializeError,
            Some(sv) => !identity_matches(a.current_account@, sv) && e
                == ContractError::IdentityMismatch,
        }
    }
}

/// What construction persists and schedules on success.
pub open spec fn new_success(a: Runtime, b: Runtime, id: PromiseId) -> bool {
    &&& stored_state(a) is None
    &&& parse_state_spec(a.input@) matches Some(sv) && {
        let base = a.promises_view().len() as int;
        &&& identity_matches(a.current_account@, sv)
        &&& b.storage_view() == crate::runtime::storage_update(
            a.storage_view(),
            state_key(),
            crate::params::state_bytes(sv),
        )
        &&& b.promises_view() == a.promises_view().push(
            NodeView::Batch(
                crate::runtime::BatchView {
                    target: a.current_account@,
                    actions: seq![
                        crate::types::promise::PromiseAction::AddFullAccessKey {
                            public_key: UPDATER_PK,
                            nonce: 0,
                        },
                    ],
                },
            ),
        )
        &&& stored_state(b) == Some(sv)
        &&& b.returned == Some(base as u64)
        &&& id.spec_raw() == base
    }
}

/// Installs the configuration record, once.
///
/// Fails when a record already exists, when the input does not decode, or
/// when the actor's own name does not carry the prefix derived from the
/// configuration; nothing is persisted on any failure.
pub fn new(io: &mut Runtime) -> (r: Result<PromiseId, ContractError>)
    requires
        old(io).wf(),
        old(io).promises_view().len() + 8 < u64::MAX,
    ensures
        final(io).wf(),
        Runtime::same_env(*old(io), *final(io)),
        match r {
            Ok(id) => new_success(*old(io), *final(io), id),
            Err(e) => new_error(*old(io), e) && Runtime::same_effects(*old(io), *final(io)),
        },
{
    if let Some(_) = State::load(io) {
        return Err(ContractError::AlreadyInitialized);
    }
    let reg = io.read_input();
    let input = io.read_register(reg);
    let state = match crate::params::parse_state(input.as_slice()) {
        Some(s) => s,
        None => {
            return Err(ContractError::BorshDeserializeError);
        },
    };
    let mut address_hex: Vec<u8> = Vec::new();
    crate::wire::push_hex(&mut address_hex, state.target_address.0.as_slice());
    let prefix = crate::utils::forwarder_prefix_parts(
        address_hex.as_slice(),
        &state.target_network,
        &state.fees_contract_id,
    );
    let current = io.current_account_id();
    let current_bytes = current.as_bytes();
    let seg_end = crate::utils::find_first_dot(current_bytes);
    let clen: usize = current_bytes.len();
    let segment = vstd::slice::slice_subrange(current_bytes, 0, seg_end);
    if !crate::wire::bytes_eq(segment, prefix.as_slice()) {
        return Err(ContractError::IdentityMismatch);
    }
    state.save(io);
    let mut actions: Vec<crate::types::promise::PromiseAction> = Vec::new();
    actions.push(
        crate::types::promise::PromiseAction::AddFullAccessKey {
            public_key: UPDATER_PK,
            nonce: 0,
        },
    );
    let batch = crate::types::promise::PromiseBatchAction {
        target_account_id: io.current_account_id(),
        actions,
    };
    let promise_id = io.promise_create_batch(batch);
    io.promise_return(promise_id);
    proof {
        let sv = parse_state_spec(old(io).input@)->Some_0;
        crate::runtime::lemma_lookup_after_update(
            old(io).storage_view(),
            state_key(),
            crate::params::state_bytes(sv),
        );
        crate::params::lemma_state_round_trip(sv);
        assert(final(io).promises_view() =~~= old(io).promises_view().push(
            NodeView::Batch(
                crate::runtime::BatchView {
                    target: old(io).current_account@,
                    actions: seq![
                        crate::types::promise::PromiseAction::AddFullAccessKey {
                            public_key: UPDATER_PK,
                            nonce: 0,
                        },
                    ],
                },
            ),
        ));
    }
    Ok(promise_id)
}

} // verus!
