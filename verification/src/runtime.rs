use vstd::prelude::*;

use crate::error::ContractError;
use crate::types::account_id::AccountId;
use crate::types::promise::{
    PromiseAction, PromiseBatchAction, PromiseCreateArgs, PromiseResult, PromiseWithCallbackArgs,
};

verus! {

/// Index of the register that holds the last storage value read.
pub const READ_STORAGE_REGISTER: u64 = 0;

/// Index of the register that holds the invocation input.
pub const INPUT_REGISTER: u64 = 1;

/// Index of the register that holds the value evicted by the last write.
pub const WRITE_REGISTER: u64 = 2;

/// How many registers the host offers.
pub const REGISTER_COUNT: usize = 6;

/// A handle to a value obtained by host I/O without loading it: the value sits
/// in a numbered register, whose size can be measured before it is copied.
#[derive(Debug, Clone, Copy, PartialEq, Eq)]
pub struct RegisterIndex(pub u64);

/// A handle to a scheduled promise.
#[derive(Debug, Eq, PartialEq, Copy, Clone)]
pub struct PromiseId {
    id: u64,
}

impl PromiseId {
    /// The number under this handle.
    pub closed spec fn spec_raw(self) -> u64 {
        self.id
    }

    #[must_use]
    pub fn new(id: u64) -> (r: Self)
        ensures
            r.spec_raw() == id,
    {
        PromiseId { id }
    }

    #[must_use]
    pub fn raw(self) -> (r: u64)
        ensures
            r == self.spec_raw(),
    {
        self.id
    }
}

/// The mathematical shape of one scheduled call.
pub struct CallView {
    pub target: Seq<u8>,
    pub method: Seq<char>,
    pub args: Seq<u8>,
    pub attached_balance: u128,
    pub attached_gas: u64,
}

impl View for PromiseCreateArgs {
    type V = CallView;

    open spec fn view(&self) -> CallView {
        CallView {
            target: self.target_account_id@,
            method: self.method@,
            args: self.args@,
            attached_balance: self.attached_balance,
            attached_gas: self.attached_gas,
        }
    }
}

/// The mathematical shape of one batch of actions.
pub struct BatchView {
    pub target: Seq<u8>,
    pub actions: Seq<PromiseAction>,
}

impl View for PromiseBatchAction {
    type V = BatchView;

    open spec fn view(&self) -> BatchView {
        BatchView { target: self.target_account_id@, actions: self.actions@ }
    }
}

/// One node of the promise graph built during an invocation.
pub enum PromiseNode {
    /// A single call to another actor.
    Create(PromiseCreateArgs),
    /// A join of earlier nodes, resolved once all of them are.
    Combine(Vec<u64>),
    /// A call scheduled after an earlier node resolves.
    Callback(u64, PromiseCreateArgs),
    /// A batch of actions against one actor.
    Batch(PromiseBatchAction),
}

/// The mathematical shape of one promise node.
pub enum NodeView {
    Create(CallView),
    Combine(Seq<u64>),
    Callback(u64, CallView),
    Batch(BatchView),
}

impl View for PromiseNode {
    type V = NodeView;

    open spec fn view(&self) -> NodeView {
        match self {
            PromiseNode::Create(c) => NodeView::Create(c@),
            PromiseNode::Combine(ids) => NodeView::Combine(ids@),
            PromiseNode::Callback(base, c) => NodeView::Callback(*base, c@),
            PromiseNode::Batch(b) => NodeView::Batch(b@),
        }
    }
}

/// The mathematical shape of one promise outcome.
pub enum ResultView {
    Successful(Seq<u8>),
    Failed,
    NotReady,
}

impl View for PromiseResult {
    type V = ResultView;

    open spec fn view(&self) -> ResultView {
        match self {
            PromiseResult::Successful(v) => ResultView::Successful(v@),
            PromiseResult::Failed => ResultView::Failed,
            PromiseResult::NotReady => ResultView::NotReady,
        }
    }
}

/// An in-memory host: registers, persistent key/value storage, the facts of
/// the current invocation, and the promise graph it builds. The real platform
/// serializes invocations per actor, so one value of this type stands for the
/// whole world an invocation can see and touch.
pub struct Runtime {
    /// The bytes passed as input to this invocation.
    pub input: Vec<u8>,
    /// Persistent storage, one value per key, first match authoritative.
    pub storage: Vec<(Vec<u8>, Vec<u8>)>,
    /// The zero-copy registers.
    pub registers: Vec<Vec<u8>>,
    /// Account that signed the transaction.
    pub signer_account: AccountId,
    /// Account of the executing actor.
    pub current_account: AccountId,
    /// Account that called the executing actor.
    pub predecessor_account: AccountId,
    /// Height of the current block.
    pub height: u64,
    /// Value attached to the current call.
    pub deposit: u128,
    /// The actor's own balance.
    pub balance: u128,
    /// Outcomes of the promises this callback was scheduled after.
    pub promise_results: Vec<PromiseResult>,
    /// The promise graph built so far in this invocation.
    pub promises: Vec<PromiseNode>,
    /// The node whose eventual outcome is this invocation's result.
    pub returned: Option<u64>,
}

/// The first value stored under `key`, if any.
pub open spec fn storage_lookup(s: Seq<(Seq<u8>, Seq<u8>)>, key: Seq<u8>) -> Option<Seq<u8>>
    decreases s.len(),
{
    if s.len() == 0 {
        None
    } else if s[0].0 == key {
        Some(s[0].1)
    } else {
        storage_lookup(s.drop_first(), key)
    }
}

/// `s` with the first entry under `key` replaced by `value`, or with
/// `(key, value)` appended when no entry exists.
pub open spec fn storage_update(
    s: Seq<(Seq<u8>, Seq<u8>)>,
    key: Seq<u8>,
    value: Seq<u8>,
) -> Seq<(Seq<u8>, Seq<u8>)>
    decreases s.len(),
{
    if s.len() == 0 {
        seq![(key, value)]
    } else if s[0].0 == key {
        seq![(key, value)] + s.drop_first()
    } else {
        seq![s[0]] + storage_update(s.drop_first(), key, value)
    }
}

impl Runtime {
    /// The registers, as sequences of bytes.
    pub open spec fn regs_view(self) -> Seq<Seq<u8>> {
        self.registers@.map_values(|r: Vec<u8>| r@)
    }

    /// The storage, as pairs of key and value bytes.
    pub open spec fn storage_view(self) -> Seq<(Seq<u8>, Seq<u8>)> {
        self.storage@.map_values(|p: (Vec<u8>, Vec<u8>)| (p.0@, p.1@))
    }

    /// The promise graph, as node shapes.
    pub open spec fn promises_view(self) -> Seq<NodeView> {
        self.promises@.map_values(|n: PromiseNode| n@)
    }

    /// The promise outcomes, as result shapes.
    pub open spec fn results_view(self) -> Seq<ResultView> {
        self.promise_results@.map_values(|r: PromiseResult| r@)
    }

    /// The contents of the register under `i`: empty when unused.
    pub open spec fn reg(self, i: int) -> Seq<u8> {
        if 0 <= i < self.regs_view().len() {
            self.regs_view()[i]
        } else {
            Seq::empty()
        }
    }

    /// A host with the given invocation facts, empty storage and no promises.
    pub fn new(
        input: Vec<u8>,
        signer_account: AccountId,
        current_account: AccountId,
        predecessor_account: AccountId,
        height: u64,
        deposit: u128,
        balance: u128,
        promise_results: Vec<PromiseResult>,
    ) -> (r: Runtime)
        ensures
            r.wf(),
            r.input@ == input@,
            r.signer_account@ == signer_account@,
            r.current_account@ == current_account@,
            r.predecessor_account@ == predecessor_account@,
            r.height == height,
            r.deposit == deposit,
            r.balance == balance,
            r.results_view() == promise_results@.map_values(|x: PromiseResult| x@),
            r.storage_view() == Seq::<(Seq<u8>, Seq<u8>)>::empty(),
            r.promises_view() == Seq::<NodeView>::empty(),
            r.returned is None,
    {
        let mut registers: Vec<Vec<u8>> = Vec::new();
        let mut i: usize = 0;
        while i < REGISTER_COUNT
            invariant
                i <= REGISTER_COUNT,
                registers@.len() == i,
            decreases REGISTER_COUNT - i,
        {
            registers.push(Vec::new());
            i = i + 1;
        }
        let r = Runtime {
            input,
            storage: Vec::new(),
            registers,
            signer_account,
            current_account,
            predecessor_account,
            height,
            deposit,
            balance,
            promise_results,
            promises: Vec::new(),
            returned: None,
        };
        proof {
            assert(r.storage_view() =~= Seq::<(Seq<u8>, Seq<u8>)>::empty());
            assert(r.promises_view() =~= Seq::<NodeView>::empty());
        }
        r
    }

    /// True when the host holds its full set of registers.
    pub open spec fn wf(self) -> bool {
        self.registers@.len() == REGISTER_COUNT
    }

    /// True when `a` and `b` agree on every invocation fact: input, accounts,
    /// block height, attached value, balance and promise outcomes.
    pub open spec fn same_env(a: Runtime, b: Runtime) -> bool {
        &&& a.input@ == b.input@
        &&& a.signer_account@ == b.signer_account@
        &&& a.current_account@ == b.current_account@
        &&& a.predecessor_account@ == b.predecessor_account@
        &&& a.height == b.height
        &&& a.deposit == b.deposit
        &&& a.balance == b.balance
        &&& a.results_view() == b.results_view()
    }

    /// True when `a` and `b` agree on storage, promise graph and returned
    /// node: nothing observable beyond registers has moved.
    pub open spec fn same_effects(a: Runtime, b: Runtime) -> bool {
        &&& a.storage_view() == b.storage_view()
        &&& a.promises_view() == b.promises_view()
        &&& a.returned == b.returned
    }

    // ------------------------------------------------------------------
    // Environment facts
    // ------------------------------------------------------------------

    /// Account that signed the transaction.
    pub fn signer_account_id(&self) -> (r: AccountId)
        ensures
            r@ == self.signer_account@,
    {
        self.signer_account.clone()
    }

    /// Account of the executing actor.
    pub fn current_account_id(&self) -> (r: AccountId)
        ensures
            r@ == self.current_account@,
    {
        self.current_account.clone()
    }

    /// Account that called the executing actor.
    pub fn predecessor_account_id(&self) -> (r: AccountId)
        ensures
            r@ == self.predecessor_account@,
    {
        self.predecessor_account.clone()
    }

    /// Height of the current block.
    pub fn block_height(&self) -> (r: u64)
        ensures
            r == self.height,
    {
        self.height
    }

    /// Value attached to the current call.
    pub fn attached_deposit(&self) -> (r: u128)
        ensures
            r == self.deposit,
    {
        self.deposit
    }

    /// The actor's own balance.
    pub fn account_balance(&self) -> (r: u128)
        ensures
            r == self.balance,
    {
        self.balance
    }

    /// Guards callback-only entry points: only the actor itself may call them.
    pub fn assert_private_call(&self) -> (r: Result<(), ContractError>)
        ensures
            match r {
                Ok(()) => self.predecessor_account@ == self.current_account@,
                Err(e) => self.predecessor_account@ != self.current_account@ && e
                    == ContractError::PrivateCallError,
            },
    {
        let pred = self.predecessor_account.as_bytes();
        let cur = self.current_account.as_bytes();
        if crate::wire::bytes_eq(pred, cur) {
            Ok(())
        } else {
            Err(ContractError::PrivateCallError)
        }
    }

    /// Guards state-changing entry points: exactly one minimal unit of value
    /// must be attached.
    pub fn assert_one_yocto(&self) -> (r: Result<(), ContractError>)
        ensures
            match r {
                Ok(()) => self.deposit == 1,
                Err(e) => self.deposit != 1 && e == ContractError::OneYoctoAttachError,
            },
    {
        if self.deposit == 1 {
            Ok(())
        } else {
            Err(ContractError::OneYoctoAttachError)
        }
    }

    // ------------------------------------------------------------------
    // Input, storage and registers
    // ------------------------------------------------------------------

    /// How many bytes sit in the register under `r`.
    pub fn register_len(&self, r: RegisterIndex) -> (n: usize)
        ensures
            n == self.reg(r.0 as int).len(),
    {
        let len: usize = self.registers.len();
        if r.0 < len as u64 {
            let idx = r.0 as usize;
            proof {
                assert(self.reg(r.0 as int) == self.registers@[r.0 as int]@);
            }
            self.registers[idx].len()
        } else {
            0
        }
    }

    /// The bytes in the register under `r`.
    pub fn read_register(&self, r: RegisterIndex) -> (out: Vec<u8>)
        ensures
            out@ == self.reg(r.0 as int),
    {
        let len: usize = self.registers.len();
        if r.0 < len as u64 {
            let idx = r.0 as usize;
            proof {
                assert(self.reg(r.0 as int) == self.registers@[r.0 as int]@);
            }
            vstd::slice::slice_to_vec(self.registers[idx].as_slice())
        } else {
            Vec::new()
        }
    }

    /// Loads the invocation input into its register and hands back the handle.
    pub fn read_input(&mut self) -> (r: RegisterIndex)
        requires
            old(self).wf(),
        ensures
            final(self).wf(),
            r.0 == INPUT_REGISTER,
            final(self).reg(r.0 as int) == old(self).input@,
            Runtime::same_env(*old(self), *final(self)),
            Runtime::same_effects(*old(self), *final(self)),
    {
        let v = vstd::slice::slice_to_vec(self.input.as_slice());
        self.registers[INPUT_REGISTER as usize] = v;
        proof {
            assert(final(self).storage_view() =~= old(self).storage_view());
            assert(final(self).promises_view() =~= old(self).promises_view());
            assert(final(self).results_view() =~= old(self).results_view());
        }
        RegisterIndex(INPUT_REGISTER)
    }

    /// Reads the value under `key` into a register, if one is stored.
    pub fn read_storage(&mut self, key: &[u8]) -> (r: Option<RegisterIndex>)
        requires
            old(self).wf(),
        ensures
            final(self).wf(),
            Runtime::same_env(*old(self), *final(self)),
            Runtime::same_effects(*old(self), *final(self)),
            match r {
                Some(idx) => idx.0 == READ_STORAGE_REGISTER && storage_lookup(
                    old(self).storage_view(),
                    key@,
                ) == Some(final(self).reg(idx.0 as int)),
                None => storage_lookup(old(self).storage_view(), key@) is None,
            },
    {
        let n: usize = self.storage.len();
        let mut i: usize = 0;
        while i < n
            invariant
                i <= n,
                *self == *old(self),
                self.wf(),
                n == self.storage@.len(),
                forall|k: int|
                    0 <= k < i ==> #[trigger] self.storage_view()[k].0 != key@,
            decreases n - i,
        {
            if crate::wire::bytes_eq(self.storage[i].0.as_slice(), key) {
                let v = vstd::slice::slice_to_vec(self.storage[i].1.as_slice());
                proof {
                    assert(self.storage_view()[i as int].0 == self.storage@[i as int].0@);
                    lemma_storage_lookup_at(self.storage_view(), key@, i as int);
                }
                let ghost pre = *self;
                self.registers[READ_STORAGE_REGISTER as usize] = v;
                proof {
                    assert(final(self).storage_view() =~= pre.storage_view());
                    assert(final(self).promises_view() =~= pre.promises_view());
                    assert(final(self).results_view() =~= pre.results_view());
                }
                return Some(RegisterIndex(READ_STORAGE_REGISTER));
            }
            proof {
                assert(self.storage_view()[i as int].0 == self.storage@[i as int].0@);
            }
            i = i + 1;
        }
        proof {
            lemma_storage_lookup_absent(self.storage_view(), key@);
        }
        None
    }

    /// Stores `value` under `key`. When a value was already stored there, it
    /// is moved to the write register and its handle returned.
    pub fn write_storage(&mut self, key: &[u8], value: &[u8]) -> (r: Option<RegisterIndex>)
        requires
            old(self).wf(),
        ensures
            final(self).wf(),
            Runtime::same_env(*old(self), *final(self)),
            final(self).promises_view() == old(self).promises_view(),
            final(self).returned == old(self).returned,
            final(self).storage_view() == storage_update(old(self).storage_view(), key@, value@),
            match r {
                Some(idx) => idx.0 == WRITE_REGISTER && storage_lookup(
                    old(self).storage_view(),
                    key@,
                ) == Some(final(self).reg(idx.0 as int)),
                None => storage_lookup(old(self).storage_view(), key@) is None,
            },
    {
        let n: usize = self.storage.len();
        let mut i: usize = 0;
        while i < n
            invariant
                i <= n,
                *self == *old(self),
                self.wf(),
                n == self.storage@.len(),
                forall|k: int|
                    0 <= k < i ==> #[trigger] self.storage_view()[k].0 != key@,
            decreases n - i,
        {
            if crate::wire::bytes_eq(self.storage[i].0.as_slice(), key) {
                let old_value = vstd::slice::slice_to_vec(self.storage[i].1.as_slice());
                proof {
                    assert(self.storage_view()[i as int].0 == self.storage@[i as int].0@);
                    lemma_storage_lookup_at(self.storage_view(), key@, i as int);
                    lemma_storage_update_at(self.storage_view(), key@, value@, i as int);
                }
                let ghost pre = *self;
                self.storage[i] = (vstd::slice::slice_to_vec(key), vstd::slice::slice_to_vec(
                    value,
                ));
                self.registers[WRITE_REGISTER as usize] = old_value;
                proof {
                    assert(final(self).storage_view() =~= storage_update(
                        pre.storage_view(),
                        key@,
                        value@,
                    ));
                    assert(final(self).promises_view() =~= pre.promises_view());
                    assert(final(self).results_view() =~= pre.results_view());
                }
                return Some(RegisterIndex(WRITE_REGISTER));
            }
            proof {
                assert(self.storage_view()[i as int].0 == self.storage@[i as int].0@);
            }
            i = i + 1;
        }
        proof {
            lemma_storage_lookup_absent(self.storage_view(), key@);
            lemma_storage_update_absent(self.storage_view(), key@, value@);
        }
        let ghost pre = *self;
        self.storage.push((vstd::slice::slice_to_vec(key), vstd::slice::slice_to_vec(value)));
        proof {
            assert(final(self).storage_view() =~= pre.storage_view().push((key@, value@)));
            assert(final(self).promises_view() =~= pre.promises_view());
            assert(final(self).results_view() =~= pre.results_view());
        }
        None
    }

    // ------------------------------------------------------------------
    // Promises
    // ------------------------------------------------------------------

    /// The outcome of the promise under `index`, if the host knows one.
    pub fn promise_result(&self, index: u64) -> (r: Option<PromiseResult>)
        ensures
            match r {
                Some(res) => index < self.results_view().len() && res@ == self.results_view()[index as int],
                None => index >= self.results_view().len(),
            },
    {
        let n: usize = self.promise_results.len();
        if index < n as u64 {
            let idx = index as usize;
            let r = match &self.promise_results[idx] {
                PromiseResult::Successful(v) => PromiseResult::Successful(
                    vstd::slice::slice_to_vec(v.as_slice()),
                ),
                PromiseResult::Failed => PromiseResult::Failed,
                PromiseResult::NotReady => PromiseResult::NotReady,
            };
            Some(r)
        } else {
            None
        }
    }

    /// Schedules one call and hands back its node.
    pub fn promise_create_call(&mut self, args: PromiseCreateArgs) -> (r: PromiseId)
        ensures
            Runtime::same_env(*old(self), *final(self)),
            final(self).wf() == old(self).wf(),
            final(self).storage_view() == old(self).storage_view(),
            final(self).returned == old(self).returned,
            final(self).regs_view() == old(self).regs_view(),
            final(self).promises_view() == old(self).promises_view().push(
                NodeView::Create(args@),
            ),
            r.spec_raw() == old(self).promises_view().len(),
    {
        let id = self.promises.len() as u64;
        let ghost pre = *self;
        self.promises.push(PromiseNode::Create(args));
        proof {
            assert(final(self).promises_view() =~= pre.promises_view().push(
                NodeView::Create(args@),
            ));
            assert(final(self).storage_view() =~= pre.storage_view());
            assert(final(self).results_view() =~= pre.results_view());
            assert(final(self).regs_view() =~= pre.regs_view());
        }
        PromiseId { id }
    }

    /// Schedules every call of `args` and joins them into one node.
    pub fn promise_create_and_combine(&mut self, args: Vec<PromiseCreateArgs>) -> (r: PromiseId)
        requires
            old(self).promises_view().len() + args@.len() < u64::MAX,
        ensures
            Runtime::same_env(*old(self), *final(self)),
            final(self).wf() == old(self).wf(),
            final(self).storage_view() == old(self).storage_view(),
            final(self).returned == old(self).returned,
            final(self).regs_view() == old(self).regs_view(),
            final(self).promises_view() == old(self).promises_view() + args@.map_values(
                |a: PromiseCreateArgs| NodeView::Create(a@),
            ).push(
                NodeView::Combine(
                    Seq::new(
                        args@.len(),
                        |i: int| (old(self).promises_view().len() + i) as u64,
                    ),
                ),
            ),
            r.spec_raw() == old(self).promises_view().len() + args@.len(),
    {
        let ghost pre = *self;
        let ghost orig = args@;
        let mut ids: Vec<u64> = Vec::new();
        let n: usize = args.len();
        let mut rest = args;
        let mut i: usize = 0;
        while i < n
            invariant
                i <= n,
                n == orig.len(),
                rest@ == orig.skip(i as int),
                self.wf() == pre.wf(),
                Runtime::same_env(pre, *self),
                self.storage_view() == pre.storage_view(),
                self.returned == pre.returned,
                self.regs_view() == pre.regs_view(),
                self.promises_view() == pre.promises_view() + orig.subrange(
                    0,
                    i as int,
                ).map_values(|a: PromiseCreateArgs| NodeView::Create(a@)),
                ids@ == Seq::new(i as nat, |k: int| (pre.promises_view().len() + k) as u64),
            decreases n - i,
        {
            let a = rest.remove(0);
            proof {
                assert(a == orig[i as int]);
                assert(rest@ =~= orig.skip(i + 1 as int));
                assert(self.promises_view().len() == pre.promises_view().len() + i);
            }
            let pid = self.promise_create_call(a);
            ids.push(pid.raw());
            proof {
                assert(self.promises_view() =~= pre.promises_view() + orig.subrange(
                    0,
                    i + 1 as int,
                ).map_values(|x: PromiseCreateArgs| NodeView::Create(x@)));
                assert(ids@ =~= Seq::new(
                    (i + 1) as nat,
                    |k: int| (pre.promises_view().len() + k) as u64,
                ));
            }
            i = i + 1;
        }
        let id = self.promises.len() as u64;
        let ghost before_combine = *self;
        self.promises.push(PromiseNode::Combine(ids));
        proof {
            assert(orig.subrange(0, n as int) =~= orig);
            assert(final(self).promises_view() =~= before_combine.promises_view().push(
                NodeView::Combine(
                    Seq::new(orig.len(), |k: int| (pre.promises_view().len() + k) as u64),
                ),
            ));
            assert(final(self).promises_view() =~= pre.promises_view() + orig.map_values(
                |a: PromiseCreateArgs| NodeView::Create(a@),
            ).push(
                NodeView::Combine(
                    Seq::new(orig.len(), |k: int| (pre.promises_view().len() + k) as u64),
                ),
            ));
            assert(final(self).storage_view() =~= before_combine.storage_view());
            assert(final(self).results_view() =~= before_combine.results_view());
            assert(final(self).regs_view() =~= before_combine.regs_view());
        }
        PromiseId { id }
    }

    /// Schedules `callback` to run after `base` resolves, however it resolves.
    pub fn promise_attach_callback(&mut self, base: PromiseId, callback: PromiseCreateArgs) -> (r:
        PromiseId)
        ensures
            Runtime::same_env(*old(self), *final(self)),
            final(self).wf() == old(self).wf(),
            final(self).storage_view() == old(self).storage_view(),
            final(self).returned == old(self).returned,
            final(self).regs_view() == old(self).regs_view(),
            final(self).promises_view() == old(self).promises_view().push(
                NodeView::Callback(base.spec_raw(), callback@),
            ),
            r.spec_raw() == old(self).promises_view().len(),
    {
        let id = self.promises.len() as u64;
        let ghost pre = *self;
        self.promises.push(PromiseNode::Callback(base.id, callback));
        proof {
            assert(final(self).promises_view() =~= pre.promises_view().push(
                NodeView::Callback(base.spec_raw(), callback@),
            ));
            assert(final(self).storage_view() =~= pre.storage_view());
            assert(final(self).results_view() =~= pre.results_view());
            assert(final(self).regs_view() =~= pre.regs_view());
        }
        PromiseId { id }
    }

    /// Schedules a batch of actions as one node.
    pub fn promise_create_batch(&mut self, args: PromiseBatchAction) -> (r: PromiseId)
        ensures
            Runtime::same_env(*old(self), *final(self)),
            final(self).wf() == old(self).wf(),
            final(self).storage_view() == old(self).storage_view(),
            final(self).returned == old(self).returned,
            final(self).regs_view() == old(self).regs_view(),
            final(self).promises_view() == old(self).promises_view().push(NodeView::Batch(args@)),
            r.spec_raw() == old(self).promises_view().len(),
    {
        let id = self.promises.len() as u64;
        let ghost pre = *self;
        self.promises.push(PromiseNode::Batch(args));
        proof {
            assert(final(self).promises_view() =~= pre.promises_view().push(NodeView::Batch(args@)));
            assert(final(self).storage_view() =~= pre.storage_view());
            assert(final(self).results_view() =~= pre.results_view());
            assert(final(self).regs_view() =~= pre.regs_view());
        }
        PromiseId { id }
    }

    /// Marks the invocation's result as whatever `promise` resolves to.
    pub fn promise_return(&mut self, promise: PromiseId)
        ensures
            Runtime::same_env(*old(self), *final(self)),
            final(self).wf() == old(self).wf(),
            final(self).storage_view() == old(self).storage_view(),
            final(self).promises_view() == old(self).promises_view(),
            final(self).regs_view() == old(self).regs_view(),
            final(self).returned == Some(promise.spec_raw()),
    {
        let ghost pre = *self;
        self.returned = Some(promise.id);
        proof {
            assert(final(self).promises_view() =~= pre.promises_view());
            assert(final(self).storage_view() =~= pre.storage_view());
            assert(final(self).results_view() =~= pre.results_view());
            assert(final(self).regs_view() =~= pre.regs_view());
        }
    }

    /// Schedules a call and a callback after it in one step.
    pub fn promise_create_with_callback(&mut self, args: PromiseWithCallbackArgs) -> (r: PromiseId)
        requires
            old(self).promises_view().len() + 2 < u64::MAX,
        ensures
            Runtime::same_env(*old(self), *final(self)),
            final(self).wf() == old(self).wf(),
            final(self).storage_view() == old(self).storage_view(),
            final(self).returned == old(self).returned,
            final(self).regs_view() == old(self).regs_view(),
            final(self).promises_view() == old(self).promises_view().push(
                NodeView::Create(args.base@),
            ).push(
                NodeView::Callback((old(self).promises_view().len()) as u64, args.callback@),
            ),
            r.spec_raw() == old(self).promises_view().len() + 1,
    {
        let PromiseWithCallbackArgs { base, callback } = args;
        let base_id = self.promise_create_call(base);
        self.promise_attach_callback(base_id, callback)
    }
}

/// When some entry before `i` holds `key`, the lookup returns that entry.
proof fn lemma_storage_lookup_at(s: Seq<(Seq<u8>, Seq<u8>)>, key: Seq<u8>, i: int)
    requires
        0 <= i < s.len(),
        s[i].0 == key,
        forall|k: int| 0 <= k < i ==> #[trigger] s[k].0 != key,
    ensures
        storage_lookup(s, key) == Some(s[i].1),
    decreases i,
{
    if i > 0 {
        lemma_storage_lookup_at(s.drop_first(), key, i - 1);
    }
}

/// When no entry holds `key`, the lookup returns nothing.
proof fn lemma_storage_lookup_absent(s: Seq<(Seq<u8>, Seq<u8>)>, key: Seq<u8>)
    requires
        forall|k: int| 0 <= k < s.len() ==> #[trigger] s[k].0 != key,
    ensures
        storage_lookup(s, key) is None,
    decreases s.len(),
{
    if s.len() > 0 {
        lemma_storage_lookup_absent(s.drop_first(), key);
    }
}

/// Replacing the first entry under `key` realizes the storage update.
proof fn lemma_storage_update_at(s: Seq<(Seq<u8>, Seq<u8>)>, key: Seq<u8>, value: Seq<u8>, i: int)
    requires
        0 <= i < s.len(),
        s[i].0 == key,
        forall|k: int| 0 <= k < i ==> #[trigger] s[k].0 != key,
    ensures
        storage_update(s, key, value) == s.update(i, (key, value)),
    decreases i,
{
    if i == 0 {
        assert(storage_update(s, key, value) == seq![(key, value)] + s.drop_first());
        assert(seq![(key, value)] + s.drop_first() =~= s.update(0, (key, value)));
    } else {
        lemma_storage_update_at(s.drop_first(), key, value, i - 1);
        assert(seq![s[0]] + s.drop_first().update(i - 1, (key, value)) =~= s.update(
            i,
            (key, value),
        ));
    }
}

/// Appending realizes the storage update when `key` is absent.
proof fn lemma_storage_update_absent(s: Seq<(Seq<u8>, Seq<u8>)>, key: Seq<u8>, value: Seq<u8>)
    requires
        forall|k: int| 0 <= k < s.len() ==> #[trigger] s[k].0 != key,
    ensures
        storage_update(s, key, value) == s.push((key, value)),
    decreases s.len(),
{
    if s.len() == 0 {
        assert(storage_update(s, key, value) =~= s.push((key, value)));
    } else {
        lemma_storage_update_absent(s.drop_first(), key, value);
        assert(seq![s[0]] + s.drop_first().push((key, value)) =~= s.push((key, value)));
    }
}

/// The value just stored under a key is the one a lookup finds.
pub proof fn lemma_lookup_after_update(s: Seq<(Seq<u8>, Seq<u8>)>, key: Seq<u8>, value: Seq<u8>)
    ensures
        storage_lookup(storage_update(s, key, value), key) == Some(value),
    decreases s.len(),
{
    if s.len() == 0 {
        let u = storage_update(s, key, value);
        assert(u[0] == (key, value));
    } else if s[0].0 == key {
        let u = storage_update(s, key, value);
        assert(u[0] == (key, value));
    } else {
        lemma_lookup_after_update(s.drop_first(), key, value);
        let u = storage_update(s, key, value);
        assert(u[0] == s[0]);
        assert(u.drop_first() =~= storage_update(s.drop_first(), key, value));
    }
}

/// Unwrapping that demands proof that the value is there.
pub trait SdkUnwrap<T> {
    /// True when a value can be taken.
    spec fn can_unwrap(&self) -> bool;

    /// The value that will be taken.
    spec fn unwrapped(&self) -> T;

    /// Takes the value.
    fn sdk_unwrap(self) -> (r: T)
        requires
            self.can_unwrap(),
        ensures
            r == self.unwrapped(),
    ;
}

impl<T> SdkUnwrap<T> for Result<T, ContractError> {
    open spec fn can_unwrap(&self) -> bool {
        self is Ok
    }

    open spec fn unwrapped(&self) -> T {
        self->Ok_0
    }

    fn sdk_unwrap(self) -> (r: T) {
        match self {
            Ok(t) => t,
            Err(_) => vstd::pervasive::unreached(),
        }
    }
}

/// Unwrapping with a diagnostic, which demands proof that the value is there.
pub trait SdkExpect<T> {
    /// True when a value can be taken.
    spec fn can_expect(&self) -> bool;

    /// The value that will be taken.
    spec fn expected(&self) -> T;

    /// Takes the value; `msg` names what is missing when it is not there.
    fn sdk_expect(self, msg: &str) -> (r: T)
        requires
            self.can_expect(),
        ensures
            r == self.expected(),
    ;
}

impl<T> SdkExpect<T> for Option<T> {
    open spec fn can_expect(&self) -> bool {
        self is Some
    }

    open spec fn expected(&self) -> T {
        self->0
    }

    fn sdk_expect(self, msg: &str) -> (r: T) {
        match self {
            Some(t) => t,
            None => vstd::pervasive::unreached(),
        }
    }
}

} // verus!
