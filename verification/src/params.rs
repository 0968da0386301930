use vstd::prelude::*;
use vstd::string::*;
use vstd::utf8::*;

use crate::error::ContractError;
use crate::runtime::{storage_lookup, storage_update, Runtime};
use crate::types::account_id::{valid_account_seq, AccountId};
use crate::types::address::Address;
use crate::wire::{
    all_dec_digits, bytes_to_string, dec_bytes, hex_bytes, is_utf8, le_bytes, le_value,
    lemma_ascii_valid_utf8, lemma_dec_bytes_value, parse_dec_number, push_dec, push_hex,
    push_le_bytes, push_slice, trim_quotes, trim_quotes_range,
};

verus! {

/// The bytes of the string literal `s`.
pub open spec fn lit(s: &str) -> Seq<u8> {
    encode_utf8(s@)
}

/// The key under which the actor's configuration record is stored.
pub open spec fn state_key() -> Seq<u8> {
    lit("FWD_STATE")
}

// ---------------------------------------------------------------------------
// Binary layout
// ---------------------------------------------------------------------------

/// A 32-bit integer on the wire: four little-endian bytes.
pub open spec fn borsh_u32(v: u32) -> Seq<u8> {
    le_bytes(v as nat, 4)
}

/// A 64-bit integer on the wire: eight little-endian bytes.
pub open spec fn borsh_u64(v: u64) -> Seq<u8> {
    le_bytes(v as nat, 8)
}

/// A 128-bit integer on the wire: sixteen little-endian bytes.
pub open spec fn borsh_u128(v: u128) -> Seq<u8> {
    le_bytes(v as nat, 16)
}

/// An account identifier on the wire: its length, then its bytes.
pub open spec fn borsh_account_id(id: Seq<u8>) -> Seq<u8> {
    borsh_u32(id.len() as u32) + id
}

/// The mathematical shape of a configuration record.
pub struct StateView {
    pub target_address: Seq<u8>,
    pub target_network: Seq<u8>,
    pub wnear_contract_id: Seq<u8>,
    pub fees_contract_id: Seq<u8>,
}

/// A configuration record on the wire: the raw address bytes, then the three
/// identifiers.
pub open spec fn state_bytes(s: StateView) -> Seq<u8> {
    s.target_address + borsh_account_id(s.target_network) + borsh_account_id(s.wnear_contract_id)
        + borsh_account_id(s.fees_contract_id)
}

/// The relay actor's immutable configuration, set once at provisioning time.
#[derive(Debug, PartialEq)]
pub struct State {
    /// Destination address on the target network.
    pub target_address: Address,
    /// The target network's own actor.
    pub target_network: AccountId,
    /// The wrapper actor for the native asset.
    pub wnear_contract_id: AccountId,
    /// The pricing actor, which is also the fee sink.
    pub fees_contract_id: AccountId,
}

impl View for State {
    type V = StateView;

    open spec fn view(&self) -> StateView {
        StateView {
            target_address: self.target_address@,
            target_network: self.target_network@,
            wnear_contract_id: self.wnear_contract_id@,
            fees_contract_id: self.fees_contract_id@,
        }
    }
}

impl State {
    /// True when every identifier of the record is well-formed.
    pub open spec fn wf(self) -> bool {
        &&& self.target_network.wf()
        &&& self.wnear_contract_id.wf()
        &&& self.fees_contract_id.wf()
    }

    /// Encodes this record for the wire.
    pub fn to_borsh(&self) -> (r: Vec<u8>)
        requires
            self.wf(),
        ensures
            r@ == state_bytes(self@),
    {
        let mut out: Vec<u8> = Vec::new();
        push_slice(&mut out, self.target_address.0.as_slice());
        push_account_id(&mut out, &self.target_network);
        push_account_id(&mut out, &self.wnear_contract_id);
        push_account_id(&mut out, &self.fees_contract_id);
        proof {
            assert(out@ =~= state_bytes(self@));
        }
        out
    }

    /// Writes this record into the actor's storage.
    pub fn save(&self, io: &mut Runtime)
        requires
            old(io).wf(),
            self.wf(),
        ensures
            final(io).wf(),
            Runtime::same_env(*old(io), *final(io)),
            final(io).promises_view() == old(io).promises_view(),
            final(io).returned == old(io).returned,
            final(io).storage_view() == storage_update(
                old(io).storage_view(),
                state_key(),
                state_bytes(self@),
            ),
    {
        let bytes = self.to_borsh();
        let key = state_key_bytes();
        let _ = io.write_storage(key.as_slice(), bytes.as_slice());
    }

    /// Reads the record back from the actor's storage, if a well-formed one
    /// is there.
    pub fn load(io: &mut Runtime) -> (r: Option<State>)
        requires
            old(io).wf(),
        ensures
            final(io).wf(),
            Runtime::same_env(*old(io), *final(io)),
            Runtime::same_effects(*old(io), *final(io)),
            load_result(storage_lookup(old(io).storage_view(), state_key()), r),
    {
        let key = state_key_bytes();
        match io.read_storage(key.as_slice()) {
            Some(idx) => {
                let bytes = io.read_register(idx);
                parse_state(bytes.as_slice())
            },
            None => None,
        }
    }
}

/// What loading the configuration record must return: the decoded record when
/// one is stored and decodes, and nothing otherwise.
pub open spec fn load_result(stored: Option<Seq<u8>>, r: Option<State>) -> bool {
    match stored {
        Some(bytes) => match parse_state_spec(bytes) {
            Some(sv) => r matches Some(st) && st@ == sv && st.wf(),
            None => r is None,
        },
        None => r is None,
    }
}

/// The storage key of the configuration record.
pub fn state_key_bytes() -> (r: Vec<u8>)
    ensures
        r@ == state_key(),
{
    let mut out: Vec<u8> = Vec::new();
    push_slice(&mut out, "FWD_STATE".as_bytes());
    proof {
        assert(out@ =~= state_key());
    }
    out
}

/// Appends an account identifier in its wire layout.
pub fn push_account_id(out: &mut Vec<u8>, id: &AccountId)
    requires
        id.wf(),
    ensures
        final(out)@ == old(out)@ + borsh_account_id(id@),
{
    let bytes = id.as_bytes();
    let len: usize = bytes.len();
    proof {
        assert(crate::wire::pow256(4) == 0x100000000) by {
            reveal_with_fuel(crate::wire::pow256, 5);
        }
    }
    push_le_bytes(out, len as u128, 4);
    push_slice(out, bytes);
    proof {
        assert(final(out)@ =~= old(out)@ + borsh_account_id(id@));
    }
}

// ---------------------------------------------------------------------------
// Decoding
// ---------------------------------------------------------------------------

/// The account identifier starting at `pos` of `s` on the wire, with the
/// offset after it, when one is there and is well-formed.
pub open spec fn parse_account_at(s: Seq<u8>, pos: int) -> Option<(Seq<u8>, int)> {
    if 0 <= pos && pos + 4 <= s.len() {
        let len = le_value(s.subrange(pos, pos + 4)) as int;
        if 2 <= len <= 64 && pos + 4 + len <= s.len() && valid_account_seq(
            s.subrange(pos + 4, pos + 4 + len),
        ) {
            Some((s.subrange(pos + 4, pos + 4 + len), pos + 4 + len))
        } else {
            None
        }
    } else {
        None
    }
}

/// The configuration record encoded by exactly the whole of `s`, if any.
pub open spec fn parse_state_spec(s: Seq<u8>) -> Option<StateView> {
    if s.len() >= 20 {
        match parse_account_at(s, 20) {
            Some((network, p1)) => match parse_account_at(s, p1) {
                Some((wnear, p2)) => match parse_account_at(s, p2) {
                    Some((fees, p3)) => if p3 == s.len() {
                        Some(
                            StateView {
                                target_address: s.subrange(0, 20),
                                target_network: network,
                                wnear_contract_id: wnear,
                                fees_contract_id: fees,
                            },
                        )
                    } else {
                        None
                    },
                    None => None,
                },
                None => None,
            },
            None => None,
        }
    } else {
        None
    }
}

/// Reads the account identifier starting at `pos` of `bytes`.
pub fn parse_account_id(bytes: &[u8], pos: usize) -> (r: Option<(AccountId, usize)>)
    ensures
        match r {
            Some((id, end)) => parse_account_at(bytes@, pos as int) == Some((id@, end as int))
                && id.wf() && pos <= end <= bytes@.len(),
            None => parse_account_at(bytes@, pos as int) is None,
        },
{
    let blen: usize = bytes.len();
    if pos > blen || blen - pos < 4 {
        return None;
    }
    let len128 = crate::wire::le_chunk_value(bytes, pos, 4);
    proof {
        crate::wire::lemma_le_value_bound(bytes@.subrange(pos as int, pos + 4 as int));
        assert(crate::wire::pow256(4) == 0x100000000) by {
            reveal_with_fuel(crate::wire::pow256, 5);
        }
    }
    let len = len128 as usize;
    if len < 2 || len > 64 {
        return None;
    }
    if blen - pos - 4 < len {
        return None;
    }
    let body = vstd::slice::slice_subrange(bytes, pos + 4, pos + 4 + len);
    match AccountId::from_bytes(body) {
        Ok(id) => Some((id, pos + 4 + len)),
        Err(_) => None,
    }
}

/// Decodes a configuration record from exactly the whole of `bytes`.
pub fn parse_state(bytes: &[u8]) -> (r: Option<State>)
    ensures
        match r {
            Some(st) => parse_state_spec(bytes@) == Some(st@) && st.wf(),
            None => parse_state_spec(bytes@) is None,
        },
{
    let blen: usize = bytes.len();
    if blen < 20 {
        return None;
    }
    let addr_slice = vstd::slice::slice_subrange(bytes, 0, 20);
    let mut addr: [u8; 20] = [0; 20];
    let mut i: usize = 0;
    while i < 20
        invariant
            i <= 20,
            addr_slice@ == bytes@.subrange(0, 20),
            addr_slice@.len() == 20,
            forall|k: int| 0 <= k < i ==> addr@[k] == #[trigger] addr_slice@[k],
        decreases 20 - i,
    {
        addr[i] = addr_slice[i];
        i = i + 1;
    }
    proof {
        assert(addr@ =~= bytes@.subrange(0, 20));
    }
    let (network, p1) = match parse_account_id(bytes, 20) {
        Some(x) => x,
        None => {
            return None;
        },
    };
    let (wnear, p2) = match parse_account_id(bytes, p1) {
        Some(x) => x,
        None => {
            return None;
        },
    };
    let (fees, p3) = match parse_account_id(bytes, p2) {
        Some(x) => x,
        None => {
            return None;
        },
    };
    if p3 != blen {
        return None;
    }
    Some(
        State {
            target_address: Address(addr),
            target_network: network,
            wnear_contract_id: wnear,
            fees_contract_id: fees,
        },
    )
}

/// An account identifier laid down on the wire at `pos` reads back as
/// itself.
proof fn lemma_parse_account_at_encoded(s: Seq<u8>, pos: int, id: Seq<u8>)
    requires
        0 <= pos,
        pos + 4 + id.len() <= s.len(),
        valid_account_seq(id),
        s.subrange(pos, pos + 4 + id.len()) == borsh_account_id(id),
    ensures
        parse_account_at(s, pos) == Some((id, pos + 4 + id.len())),
{
    let enc = borsh_account_id(id);
    assert(s.subrange(pos, pos + 4) =~= enc.subrange(0, 4)) by {
        assert(forall|k: int|
            0 <= k < 4 ==> s.subrange(pos, pos + 4 + id.len() as int)[k] == #[trigger] s[pos + k]);
    }
    assert(enc.subrange(0, 4) =~= le_bytes(id.len() as u32 as nat, 4));
    assert((id.len() as nat) < crate::wire::pow256(4)) by {
        assert(crate::wire::pow256(4) == 0x100000000) by {
            reveal_with_fuel(crate::wire::pow256, 5);
        }
    }
    crate::wire::lemma_le_round_trip(id.len() as nat, 4);
    assert(le_value(s.subrange(pos, pos + 4)) == id.len());
    assert(s.subrange(pos + 4, pos + 4 + id.len() as int) =~= id) by {
        assert(forall|k: int|
            0 <= k < id.len() ==> s.subrange(pos, pos + 4 + id.len() as int)[4 + k]
                == #[trigger] s[pos + 4 + k]);
        assert(forall|k: int| 0 <= k < id.len() ==> enc[4 + k] == #[trigger] id[k]);
    }
}

/// A configuration record laid down on the wire reads back as itself: saving
/// and loading the record round-trips.
pub proof fn lemma_state_round_trip(st: StateView)
    requires
        st.target_address.len() == 20,
        valid_account_seq(st.target_network),
        valid_account_seq(st.wnear_contract_id),
        valid_account_seq(st.fees_contract_id),
    ensures
        parse_state_spec(state_bytes(st)) == Some(st),
{
    let s = state_bytes(st);
    let n1 = st.target_network.len() as int;
    let n2 = st.wnear_contract_id.len() as int;
    let n3 = st.fees_contract_id.len() as int;
    let p1 = 20 + 4 + n1;
    let p2 = p1 + 4 + n2;
    let p3 = p2 + 4 + n3;
    assert(s.len() == p3);
    assert(s.subrange(20, p1) =~= borsh_account_id(st.target_network));
    lemma_parse_account_at_encoded(s, 20, st.target_network);
    assert(s.subrange(p1, p2) =~= borsh_account_id(st.wnear_contract_id));
    lemma_parse_account_at_encoded(s, p1, st.wnear_contract_id);
    assert(s.subrange(p2, p3) =~= borsh_account_id(st.fees_contract_id));
    lemma_parse_account_at_encoded(s, p2, st.fees_contract_id);
    assert(s.subrange(0, 20) =~= st.target_address);
}

/// The relay request: the token whose balance should be relayed.
pub struct ForwardParams {
    pub token_id: AccountId,
}

/// A relay request on the wire: just the token identifier.
pub open spec fn forward_params_bytes(token: Seq<u8>) -> Seq<u8> {
    borsh_account_id(token)
}

/// The relay request encoded by exactly the whole of `s`, if any.
pub open spec fn parse_forward_spec(s: Seq<u8>) -> Option<Seq<u8>> {
    match parse_account_at(s, 0) {
        Some((token, end)) => if end == s.len() {
            Some(token)
        } else {
            None
        },
        None => None,
    }
}

/// Decodes a relay request from exactly the whole of `bytes`.
pub fn parse_forward_params(bytes: &[u8]) -> (r: Option<ForwardParams>)
    ensures
        match r {
            Some(p) => parse_forward_spec(bytes@) == Some(p.token_id@) && p.token_id.wf(),
            None => parse_forward_spec(bytes@) is None,
        },
{
    let blen: usize = bytes.len();
    match parse_account_id(bytes, 0) {
        Some((token_id, end)) => {
            if end == blen {
                Some(ForwardParams { token_id })
            } else {
                None
            }
        },
        None => None,
    }
}

/// The settlement continuation: the amount under transfer, the token, and
/// which joined result holds the fee.
pub struct FinishForwardParams {
    pub amount: u128,
    pub token_id: AccountId,
    pub promise_idx: u64,
}

/// The mathematical shape of a settlement continuation.
pub struct FinishForwardView {
    pub amount: u128,
    pub token_id: Seq<u8>,
    pub promise_idx: u64,
}

impl View for FinishForwardParams {
    type V = FinishForwardView;

    open spec fn view(&self) -> FinishForwardView {
        FinishForwardView {
            amount: self.amount,
            token_id: self.token_id@,
            promise_idx: self.promise_idx,
        }
    }
}

/// A settlement continuation on the wire: amount, token, result index.
pub open spec fn finish_forward_bytes(p: FinishForwardView) -> Seq<u8> {
    borsh_u128(p.amount) + borsh_account_id(p.token_id) + borsh_u64(p.promise_idx)
}

impl FinishForwardParams {
    /// True when the token identifier is well-formed.
    pub open spec fn wf(self) -> bool {
        self.token_id.wf()
    }

    /// Encodes this continuation for the wire.
    pub fn to_borsh(&self) -> (r: Vec<u8>)
        requires
            self.wf(),
        ensures
            r@ == finish_forward_bytes(self@),
    {
        let mut out: Vec<u8> = Vec::new();
        proof {
            crate::wire::lemma_pow256_16();
        }
        push_le_bytes(&mut out, self.amount, 16);
        push_account_id(&mut out, &self.token_id);
        proof {
            assert(crate::wire::pow256(8) == 0x10000000000000000) by {
                reveal_with_fuel(crate::wire::pow256, 9);
            }
        }
        push_le_bytes(&mut out, self.promise_idx as u128, 8);
        proof {
            assert(out@ =~= finish_forward_bytes(self@));
        }
        out
    }
}

/// The settlement continuation encoded by exactly the whole of `s`, if any.
pub open spec fn parse_finish_forward_spec(s: Seq<u8>) -> Option<FinishForwardView> {
    if s.len() >= 16 {
        match parse_account_at(s, 16) {
            Some((token, p1)) => if p1 + 8 == s.len() {
                Some(
                    FinishForwardView {
                        amount: le_value(s.subrange(0, 16)) as u128,
                        token_id: token,
                        promise_idx: le_value(s.subrange(p1, p1 + 8)) as u64,
                    },
                )
            } else {
                None
            },
            None => None,
        }
    } else {
        None
    }
}

/// Decodes a settlement continuation from exactly the whole of `bytes`.
pub fn parse_finish_forward(bytes: &[u8]) -> (r: Option<FinishForwardParams>)
    ensures
        match r {
            Some(p) => parse_finish_forward_spec(bytes@) == Some(p@) && p.wf(),
            None => parse_finish_forward_spec(bytes@) is None,
        },
{
    let blen: usize = bytes.len();
    if blen < 16 {
        return None;
    }
    let amount = crate::wire::le_chunk_value(bytes, 0, 16);
    proof {
        crate::wire::lemma_le_value_bound(bytes@.subrange(0, 16));
        crate::wire::lemma_pow256_16();
    }
    let (token_id, p1) = match parse_account_id(bytes, 16) {
        Some(x) => x,
        None => {
            return None;
        },
    };
    if blen - p1 != 8 {
        return None;
    }
    let idx128 = crate::wire::le_chunk_value(bytes, p1, 8);
    proof {
        crate::wire::lemma_le_value_bound(bytes@.subrange(p1 as int, p1 + 8 as int));
        assert(crate::wire::pow256(8) == 0x10000000000000000) by {
            reveal_with_fuel(crate::wire::pow256, 9);
        }
    }
    Some(FinishForwardParams { amount, token_id, promise_idx: idx128 as u64 })
}

/// The fee for a 128-bit integer on the wire: exactly sixteen bytes.
pub open spec fn parse_borsh_u128_spec(s: Seq<u8>) -> Option<u128> {
    if s.len() == 16 {
        Some(le_value(s) as u128)
    } else {
        None
    }
}

/// Decodes a 128-bit integer from exactly the whole of `bytes`.
pub fn parse_borsh_u128(bytes: &[u8]) -> (r: Option<u128>)
    ensures
        r == parse_borsh_u128_spec(bytes@),
{
    let blen: usize = bytes.len();
    if blen != 16 {
        return None;
    }
    let v = crate::wire::le_chunk_value(bytes, 0, 16);
    proof {
        assert(bytes@.subrange(0, 16) =~= bytes@);
        crate::wire::lemma_le_value_bound(bytes@);
        crate::wire::lemma_pow256_16();
    }
    Some(v)
}

/// Encodes a 128-bit integer for the wire.
pub fn borsh_u128_bytes(v: u128) -> (r: Vec<u8>)
    ensures
        r@ == borsh_u128(v),
{
    let mut out: Vec<u8> = Vec::new();
    proof {
        crate::wire::lemma_pow256_16();
    }
    push_le_bytes(&mut out, v, 16);
    proof {
        assert(out@ =~= borsh_u128(v));
    }
    out
}

/// The pricing request on the wire: amount, token, network, raw address.
pub open spec fn fees_params_bytes(
    amount: u128,
    token: Seq<u8>,
    network: Seq<u8>,
    address: Seq<u8>,
) -> Seq<u8> {
    borsh_u128(amount) + borsh_account_id(token) + borsh_account_id(network) + address
}

/// Encodes the pricing request for the wire.
pub fn fees_params_to_borsh(
    amount: u128,
    token_id: &AccountId,
    target_network: &AccountId,
    target_address: Address,
) -> (r: Vec<u8>)
    requires
        token_id.wf(),
        target_network.wf(),
    ensures
        r@ == fees_params_bytes(amount, token_id@, target_network@, target_address@),
{
    let mut out: Vec<u8> = Vec::new();
    proof {
        crate::wire::lemma_pow256_16();
    }
    push_le_bytes(&mut out, amount, 16);
    push_account_id(&mut out, token_id);
    push_account_id(&mut out, target_network);
    push_slice(&mut out, target_address.0.as_slice());
    proof {
        assert(out@ =~= fees_params_bytes(
            amount,
            token_id@,
            target_network@,
            target_address@,
        ));
    }
    out
}

// ---------------------------------------------------------------------------
// Call payloads
// ---------------------------------------------------------------------------

/// How many bytes a call payload may hold.
pub const PAYLOAD_CAPACITY: usize = 128;

/// The transfer-and-notify payload: receiver, amount, and the destination
/// address as the notification message.
pub open spec fn transfer_call_payload(receiver: Seq<u8>, amount: u128, addr: Seq<u8>) -> Seq<u8> {
    lit("{\"receiver_id\":\"") + receiver + lit("\",\"amount\":\"") + dec_bytes(amount as nat)
        + lit("\",\"msg\":\"") + hex_bytes(addr) + lit("\"}")
}

/// The plain transfer payload: receiver and amount.
pub open spec fn transfer_payload(receiver: Seq<u8>, amount: u128) -> Seq<u8> {
    lit("{\"receiver_id\":\"") + receiver + lit("\",\"amount\":\"") + dec_bytes(amount as nat)
        + lit("\"}")
}

/// The balance-query payload: the owner whose balance is asked.
pub open spec fn balance_payload(owner: Seq<u8>) -> Seq<u8> {
    lit("{\"account_id\":\"") + owner + lit("\"}")
}

/// `payload` when it fits the bounded buffer, and empty bytes otherwise:
/// never a truncated payload.
pub open spec fn bounded_payload(payload: Seq<u8>) -> Seq<u8> {
    if payload.len() <= PAYLOAD_CAPACITY {
        payload
    } else {
        Seq::empty()
    }
}

/// Builds the transfer-and-notify payload, or empty bytes when it cannot fit
/// its bounded buffer. Callers must treat an empty result as a hard failure.
pub fn ft_transfer_call_args(receiver_id: &AccountId, amount: u128, address: Address) -> (r: Vec<
    u8,
>)
    ensures
        r@ == bounded_payload(transfer_call_payload(receiver_id@, amount, address@)),
{
    let mut out: Vec<u8> = Vec::new();
    push_slice(&mut out, "{\"receiver_id\":\"".as_bytes());
    push_slice(&mut out, receiver_id.as_bytes());
    push_slice(&mut out, "\",\"amount\":\"".as_bytes());
    push_dec(&mut out, amount);
    push_slice(&mut out, "\",\"msg\":\"".as_bytes());
    push_hex(&mut out, address.0.as_slice());
    push_slice(&mut out, "\"}".as_bytes());
    proof {
        assert(out@ =~= transfer_call_payload(receiver_id@, amount, address@));
    }
    if out.len() <= PAYLOAD_CAPACITY {
        out
    } else {
        Vec::new()
    }
}

/// Builds the plain transfer payload, or empty bytes when it cannot fit its
/// bounded buffer. Callers must treat an empty result as a hard failure.
pub fn ft_transfer_args(receiver_id: &AccountId, amount: u128) -> (r: Vec<u8>)
    ensures
        r@ == bounded_payload(transfer_payload(receiver_id@, amount)),
{
    let mut out: Vec<u8> = Vec::new();
    push_slice(&mut out, "{\"receiver_id\":\"".as_bytes());
    push_slice(&mut out, receiver_id.as_bytes());
    push_slice(&mut out, "\",\"amount\":\"".as_bytes());
    push_dec(&mut out, amount);
    push_slice(&mut out, "\"}".as_bytes());
    proof {
        assert(out@ =~= transfer_payload(receiver_id@, amount));
    }
    if out.len() <= PAYLOAD_CAPACITY {
        out
    } else {
        Vec::new()
    }
}

/// Builds the balance-query payload, or empty bytes when it cannot fit its
/// bounded buffer. Callers must treat an empty result as a hard failure.
pub fn ft_balance_args(account_id: &AccountId) -> (r: Vec<u8>)
    ensures
        r@ == bounded_payload(balance_payload(account_id@)),
{
    let mut out: Vec<u8> = Vec::new();
    push_slice(&mut out, "{\"account_id\":\"".as_bytes());
    push_slice(&mut out, account_id.as_bytes());
    push_slice(&mut out, "\"}".as_bytes());
    proof {
        assert(out@ =~= balance_payload(account_id@));
    }
    if out.len() <= PAYLOAD_CAPACITY {
        out
    } else {
        Vec::new()
    }
}

// ---------------------------------------------------------------------------
// Numbers as text
// ---------------------------------------------------------------------------

/// Renders an amount in decimal: no leading zeros but for the literal zero.
pub fn amount_to_str(amount: u128) -> (r: String)
    ensures
        encode_utf8(r@) == dec_bytes(amount as nat),
{
    let mut out: Vec<u8> = Vec::new();
    push_dec(&mut out, amount);
    proof {
        lemma_dec_bytes_value(amount as nat);
        assert forall|i: int| 0 <= i < out@.len() implies out@[i] < 128 by {
            assert(crate::wire::is_dec_digit(out@[i]));
        }
        lemma_ascii_valid_utf8(out@);
    }
    match bytes_to_string(out.as_slice()) {
        Some(t) => t,
        None => {
            proof {
                assert(false);
            }
            String::new()
        },
    }
}

/// What parsing an amount out of raw bytes returns: bytes that are not text
/// and text that does not spell an integer fail differently.
pub open spec fn vec_to_number_spec(s: Seq<u8>) -> Result<u128, ContractError> {
    if !valid_utf8(s) {
        Err(ContractError::BadUtf8String)
    } else if crate::wire::is_dec_number(trim_quotes(s)) && crate::wire::dec_number_value(
        trim_quotes(s),
    ) <= u128::MAX {
        Ok(crate::wire::dec_number_value(trim_quotes(s)) as u128)
    } else {
        Err(ContractError::BadNumber)
    }
}

/// Parses a quoted or bare decimal integer from raw bytes, telling bytes that
/// are not text apart from text that is not a number.
pub fn vec_to_number(bytes: &[u8]) -> (r: Result<u128, ContractError>)
    ensures
        r == vec_to_number_spec(bytes@),
{
    if !is_utf8(bytes) {
        return Err(ContractError::BadUtf8String);
    }
    let (lo, hi) = trim_quotes_range(bytes);
    match parse_dec_number(bytes, lo, hi) {
        Some(v) => Ok(v),
        None => Err(ContractError::BadNumber),
    }
}

/// Trimming quotes from digit text changes nothing.
proof fn lemma_trim_quotes_digits(s: Seq<u8>)
    requires
        all_dec_digits(s),
    ensures
        trim_quotes(s) == s,
{
    if s.len() > 0 {
        assert(crate::wire::is_dec_digit(s[0]));
        assert(s[0] != 34);
        assert(crate::wire::is_dec_digit(s.last()));
        assert(s.last() != 34);
    }
    assert(crate::wire::trim_quotes_front(s) == s);
    assert(crate::wire::trim_quotes_back(s) == s);
}

/// Rendering an amount and parsing it back yields the amount: the decimal
/// codec round-trips on every 128-bit value.
pub proof fn lemma_amount_round_trip(v: u128)
    ensures
        vec_to_number_spec(dec_bytes(v as nat)) == Ok::<u128, ContractError>(v),
{
    let s = dec_bytes(v as nat);
    lemma_dec_bytes_value(v as nat);
    assert forall|i: int| 0 <= i < s.len() implies s[i] < 128 by {
        assert(crate::wire::is_dec_digit(s[i]));
    }
    lemma_ascii_valid_utf8(s);
    lemma_trim_quotes_digits(s);
    assert(crate::wire::is_dec_digit(s[0]));
    assert(crate::wire::sign_body(s) == s);
    assert(crate::wire::is_dec_number(s));
    assert(crate::wire::dec_number_value(s) == v);
}

} // verus!
