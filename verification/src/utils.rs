use vstd::prelude::*;
use vstd::string::*;
use vstd::utf8::*;

use crate::types::account_id::AccountId;
use crate::wire::{
    all_ascii, bytes_to_string, lemma_ascii_valid_utf8, lower_byte, lower_bytes, push_slice,
    strip_hex_prefix, strip_hex_prefix_start, to_lower_bytes,
};

verus! {

/// The Keccak-256 digest of the input bytes.
pub uninterp spec fn keccak256_of(input: Seq<u8>) -> Seq<u8>;

/// The base-58 rendering of the input bytes, in the standard alphabet.
pub uninterp spec fn base58_of(input: Seq<u8>) -> Seq<u8>;

/// Relies on `near_sdk_env::keccak256_array`: the Keccak-256 digest of the
/// input bytes, thirty-two of them, a function of the input alone.
#[verifier::external_body]
fn keccak256(input: &[u8]) -> (r: [u8; 32])
    ensures
        r@ == keccak256_of(input@),
{
    near_sdk_env::keccak256_array(input)
}

/// True when `b` is a character of the standard base-58 alphabet: a digit or
/// letter, leaving out zero, capital i, capital o and lowercase l.
pub open spec fn is_base58_byte(b: u8) -> bool {
    (49 <= b <= 57) || (65 <= b <= 72) || (74 <= b <= 78) || (80 <= b <= 90) || (97 <= b <= 107)
        || (109 <= b <= 122)
}

/// Relies on `bs58::encode(..).into_vec()`: the base-58 rendering of the
/// input in the standard alphabet, a function of the input alone. Its
/// characters come from that alphabet; a nonempty input gives at least one
/// character, and never more than half again as many as there are bytes.
#[verifier::external_body]
fn bs58_encode(input: &[u8]) -> (r: Vec<u8>)
    ensures
        r@ == base58_of(input@),
        forall|i: int| 0 <= i < r@.len() ==> is_base58_byte(#[trigger] r@[i]),
        input@.len() > 0 ==> r@.len() >= 1,
        r@.len() <= input@.len() + (input@.len() + 1) / 2,
{
    bs58::encode(input).into_vec()
}

/// The concatenation that is hashed to derive a relay actor's name: the
/// destination address bytes with any leading "0x" stripped, the target
/// network, and the pricing actor.
pub open spec fn prefix_input(address: Seq<u8>, network: Seq<u8>, fees: Seq<u8>) -> Seq<u8> {
    strip_hex_prefix(address) + network + fees
}

/// A relay actor's name prefix: the lowercased base-58 rendering of the
/// Keccak-256 digest of the concatenated inputs.
pub open spec fn forwarder_prefix_bytes(
    address: Seq<u8>,
    network: Seq<u8>,
    fees: Seq<u8>,
) -> Seq<u8> {
    lower_bytes(base58_of(keccak256_of(prefix_input(address, network, fees))))
}

/// Derives a relay actor's name prefix from the raw parts.
pub fn forwarder_prefix_parts(address: &[u8], network: &AccountId, fees: &AccountId) -> (r: Vec<
    u8,
>)
    ensures
        r@ == forwarder_prefix_bytes(address@, network@, fees@),
        all_ascii(r@),
        address@.len() > 0 || network@.len() > 0 || fees@.len() > 0 ==> r@.len() >= 1,
{
    let start = strip_hex_prefix_start(address);
    let alen: usize = address.len();
    let stripped = vstd::slice::slice_subrange(address, start, alen);
    let mut input: Vec<u8> = Vec::new();
    push_slice(&mut input, stripped);
    push_slice(&mut input, network.as_bytes());
    push_slice(&mut input, fees.as_bytes());
    proof {
        assert(input@ =~= prefix_input(address@, network@, fees@));
    }
    let digest = keccak256(input.as_slice());
    let encoded = bs58_encode(digest.as_slice());
    let lowered = to_lower_bytes(encoded.as_slice());
    proof {
        assert forall|i: int| 0 <= i < lowered@.len() implies lowered@[i] < 128 by {
            assert(is_base58_byte(encoded@[i]));
            assert(lowered@[i] == lower_byte(encoded@[i]));
        }
        assert(digest@.len() == 32);
    }
    lowered
}

/// Creates a prefix for the relay actor's identifier.
///
/// Pure and total: the same address, network and pricing actor always yield
/// the same prefix, and its lowercasing makes it case-insensitively
/// comparable.
pub fn forwarder_prefix(address: &str, target_network: &AccountId, fees_contract_id: &AccountId)
    -> (r: String)
    ensures
        encode_utf8(r@) == forwarder_prefix_bytes(
            address.spec_bytes(),
            target_network@,
            fees_contract_id@,
        ),
{
    let bytes = forwarder_prefix_parts(address.as_bytes(), target_network, fees_contract_id);
    proof {
        lemma_ascii_valid_utf8(bytes@);
    }
    match bytes_to_string(bytes.as_slice()) {
        Some(t) => t,
        None => {
            proof {
                assert(false);
            }
            String::new()
        },
    }
}

/// Folding to lowercase twice folds once: the fold is idempotent.
pub proof fn lemma_lower_idempotent(s: Seq<u8>)
    ensures
        lower_bytes(lower_bytes(s)) == lower_bytes(s),
{
    assert forall|i: int| 0 <= i < s.len() implies lower_bytes(lower_bytes(s))[i] == lower_bytes(
        s,
    )[i] by {
        assert(lower_bytes(s)[i] == lower_byte(s[i]));
    }
    assert(lower_bytes(lower_bytes(s)) =~= lower_bytes(s));
}

/// The prefix derivation is deterministic: the same three inputs always give
/// the same prefix, in any two derivations.
pub proof fn lemma_prefix_deterministic(
    a1: Seq<u8>,
    n1: Seq<u8>,
    f1: Seq<u8>,
    a2: Seq<u8>,
    n2: Seq<u8>,
    f2: Seq<u8>,
)
    requires
        a1 == a2,
        n1 == n2,
        f1 == f2,
    ensures
        forwarder_prefix_bytes(a1, n1, f1) == forwarder_prefix_bytes(a2, n2, f2),
{
}

/// The prefix is case-stable: it is already lowercase, so folding it again
/// changes nothing and comparisons may ignore case.
pub proof fn lemma_prefix_case_stable(a: Seq<u8>, n: Seq<u8>, f: Seq<u8>)
    ensures
        lower_bytes(forwarder_prefix_bytes(a, n, f)) == forwarder_prefix_bytes(a, n, f),
{
    lemma_lower_idempotent(base58_of(keccak256_of(prefix_input(a, n, f))));
}

/// The position of the first dot of `s`, or its length when there is none.
pub open spec fn first_dot(s: Seq<u8>) -> int
    decreases s.len(),
{
    if s.len() == 0 {
        0
    } else if s[0] == 46 {
        0
    } else {
        1 + first_dot(s.drop_first())
    }
}

/// The part of a hierarchical name before its first dot.
pub open spec fn first_segment(s: Seq<u8>) -> Seq<u8> {
    s.subrange(0, first_dot(s))
}

/// The first dot sits where no byte before it is a dot and the byte there,
/// if any, is one.
pub proof fn lemma_first_dot_at(s: Seq<u8>, i: int)
    requires
        0 <= i <= s.len(),
        forall|k: int| 0 <= k < i ==> s[k] != 46,
        i == s.len() || s[i] == 46,
    ensures
        first_dot(s) == i,
    decreases i,
{
    if i > 0 {
        assert(s[0] != 46);
        lemma_first_dot_at(s.drop_first(), i - 1);
    }
}

/// Finds the end of the first segment of a hierarchical name.
pub fn find_first_dot(bytes: &[u8]) -> (r: usize)
    ensures
        r as int == first_dot(bytes@),
        r <= bytes@.len(),
{
    let blen: usize = bytes.len();
    let mut i: usize = 0;
    while i < blen
        invariant
            i <= blen,
            blen == bytes@.len(),
            forall|k: int| 0 <= k < i ==> bytes@[k] != 46,
        decreases blen - i,
    {
        if bytes[i] == 46 {
            proof {
                lemma_first_dot_at(bytes@, i as int);
            }
            return i;
        }
        i = i + 1;
    }
    proof {
        lemma_first_dot_at(bytes@, blen as int);
    }
    blen
}

} // verus!
