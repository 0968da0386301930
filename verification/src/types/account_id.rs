use vstd::prelude::*;
use vstd::string::*;
use vstd::utf8::*;

use crate::error::ContractError;
use crate::wire::{all_ascii, bytes_to_string, lemma_ascii_valid_utf8};

verus! {

/// The least and greatest lengths of a well-formed account identifier.
pub const MIN_ACCOUNT_ID_LEN: usize = 2;

pub const MAX_ACCOUNT_ID_LEN: usize = 64;

/// True when `b` is a lowercase letter or a digit.
pub open spec fn is_account_char(b: u8) -> bool {
    (97 <= b <= 122) || (48 <= b <= 57)
}

/// True when `b` is one of the separators `-`, `_` or `.`.
pub open spec fn is_separator_char(b: u8) -> bool {
    b == 45 || b == 95 || b == 46
}

/// True when the bytes `s` form a well-formed account identifier: between two
/// and sixty-four characters, each a lowercase letter, a digit or a separator,
/// with no separator adjacent to another, leading, or trailing.
pub open spec fn valid_account_seq(s: Seq<u8>) -> bool {
    &&& MIN_ACCOUNT_ID_LEN <= s.len() <= MAX_ACCOUNT_ID_LEN
    &&& forall|i: int|
        0 <= i < s.len() ==> is_account_char(#[trigger] s[i]) || is_separator_char(s[i])
    &&& forall|i: int|
        0 <= i < s.len() - 1 ==> !(is_separator_char(#[trigger] s[i]) && is_separator_char(
            s[i + 1],
        ))
    &&& !is_separator_char(s[0])
    &&& !is_separator_char(s[s.len() - 1])
}

/// A well-formed account identifier is all ASCII.
pub proof fn lemma_valid_account_ascii(s: Seq<u8>)
    requires
        valid_account_seq(s),
    ensures
        all_ascii(s),
{
    assert forall|i: int| 0 <= i < s.len() implies s[i] < 128 by {
        assert(is_account_char(s[i]) || is_separator_char(s[i]));
    }
}

/// An actor identifier: a bounded string over a restricted alphabet.
#[derive(Debug, PartialEq, Eq)]
pub struct AccountId {
    bytes: Vec<u8>,
}

impl View for AccountId {
    type V = Seq<u8>;

    closed spec fn view(&self) -> Seq<u8> {
        self.bytes@
    }
}

impl Clone for AccountId {
    fn clone(&self) -> (r: Self)
        ensures
            r@ == self@,
    {
        AccountId { bytes: vstd::slice::slice_to_vec(self.bytes.as_slice()) }
    }
}

impl AccountId {
    /// True when this identifier is well-formed.
    pub open spec fn wf(self) -> bool {
        valid_account_seq(self@)
    }

    /// Builds an identifier from text, rejecting anything not well-formed.
    pub fn new(account_id: &str) -> (r: Result<Self, ContractError>)
        ensures
            match r {
                Ok(id) => id@ == account_id.spec_bytes() && id.wf(),
                Err(e) => !valid_account_seq(account_id.spec_bytes())
                    && e == ContractError::ParseAccountError,
            },
    {
        let bytes = account_id.as_bytes();
        if validate_account_bytes(bytes) {
            Ok(AccountId { bytes: vstd::slice::slice_to_vec(bytes) })
        } else {
            Err(ContractError::ParseAccountError)
        }
    }

    /// Builds an identifier from raw bytes, rejecting anything not well-formed.
    pub fn from_bytes(bytes: &[u8]) -> (r: Result<Self, ContractError>)
        ensures
            match r {
                Ok(id) => id@ == bytes@ && id.wf(),
                Err(e) => !valid_account_seq(bytes@) && e == ContractError::ParseAccountError,
            },
    {
        if validate_account_bytes(bytes) {
            Ok(AccountId { bytes: vstd::slice::slice_to_vec(bytes) })
        } else {
            Err(ContractError::ParseAccountError)
        }
    }

    /// The identifier's bytes.
    pub fn as_bytes(&self) -> (r: &[u8])
        ensures
            r@ == self@,
    {
        self.bytes.as_slice()
    }

    /// The identifier's text.
    pub fn as_str(&self) -> (r: String)
        requires
            self.wf(),
        ensures
            encode_utf8(r@) == self@,
    {
        proof {
            lemma_valid_account_ascii(self@);
            lemma_ascii_valid_utf8(self@);
        }
        match bytes_to_string(self.bytes.as_slice()) {
            Some(t) => t,
            None => {
                proof {
                    assert(false);
                }
                String::new()
            },
        }
    }

    /// Checks that text is a well-formed account identifier.
    pub fn validate(account_id: &str) -> (r: Result<(), ContractError>)
        ensures
            match r {
                Ok(()) => valid_account_seq(account_id.spec_bytes()),
                Err(e) => !valid_account_seq(account_id.spec_bytes()) && e
                    == ContractError::ParseAccountError,
            },
    {
        if validate_account_bytes(account_id.as_bytes()) {
            Ok(())
        } else {
            Err(ContractError::ParseAccountError)
        }
    }
}

/// Whether `bytes` is a well-formed account identifier.
///
/// The shape is the hierarchical-namespace rule: runs of lowercase letters and
/// digits joined by single separators, checked against the previous character
/// only, so one pass suffices.
pub fn validate_account_bytes(bytes: &[u8]) -> (r: bool)
    ensures
        r == valid_account_seq(bytes@),
{
    let blen: usize = bytes.len();
    if blen < MIN_ACCOUNT_ID_LEN || blen > MAX_ACCOUNT_ID_LEN {
        return false;
    }
    let mut last_char_is_separator = true;
    let mut i: usize = 0;
    while i < blen
        invariant
            i <= blen,
            blen == bytes@.len(),
            MIN_ACCOUNT_ID_LEN <= blen <= MAX_ACCOUNT_ID_LEN,
            forall|k: int|
                0 <= k < i ==> is_account_char(#[trigger] bytes@[k]) || is_separator_char(
                    bytes@[k],
                ),
            forall|k: int|
                0 <= k < i - 1 ==> !(is_separator_char(#[trigger] bytes@[k]) && is_separator_char(
                    bytes@[k + 1],
                )),
            i == 0 ==> last_char_is_separator,
            i > 0 ==> last_char_is_separator == is_separator_char(bytes@[i - 1]),
            i > 0 ==> !is_separator_char(bytes@[0]),
        decreases blen - i,
    {
        let c = bytes[i];
        let current_char_is_separator = if (97 <= c && c <= 122) || (48 <= c && c <= 57) {
            false
        } else if c == 45 || c == 95 || c == 46 {
            true
        } else {
            proof {
                assert(!(is_account_char(bytes@[i as int]) || is_separator_char(
                    bytes@[i as int],
                )));
            }
            return false;
        };
        if current_char_is_separator && last_char_is_separator {
            return false;
        }
        last_char_is_separator = current_char_is_separator;
        i = i + 1;
    }
    !last_char_is_separator
}

} // verus!
