use vstd::prelude::*;

verus! {

/// Failure codes of the relay, the factory and their helpers.
///
/// Each variant stands for one terminal abort of the current invocation.
/// `as_ref` yields the diagnostic code that the host reports to the caller.
#[derive(Debug, PartialEq, Eq, Clone, Copy)]
pub enum ContractError {
    /// A string is not a well-formed account identifier.
    ParseAccountError,
    /// Input or a stored record does not decode as the expected binary layout.
    BorshDeserializeError,
    /// A value could not be encoded into its bounded buffer.
    BorshSerializeError,
    /// A state-changing entry point was called without exactly one attached unit.
    OneYoctoAttachError,
    /// A callback-only entry point was called by an account other than the actor itself.
    PrivateCallError,
    /// Bytes that should hold text are not valid UTF-8.
    BadUtf8String,
    /// Text that should hold a decimal integer does not parse as one.
    BadNumber,
    /// The actor's configuration record already exists.
    AlreadyInitialized,
    /// The actor's configuration record is missing.
    StateNotFound,
    /// No result exists at the polled promise index.
    PromiseResultMissing,
    /// The polled promise has not resolved yet.
    PromiseNotReady,
    /// The polled promise resolved as a failure.
    PromiseFailed,
    /// The actor's balance does not exceed the reserved minimum.
    InsufficientBalance,
    /// The quoted fee's true percentage of the amount exceeds the fixed ceiling.
    FeeBoundExceeded,
    /// The actor's identifier prefix does not match the one derived from its configuration.
    IdentityMismatch,
}

impl ContractError {
    /// The diagnostic code reported to the caller on this error.
    pub fn as_ref(&self) -> (r: &'static str)
        ensures
            r@ == self.code(),
    {
        match self {
            Self::ParseAccountError => "ERR_PARS_ACCOUNT",
            Self::BorshDeserializeError => "ERR_BORCH_DESERIALIZE",
            Self::BorshSerializeError => "ERR_BORCH_SERIALIZE",
            Self::OneYoctoAttachError => "ERR_ONE_YOCTO_ATACH",
            Self::PrivateCallError => "ERR_PRIVATE_CALL",
            Self::BadUtf8String => "ERR_BAD_UTF8_STRING",
            Self::BadNumber => "ERR_BAD_NUMBER",
            Self::AlreadyInitialized => "ERR_ALREADY_INITIALIZED",
            Self::StateNotFound => "No state",
            Self::PromiseResultMissing => "No promise result",
            Self::PromiseNotReady => "FEE RESULT IS NOT READY",
            Self::PromiseFailed => "FEE RESULT IS NOT READY",
            Self::InsufficientBalance => "Too low balance",
            Self::FeeBoundExceeded => "ERR_FEE_EXCEEDS_BOUND",
            Self::IdentityMismatch => "ERR_WRONG_FORWARDER_ID",
        }
    }

    /// The diagnostic code of this error, as a sequence of characters.
    pub open spec fn code(self) -> Seq<char> {
        match self {
            Self::ParseAccountError => "ERR_PARS_ACCOUNT"@,
            Self::BorshDeserializeError => "ERR_BORCH_DESERIALIZE"@,
            Self::BorshSerializeError => "ERR_BORCH_SERIALIZE"@,
            Self::OneYoctoAttachError => "ERR_ONE_YOCTO_ATACH"@,
            Self::PrivateCallError => "ERR_PRIVATE_CALL"@,
            Self::BadUtf8String => "ERR_BAD_UTF8_STRING"@,
            Self::BadNumber => "ERR_BAD_NUMBER"@,
            Self::AlreadyInitialized => "ERR_ALREADY_INITIALIZED"@,
            Self::StateNotFound => "No state"@,
            Self::PromiseResultMissing => "No promise result"@,
            Self::PromiseNotReady => "FEE RESULT IS NOT READY"@,
            Self::PromiseFailed => "FEE RESULT IS NOT READY"@,
            Self::InsufficientBalance => "Too low balance"@,
            Self::FeeBoundExceeded => "ERR_FEE_EXCEEDS_BOUND"@,
            Self::IdentityMismatch => "ERR_WRONG_FORWARDER_ID"@,
        }
    }
}

} // verus!
