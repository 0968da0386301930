use vstd::prelude::*;

verus! {

/// The length in bytes of a destination address.
pub const ADDRESS_BYTES_LEN: usize = 20;

/// A fixed twenty-byte destination address on the target network.
#[derive(Debug, Clone, Copy, Eq, PartialEq, Ord, PartialOrd)]
pub struct Address(pub [u8; 20]);

impl View for Address {
    type V = Seq<u8>;

    open spec fn view(&self) -> Seq<u8> {
        self.0@
    }
}

} // verus!
