//! Opaque account handles.
//!
//! The hosting environment identifies callers and accounts by an opaque,
//! unforgeable handle. The registry never inspects such a handle beyond
//! comparing it for equality, so it is held here as its raw bytes; the
//! mathematical value of an identity is that byte sequence.

use vstd::prelude::*;

verus! {

/// An opaque handle identifying a caller or account (issuer, holder or
/// custodian). Its abstract value is its byte sequence.
pub struct Identity {
    bytes: Vec<u8>,
}

impl View for Identity {
    type V = Seq<u8>;

    closed spec fn view(&self) -> Seq<u8> {
        self.bytes@
    }
}

impl Identity {
    /// Wraps the raw bytes of a host-supplied handle.
    pub fn from_bytes(bytes: Vec<u8>) -> (r: Self)
        ensures
            r@ == bytes@,
    {
        Identity { bytes }
    }

    /// The sentinel "no identity" value: the empty byte sequence. A burned
    /// certificate's holder field is cleared to this value.
    pub fn none() -> (r: Self)
        ensures
            r@ == Seq::<u8>::empty(),
    {
        Identity { bytes: Vec::new() }
    }

    /// The raw bytes of the handle.
    pub fn as_bytes(&self) -> (r: &Vec<u8>)
        ensures
            r@ == self@,
    {
        &self.bytes
    }

    /// Equality of handles is equality of their byte sequences.
    pub fn same_as(&self, other: &Self) -> (r: bool)
        ensures
            r == (self@ == other@),
    {
        let r = self.bytes == other.bytes;
        proof {
            if r {
                assert(self.bytes@ =~= other.bytes@);
            }
        }
        r
    }
}

impl Clone for Identity {
    fn clone(&self) -> (r: Self)
        ensures
            r@ == self@,
    {
        let bytes = self.bytes.clone();
        proof {
            assert(bytes@ =~= self.bytes@);
        }
        Identity { bytes }
    }
}

} // verus!
