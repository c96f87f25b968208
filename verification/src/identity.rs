//! Participant identities.
//!
//! To this library an identity is a token: the fixed-length serialization of a
//! participant's public identity. Two identities are the same participant
//! exactly when their bytes agree. What the bytes hold, and whether the
//! signature among them is good, is the business of whoever made them.

use vstd::prelude::*;

verus! {

/// The length of a serialized identity.
pub const IDENTITY_LEN: usize = 129;

/// A participant, named by the serialization of their public identity.
#[derive(Clone, Copy, Debug, Hash)]
pub struct Identity {
    bytes: [u8; IDENTITY_LEN],
}

impl View for Identity {
    type V = Seq<u8>;

    closed spec fn view(&self) -> Seq<u8> {
        self.bytes@
    }
}

impl Identity {
    /// The identity with the given serialization.
    pub fn new(bytes: [u8; IDENTITY_LEN]) -> (identity: Identity)
        ensures
            identity@ == bytes@,
    {
        Identity { bytes }
    }

    /// The serialization of this identity.
    pub fn serialize(&self) -> (bytes: [u8; IDENTITY_LEN])
        ensures
            bytes@ == self@,
    {
        self.bytes
    }

    /// The serialization of this identity, borrowed.
    pub fn as_bytes(&self) -> (bytes: &[u8; IDENTITY_LEN])
        ensures
            bytes@ == self@,
    {
        &self.bytes
    }
}

impl PartialEq for Identity {
    fn eq(&self, other: &Identity) -> (same: bool) {
        let mut i: usize = 0;
        while i < IDENTITY_LEN
            invariant
                i <= IDENTITY_LEN,
                forall|k: int| 0 <= k < i ==> self.bytes@[k] == other.bytes@[k],
            decreases IDENTITY_LEN - i,
        {
            if self.bytes[i] != other.bytes[i] {
                return false;
            }
            i = i + 1;
        }
        proof {
            assert(self.bytes@ =~= other.bytes@);
        }
        true
    }
}

impl vstd::std_specs::cmp::PartialEqSpecImpl for Identity {
    open spec fn obeys_eq_spec() -> bool {
        true
    }

    open spec fn eq_spec(&self, other: &Identity) -> bool {
        self@ == other@
    }
}

impl Eq for Identity {

}

} // verus!
