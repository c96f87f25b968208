//! The public key package of a group.

use crate::identity::Identity;
use crate::primitive::GroupPublicKey;
use vstd::prelude::*;

verus! {

/// What anyone needs in order to verify the signatures of a group: the public
/// material of the secret sharing, the identities that the key was split
/// among, and the threshold.
pub struct PublicKeyPackage {
    frost_public_key_package: GroupPublicKey,
    identities: Vec<Identity>,
    min_signers: u16,
}

impl PublicKeyPackage {
    /// The roster: the identities that the key was split among, in the order
    /// in which they were given.
    pub closed spec fn roster(&self) -> Seq<Identity> {
        self.identities@
    }

    /// The number of participants that it takes to sign.
    pub closed spec fn threshold(&self) -> u16 {
        self.min_signers
    }

    /// The public material of the secret sharing.
    pub closed spec fn group(&self) -> GroupPublicKey {
        self.frost_public_key_package
    }

    /// The package of a group, from its public material, its roster and its
    /// threshold.
    pub fn from_frost(
        frost_public_key_package: GroupPublicKey,
        identities: Vec<Identity>,
        min_signers: u16,
    ) -> (package: PublicKeyPackage)
        ensures
            package.group() == frost_public_key_package,
            package.roster() == identities@,
            package.threshold() == min_signers,
    {
        PublicKeyPackage { frost_public_key_package, identities, min_signers }
    }

    /// The roster.
    pub fn identities(&self) -> (identities: &Vec<Identity>)
        ensures
            identities@ == self.roster(),
    {
        &self.identities
    }

    /// The number of participants that it takes to sign.
    pub fn min_signers(&self) -> (min_signers: u16)
        ensures
            min_signers == self.threshold(),
    {
        self.min_signers
    }

    /// The public material of the secret sharing.
    pub fn frost_public_key_package(&self) -> (group: &GroupPublicKey)
        ensures
            *group == self.group(),
    {
        &self.frost_public_key_package
    }

    /// Whether `identity` is on the roster.
    pub fn has_member(&self, identity: &Identity) -> (member: bool)
        ensures
            member == exists|i: int|
                0 <= i < self.roster().len() && (#[trigger] self.roster()[i])@ == identity@,
    {
        let mut i: usize = 0;
        while i < self.identities.len()
            invariant
                i <= self.identities.len(),
                forall|k: int| 0 <= k < i ==> (#[trigger] self.identities@[k])@ != identity@,
            decreases self.identities.len() - i,
        {
            if self.identities[i] == *identity {
                proof {
                    assert(self.roster()[i as int]@ == identity@);
                }
                return true;
            }
            i = i + 1;
        }
        false
    }
}

} // verus!
