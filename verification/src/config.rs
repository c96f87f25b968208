//! What a split is asked to do.

use crate::error::ErrorKind;
use crate::error::SplitSecretError;
use crate::identity::Identity;
use crate::mapping::distinct_identities;
use crate::mapping::mapping_error;
use crate::mapping::IdentifierMapping;
use vstd::prelude::*;

verus! {

/// The length of an encoded spend authorizing key.
pub const SPENDER_KEY_LEN: usize = 32;

/// The smallest threshold that a split accepts: with a threshold of one every
/// share would be the key.
pub const MIN_THRESHOLD: u16 = 2;

/// The input of a split: the key, the participants who are to hold a share of
/// it, and how many of them it takes to use it.
pub struct SecretShareConfig {
    /// The number of participants that it takes to sign.
    pub min_signers: u16,
    /// The participants, none of them twice.
    pub identities: Vec<Identity>,
    /// The encoding of the spend authorizing key, the scalar that is split.
    pub spender_key: [u8; SPENDER_KEY_LEN],
}

/// What is wrong with a threshold of `min_signers` among `participants`
/// participants, if anything: the number of participants has to fit a 16-bit
/// count, and the threshold lies between two and that number.
pub open spec fn count_error(min_signers: u16, participants: nat) -> Option<SplitSecretError> {
    if participants > u16::MAX {
        Some(SplitSecretError::TooManyParticipants)
    } else if min_signers < MIN_THRESHOLD || min_signers > participants {
        Some(SplitSecretError::InvalidMinSigners)
    } else {
        None
    }
}

impl SecretShareConfig {
    /// Why this configuration is refused, if it is: the counts are looked at
    /// first, then the identities and their identifiers.
    pub open spec fn configuration_error(&self) -> Option<SplitSecretError> {
        match count_error(self.min_signers, self.identities@.len()) {
            Some(e) => Some(e),
            None => mapping_error(self.identities@),
        }
    }

    /// The number of participants as the secret sharing counts them, unless
    /// the number or the threshold is out of range.
    pub fn max_signers(&self) -> (r: Result<u16, SplitSecretError>)
        ensures
            match r {
                Ok(n) => {
                    &&& count_error(self.min_signers, self.identities@.len()) is None
                    &&& n == self.identities@.len()
                },
                Err(e) => count_error(self.min_signers, self.identities@.len()) == Some(e),
            },
    {
        let n: usize = self.identities.len();
        if n > 0xffff {
            return Err(SplitSecretError::TooManyParticipants);
        }
        let max_signers: u16 = n as u16;
        if self.min_signers < MIN_THRESHOLD || self.min_signers > max_signers {
            return Err(SplitSecretError::InvalidMinSigners);
        }
        Ok(max_signers)
    }

    /// Validates the configuration and makes the mapping between its identities
    /// and their identifiers. Nothing is read of the key.
    pub fn validate(&self) -> (r: Result<IdentifierMapping, SplitSecretError>)
        ensures
            match r {
                Ok(mapping) => {
                    &&& self.configuration_error() is None
                    &&& mapping.wf()
                    &&& mapping.derived()
                    &&& mapping.identities() == self.identities@
                },
                Err(e) => self.configuration_error() == Some(e),
            },
    {
        match self.max_signers() {
            Ok(_) => IdentifierMapping::build(&self.identities),
            Err(e) => Err(e),
        }
    }

    /// Whatever a configuration is refused for, the refusal is a
    /// configuration error.
    pub proof fn lemma_refusal_is_configuration_error(&self)
        requires
            self.configuration_error() is Some,
        ensures
            self.configuration_error().unwrap().spec_kind() == ErrorKind::Configuration,
    {
    }

    /// A threshold below two, or above the number of identities, is refused.
    pub proof fn lemma_invalid_threshold_is_refused(&self)
        requires
            self.min_signers < 2 || self.min_signers > self.identities@.len(),
        ensures
            self.configuration_error() is Some,
            self.configuration_error().unwrap().spec_kind() == ErrorKind::Configuration,
    {
    }

    /// A configuration in which an identity occurs twice is refused.
    pub proof fn lemma_repeated_identity_is_refused(&self, i: int, j: int)
        requires
            0 <= i < j < self.identities@.len(),
            self.identities@[i]@ == self.identities@[j]@,
        ensures
            self.configuration_error() is Some,
            self.configuration_error().unwrap().spec_kind() == ErrorKind::Configuration,
    {
        assert(!distinct_identities(self.identities@));
    }

    /// A configuration that is not refused has between two and 65535
    /// identities, none of them twice, and a threshold between two and their
    /// number.
    pub proof fn lemma_accepted_configuration(&self)
        requires
            self.configuration_error() is None,
        ensures
            2 <= self.min_signers <= self.identities@.len() <= u16::MAX,
            distinct_identities(self.identities@),
    {
    }
}

} // verus!
