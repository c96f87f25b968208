//! The ways in which a split can fail.

use ironfish_frost::error::IronfishFrostError;
use vstd::prelude::*;

verus! {

/// Why a split was refused or abandoned. No variant holds secret material, and
/// none comes with a partial result.
#[derive(Debug)]
pub enum SplitSecretError {
    /// There are more identities than a participant count can hold.
    TooManyParticipants,
    /// `min_signers` is below two or above the number of identities.
    InvalidMinSigners,
    /// An identity occurs twice in the configuration.
    DuplicateIdentity,
    /// An identity has no identifier.
    IdentifierDerivation,
    /// Two different identities have the same identifier.
    IdentifierCollision,
    /// The key material is not the encoding of a signing key.
    InvalidSecretKey(IronfishFrostError),
    /// The split itself failed; its error is handed on as it came.
    Split(IronfishFrostError),
    /// A share did not verify against the commitment that it carries.
    InvalidShare(IronfishFrostError),
    /// The split issued a share under an identifier that it was not given, or
    /// two shares under one identifier.
    UnknownIdentifier,
    /// The split issued no share for one of the identifiers that it was given.
    MissingShare,
}

/// The classes of failure.
#[derive(Clone, Copy, Debug, PartialEq, Eq, Structural)]
pub enum ErrorKind {
    /// The configuration is not usable; nothing was computed.
    Configuration,
    /// The key material could not be turned into a signing key.
    KeyDerivation,
    /// The secret sharing failed.
    Primitive,
    /// The sharing and the library disagree on the identifiers: a defect.
    InternalContract,
}

impl SplitSecretError {
    /// The class of this failure.
    pub open spec fn spec_kind(&self) -> ErrorKind {
        match *self {
            SplitSecretError::TooManyParticipants => ErrorKind::Configuration,
            SplitSecretError::InvalidMinSigners => ErrorKind::Configuration,
            SplitSecretError::DuplicateIdentity => ErrorKind::Configuration,
            SplitSecretError::IdentifierDerivation => ErrorKind::Configuration,
            SplitSecretError::IdentifierCollision => ErrorKind::Configuration,
            SplitSecretError::InvalidSecretKey(_) => ErrorKind::KeyDerivation,
            SplitSecretError::Split(_) => ErrorKind::Primitive,
            SplitSecretError::InvalidShare(_) => ErrorKind::Primitive,
            SplitSecretError::UnknownIdentifier => ErrorKind::InternalContract,
            SplitSecretError::MissingShare => ErrorKind::InternalContract,
        }
    }

    /// The class of this failure.
    #[verifier::when_used_as_spec(spec_kind)]
    pub fn kind(&self) -> (k: ErrorKind)
        ensures
            k == self.spec_kind(),
    {
        match self {
            SplitSecretError::TooManyParticipants => ErrorKind::Configuration,
            SplitSecretError::InvalidMinSigners => ErrorKind::Configuration,
            SplitSecretError::DuplicateIdentity => ErrorKind::Configuration,
            SplitSecretError::IdentifierDerivation => ErrorKind::Configuration,
            SplitSecretError::IdentifierCollision => ErrorKind::Configuration,
            SplitSecretError::InvalidSecretKey(_) => ErrorKind::KeyDerivation,
            SplitSecretError::Split(_) => ErrorKind::Primitive,
            SplitSecretError::InvalidShare(_) => ErrorKind::Primitive,
            SplitSecretError::UnknownIdentifier => ErrorKind::InternalContract,
            SplitSecretError::MissingShare => ErrorKind::InternalContract,
        }
    }
}

} // verus!
