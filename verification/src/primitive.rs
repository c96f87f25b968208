//! The boundary with the FROST implementation.
//!
//! Nothing in this file is proved. Each function here makes one call into the
//! FROST crates and says in its contract what is believed of that call.
//!
//! The keys, shares and packages of those crates are carried through the
//! library unread. Their types are generic over a ciphersuite, a trait that
//! Verus knows nothing of, so they cannot be declared to it as they are: each
//! is held in a struct of this file whose content Verus does not look into.

use ironfish_frost::error::IronfishFrostError;
use ironfish_frost::frost::keys::IdentifierList;
use ironfish_frost::frost::Identifier;
use rand::CryptoRng;
use rand::RngCore;
use vstd::prelude::*;

verus! {

/// The error type of `ironfish_frost`, which also wraps the errors of the FROST
/// implementation. The library hands such a value on and never reads it.
#[verifier::external_type_specification]
#[verifier::external_body]
pub struct ExIronfishFrostError(IronfishFrostError);

/// A signing key of the FROST implementation, `ironfish_frost::frost::SigningKey`.
/// It does not leave the library.
#[verifier::external_body]
pub(crate) struct SigningKey {
    pub(crate) inner: ironfish_frost::frost::SigningKey,
}

/// One participant's share as the split hands it out,
/// `ironfish_frost::frost::keys::SecretShare`, before it has been verified.
#[verifier::external_body]
pub struct SecretShare {
    pub inner: ironfish_frost::frost::keys::SecretShare,
}

/// One participant's verified key package, `ironfish_frost::frost::keys::KeyPackage`.
#[verifier::external_body]
pub struct KeyPackage {
    pub inner: ironfish_frost::frost::keys::KeyPackage,
}

/// The group's public verification material,
/// `ironfish_frost::frost::keys::PublicKeyPackage`.
#[verifier::external_body]
pub struct GroupPublicKey {
    pub inner: ironfish_frost::frost::keys::PublicKeyPackage,
}

/// A share as it comes back from the split: the encoding of the identifier
/// under which it was issued, and the share itself.
pub struct IssuedShare {
    pub identifier: Vec<u8>,
    pub share: SecretShare,
}

/// The number that a byte string stands for, least byte first.
pub open spec fn le_value(bytes: Seq<u8>) -> nat
    decreases bytes.len(),
{
    if bytes.len() == 0 {
        0
    } else {
        bytes[0] as nat + 256 * le_value(bytes.drop_first())
    }
}

/// The order of the Jubjub scalar field, from its four 64-bit limbs, the least
/// first.
pub open spec fn scalar_modulus() -> nat {
    0xd097_0e5e_d6f7_2cb7nat + 0x1_0000_0000_0000_0000nat * (0xa668_2093_ccc8_1082nat
        + 0x1_0000_0000_0000_0000nat * (0x0667_3b01_0134_3b00nat + 0x1_0000_0000_0000_0000nat
        * 0x0e7d_b4ea_6533_afa9nat))
}

/// Whether a byte string is the encoding of a scalar other than zero: 32
/// bytes that stand, least byte first, for a number below the order of the
/// field.
pub open spec fn encodes_nonzero_scalar(bytes: Seq<u8>) -> bool {
    bytes.len() == 32 && 0 < le_value(bytes) < scalar_modulus()
}

/// Whether `SigningKey::deserialize` accepts a byte string: a signing key is a
/// scalar other than zero.
pub open spec fn is_signing_key(bytes: Seq<u8>) -> bool {
    encodes_nonzero_scalar(bytes)
}

/// Whether `Identifier::deserialize` accepts a byte string: an identifier is a
/// scalar other than zero.
pub open spec fn is_identifier(bytes: Seq<u8>) -> bool {
    encodes_nonzero_scalar(bytes)
}

/// The encoding of the identifier that `Identifier::derive` gives to a byte
/// string, or `None` where it gives none.
pub uninterp spec fn frost_identifier(identity: Seq<u8>) -> Option<Seq<u8>>;

/// What `KeyPackage::try_from` makes of a share: the key package, or the
/// error of the verification.
pub uninterp spec fn verified_package(share: SecretShare) -> Result<KeyPackage, IronfishFrostError>;

/// What a `Vec` of bytes, if any, stands for.
pub open spec fn bytes_view(o: Option<Vec<u8>>) -> Option<Seq<u8>> {
    match o {
        Some(v) => Some(v@),
        None => None,
    }
}

/// What the split asks of its arguments: a threshold between two and the
/// number of signers, and as many identifiers as signers, each the encoding of
/// an identifier and none of them twice.
pub open spec fn split_arguments_in_order(
    max_signers: u16,
    min_signers: u16,
    identifiers: Seq<Vec<u8>>,
) -> bool {
    &&& 2 <= min_signers <= max_signers
    &&& identifiers.len() == max_signers
    &&& forall|i: int|
        0 <= i < identifiers.len() ==> is_identifier((#[trigger] identifiers[i])@)
    &&& forall|i: int, j: int|
        0 <= i < j < identifiers.len() ==> (#[trigger] identifiers[i])@ != (
        #[trigger] identifiers[j])@
}

/// The shares are those of one split for `identifiers`: each was issued under
/// one of the identifiers, each identifier has a share, no two shares were
/// issued under one identifier, and each share verifies.
pub open spec fn issued_for(issued: Seq<IssuedShare>, identifiers: Seq<Vec<u8>>) -> bool {
    &&& forall|k: int|
        0 <= k < issued.len() ==> exists|i: int|
            0 <= i < identifiers.len() && (#[trigger] identifiers[i])@ == (
            #[trigger] issued[k]).identifier@
    &&& forall|i: int|
        0 <= i < identifiers.len() ==> exists|k: int|
            0 <= k < issued.len() && (#[trigger] issued[k]).identifier@ == (
            #[trigger] identifiers[i])@
    &&& forall|j: int, k: int|
        0 <= j < k < issued.len() ==> (#[trigger] issued[j]).identifier@ != (
        #[trigger] issued[k]).identifier@
    &&& forall|k: int|
        0 <= k < issued.len() ==> verified_package((#[trigger] issued[k]).share) is Ok
}

/// Calls `Identifier::derive` on `identity` and serializes the identifier.
///
/// Believed: the result is a function of the bytes alone, named
/// `frost_identifier`; a failed derivation is `None`; and the serialization of
/// an identifier is one that `Identifier::deserialize` accepts.
#[verifier::external_body]
pub(crate) fn derive_identifier(identity: &[u8]) -> (r: Option<Vec<u8>>)
    ensures
        bytes_view(r) == frost_identifier(identity@),
        r matches Some(v) ==> is_identifier(v@),
{
    Identifier::derive(identity).ok().map(|id| id.serialize())
}

/// Calls `SigningKey::deserialize` on `bytes`.
///
/// Believed: the call succeeds exactly on the encodings of the scalars other
/// than zero.
#[verifier::external_body]
pub(crate) fn signing_key_from_bytes(bytes: &[u8]) -> (r: Result<SigningKey, IronfishFrostError>)
    ensures
        r is Ok <==> is_signing_key(bytes@),
{
    let inner = ironfish_frost::frost::SigningKey::deserialize(bytes)?;
    Ok(SigningKey { inner })
}

/// Calls `ironfish_frost::frost::keys::split` with `identifiers` as the custom
/// identifier list, each decoded by `Identifier::deserialize`.
///
/// Believed: the call fails exactly where its arguments are not in order,
/// whatever `rng` yields. Where it succeeds, the shares are issued under the
/// identifiers given, one share under each, and each share verifies against
/// the commitment that the split gave it. What the shares hold depends on
/// `rng`, and nothing is said of it.
#[verifier::external_body]
pub(crate) fn split_key<R: RngCore + CryptoRng>(
    key: &SigningKey,
    max_signers: u16,
    min_signers: u16,
    identifiers: &Vec<Vec<u8>>,
    rng: &mut R,
) -> (r: Result<(Vec<IssuedShare>, GroupPublicKey), IronfishFrostError>)
    ensures
        match r {
            Ok((issued, _)) => {
                &&& split_arguments_in_order(max_signers, min_signers, identifiers@)
                &&& issued_for(issued@, identifiers@)
            },
            Err(_) => !split_arguments_in_order(max_signers, min_signers, identifiers@),
        },
{
    let ids = identifiers.iter().map(|b| Identifier::deserialize(b)).collect::<Result<Vec<_>, _>>()?;
    let list = IdentifierList::Custom(&ids);
    let (shares, inner) = ironfish_frost::frost::keys::split(&key.inner, max_signers, min_signers, list, rng)?;
    let issued = shares
        .into_iter()
        .map(|(id, share)| IssuedShare { identifier: id.serialize(), share: SecretShare { inner: share } })
        .collect();
    Ok((issued, GroupPublicKey { inner }))
}

/// Calls `KeyPackage::try_from` on a share, which verifies it against the
/// commitment that it carries.
///
/// Believed: the result is a function of the share alone, named
/// `verified_package`.
#[verifier::external_body]
pub(crate) fn key_package_from_share(share: SecretShare) -> (r: Result<KeyPackage, IronfishFrostError>)
    ensures
        r == verified_package(share),
{
    let inner = ironfish_frost::frost::keys::KeyPackage::try_from(share.inner)?;
    Ok(KeyPackage { inner })
}

} // verus!
