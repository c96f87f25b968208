//! The split itself: from a configuration and a source of randomness to the
//! key packages of the participants and the public key package of the group.

use crate::config::SecretShareConfig;
use crate::error::SplitSecretError;
use crate::identity::Identity;
use crate::mapping::IdentifierMapping;
use crate::package::PublicKeyPackage;
use crate::primitive::is_signing_key;
use crate::primitive::issued_for;
use crate::primitive::signing_key_from_bytes;
use crate::primitive::split_arguments_in_order;
use crate::primitive::split_key;
use crate::primitive::verified_package;
use crate::primitive::IssuedShare;
use crate::shares::assemble;
use crate::shares::assembled_entry;
use crate::shares::assembly_error;
use crate::shares::convert_shares;
use crate::shares::lemma_known;
use crate::shares::rejected;
use crate::shares::serves;
use crate::shares::ConvertedShare;
use crate::shares::ShareMapping;
use rand::CryptoRng;
use rand::RngCore;
use vstd::prelude::*;

verus! {

/// A copy of `identities`.
fn copy_identities(identities: &Vec<Identity>) -> (copy: Vec<Identity>)
    ensures
        copy@ == identities@,
{
    let mut copy: Vec<Identity> = Vec::new();
    let mut i: usize = 0;
    while i < identities.len()
        invariant
            i <= identities.len(),
            copy@ == identities@.subrange(0, i as int),
        decreases identities.len() - i,
    {
        copy.push(identities[i]);
        proof {
            assert(copy@ =~= identities@.subrange(0, i + 1));
        }
        i = i + 1;
    }
    proof {
        assert(copy@ =~= identities@);
    }
    copy
}

/// Shares that were issued for the identifiers of a mapping, one under each
/// and each of them verifying, can be handed out: none is rejected and no
/// identity is left without one.
pub proof fn lemma_issued_shares_assemble(
    mapping: &IdentifierMapping,
    issued: Seq<IssuedShare>,
    converted: Seq<ConvertedShare>,
)
    requires
        mapping.wf(),
        issued_for(issued, mapping.identifiers()),
        converted.len() == issued.len(),
        forall|k: int|
            0 <= k < converted.len() ==> (#[trigger] converted[k]).identifier@
                == issued[k].identifier@,
        forall|k: int|
            0 <= k < converted.len() ==> (#[trigger] converted[k]).package == verified_package(
                issued[k].share,
            ),
    ensures
        assembly_error(mapping, converted) is None,
{
    assert forall|k: int| 0 <= k < converted.len() implies !#[trigger] rejected(
        mapping,
        converted,
        k,
    ) by {
        let i = choose|i: int|
            0 <= i < mapping.identifiers().len() && (#[trigger] mapping.identifiers()[i])@
                == issued[k].identifier@;
        assert(mapping.identifiers()[i]@ == converted[k].identifier@);
        assert(mapping.knows(converted[k].identifier@));
        if serves(converted.subrange(0, k), converted[k].identifier@) {
            let j = choose|j: int|
                0 <= j < k && (#[trigger] converted.subrange(0, k)[j]).identifier@
                    == converted[k].identifier@;
            assert(converted[j].identifier@ == issued[j].identifier@);
            assert(issued[j].identifier@ != issued[k].identifier@);
        }
        assert(verified_package(issued[k].share) is Ok);
    }
    assert forall|i: int| 0 <= i < mapping.identifiers().len() implies serves(
        converted,
        (#[trigger] mapping.identifiers()[i])@,
    ) by {
        let k = choose|k: int|
            0 <= k < issued.len() && (#[trigger] issued[k]).identifier@
                == mapping.identifiers()[i]@;
        assert(converted[k].identifier@ == mapping.identifiers()[i]@);
    }
}

/// Splits the spend authorizing key of `config` among its identities.
///
/// A configuration that is refused fails with its error before anything is
/// computed from the key, and a key that is no signing key fails next. Every
/// other split succeeds: every identity has exactly one key package and no one
/// else has any, and the public key package names the identities as they were
/// given. What the packages hold depends on the randomness of `rng`.
///
/// That no other failure occurs rests on what is believed of the secret
/// sharing. The library does not rely on it at run time: a failed split, a
/// share that does not verify, and shares for other identifiers than those of
/// the identities still end the split with an error and without a share.
pub fn split_secret<R: RngCore + CryptoRng>(config: &SecretShareConfig, rng: R) -> (r: Result<
    (ShareMapping, PublicKeyPackage),
    SplitSecretError,
>)
    ensures
        (config.configuration_error() is None && is_signing_key(config.spender_key@)) ==> r is Ok,
        match r {
            Ok((packages, public)) => {
                &&& config.configuration_error() is None
                &&& is_signing_key(config.spender_key@)
                &&& packages.wf()
                &&& packages.entries().len() == config.identities@.len()
                &&& forall|i: int|
                    0 <= i < config.identities@.len() ==> packages.holds(
                        (#[trigger] config.identities@[i])@,
                    )
                &&& forall|k: int|
                    0 <= k < packages.entries().len() ==> config.identities@.contains(
                        (#[trigger] packages.entries()[k]).identity,
                    )
                &&& public.roster() == config.identities@
                &&& public.threshold() == config.min_signers
            },
            Err(e) => match config.configuration_error() {
                Some(refusal) => e == refusal,
                None => !is_signing_key(config.spender_key@) && e is InvalidSecretKey,
            },
        },
{
    let mut rng = rng;
    let mapping = match config.validate() {
        Ok(mapping) => mapping,
        Err(e) => {
            return Err(e);
        },
    };
    let max_signers: u16 = mapping.len() as u16;
    let key = match signing_key_from_bytes(config.spender_key.as_slice()) {
        Ok(key) => key,
        Err(e) => {
            return Err(SplitSecretError::InvalidSecretKey(e));
        },
    };
    proof {
        config.lemma_accepted_configuration();
        assert(split_arguments_in_order(
            max_signers,
            config.min_signers,
            mapping.identifiers(),
        ));
    }
    let (issued, group) = match split_key(
        &key,
        max_signers,
        config.min_signers,
        mapping.identifier_list(),
        &mut rng,
    ) {
        Ok(outcome) => outcome,
        Err(e) => {
            return Err(SplitSecretError::Split(e));
        },
    };
    let ghost issued_shares = issued@;
    let converted = convert_shares(issued);
    let ghost converted_shares = converted@;
    proof {
        lemma_issued_shares_assemble(&mapping, issued_shares, converted_shares);
    }
    let packages = match assemble(&mapping, converted) {
        Ok(packages) => packages,
        Err(e) => {
            return Err(e);
        },
    };
    proof {
        assert forall|k: int| 0 <= k < packages.entries().len() implies config.identities@.contains(
            (#[trigger] packages.entries()[k]).identity,
        ) by {
            assert(!rejected(&mapping, converted_shares, k));
            lemma_known(&mapping, converted_shares[k].identifier@);
            assert(packages.entries()[k] == assembled_entry(&mapping, converted_shares[k]));
        }
    }
    let public = PublicKeyPackage::from_frost(
        group,
        copy_identities(&config.identities),
        config.min_signers,
    );
    Ok((packages, public))
}

} // verus!
