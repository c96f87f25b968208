//! The association between identities and the identifiers that the secret
//! sharing knows them by.
//!
//! Each identity has one identifier, derived from its bytes. A mapping is made
//! once for a list of identities, holds them in the order given, and answers
//! which identity an identifier belongs to.

use crate::error::SplitSecretError;
use crate::identity::Identity;
use crate::primitive::derive_identifier;
use crate::primitive::frost_identifier;
use crate::primitive::is_identifier;
use vstd::prelude::*;

verus! {

/// No identity occurs twice in `identities`.
pub open spec fn distinct_identities(identities: Seq<Identity>) -> bool {
    forall|i: int, j: int|
        0 <= i < j < identities.len() ==> (#[trigger] identities[i])@ != (#[trigger] identities[j])@
}

/// No byte string occurs twice in `identifiers`.
pub open spec fn distinct_identifiers(identifiers: Seq<Vec<u8>>) -> bool {
    forall|i: int, j: int|
        0 <= i < j < identifiers.len() ==> (#[trigger] identifiers[i])@ != (
        #[trigger] identifiers[j])@
}

/// Every one of `identities` has an identifier.
pub open spec fn all_derivable(identities: Seq<Identity>) -> bool {
    forall|i: int|
        0 <= i < identities.len() ==> frost_identifier((#[trigger] identities[i])@) is Some
}

/// No two of `identities` share an identifier.
pub open spec fn collision_free(identities: Seq<Identity>) -> bool {
    forall|i: int, j: int|
        0 <= i < j < identities.len() ==> frost_identifier((#[trigger] identities[i])@)
            != frost_identifier((#[trigger] identities[j])@)
}

/// Why no mapping can be made for `identities`, if none can: an identity that
/// occurs twice comes first, then an identity without an identifier, then two
/// identities with one identifier.
pub open spec fn mapping_error(identities: Seq<Identity>) -> Option<SplitSecretError> {
    if !distinct_identities(identities) {
        Some(SplitSecretError::DuplicateIdentity)
    } else if !all_derivable(identities) {
        Some(SplitSecretError::IdentifierDerivation)
    } else if !collision_free(identities) {
        Some(SplitSecretError::IdentifierCollision)
    } else {
        None
    }
}

/// Whether two byte strings are equal.
pub fn bytes_eq(a: &Vec<u8>, b: &Vec<u8>) -> (same: bool)
    ensures
        same == (a@ == b@),
{
    if a.len() != b.len() {
        return false;
    }
    let mut i: usize = 0;
    while i < a.len()
        invariant
            i <= a.len(),
            a.len() == b.len(),
            forall|k: int| 0 <= k < i ==> a@[k] == b@[k],
        decreases a.len() - i,
    {
        if a[i] != b[i] {
            return false;
        }
        i = i + 1;
    }
    proof {
        assert(a@ =~= b@);
    }
    true
}

/// Whether some identity occurs twice in `identities`.
pub fn has_duplicate_identity(identities: &Vec<Identity>) -> (found: bool)
    ensures
        found == !distinct_identities(identities@),
{
    let n: usize = identities.len();
    let mut j: usize = 0;
    while j < n
        invariant
            n == identities.len(),
            j <= n,
            forall|a: int, b: int|
                0 <= a < b < j ==> (#[trigger] identities@[a])@ != (#[trigger] identities@[b])@,
        decreases n - j,
    {
        let mut i: usize = 0;
        while i < j
            invariant
                n == identities.len(),
                i <= j < n,
                forall|a: int| 0 <= a < i ==> (#[trigger] identities@[a])@ != identities@[j as int]@,
            decreases j - i,
        {
            if identities[i] == identities[j] {
                return true;
            }
            i = i + 1;
        }
        j = j + 1;
    }
    false
}

/// Whether some byte string occurs twice in `identifiers`.
pub fn has_duplicate_identifier(identifiers: &Vec<Vec<u8>>) -> (found: bool)
    ensures
        found == !distinct_identifiers(identifiers@),
{
    let n: usize = identifiers.len();
    let mut j: usize = 0;
    while j < n
        invariant
            n == identifiers.len(),
            j <= n,
            forall|a: int, b: int|
                0 <= a < b < j ==> (#[trigger] identifiers@[a])@ != (#[trigger] identifiers@[b])@,
        decreases n - j,
    {
        let mut i: usize = 0;
        while i < j
            invariant
                n == identifiers.len(),
                i <= j < n,
                forall|a: int|
                    0 <= a < i ==> (#[trigger] identifiers@[a])@ != identifiers@[j as int]@,
            decreases j - i,
        {
            if bytes_eq(&identifiers[i], &identifiers[j]) {
                return true;
            }
            i = i + 1;
        }
        j = j + 1;
    }
    false
}

/// The identities of one split, each with its identifier.
pub struct IdentifierMapping {
    identities: Vec<Identity>,
    identifiers: Vec<Vec<u8>>,
}

impl IdentifierMapping {
    /// The identities, in the order in which the mapping was given them.
    pub closed spec fn identities(&self) -> Seq<Identity> {
        self.identities@
    }

    /// The encoded identifiers; the one at an index is that of the identity at
    /// the same index.
    pub closed spec fn identifiers(&self) -> Seq<Vec<u8>> {
        self.identifiers@
    }

    /// The mapping pairs off its identities and identifiers, and neither an
    /// identity nor an identifier occurs twice.
    pub open spec fn wf(&self) -> bool {
        &&& self.identities().len() == self.identifiers().len()
        &&& distinct_identities(self.identities())
        &&& distinct_identifiers(self.identifiers())
    }

    /// Each identifier is the one derived from the identity beside it, and is
    /// the encoding of an identifier.
    pub open spec fn derived(&self) -> bool {
        &&& forall|i: int|
            0 <= i < self.identities().len() ==> frost_identifier(
                (#[trigger] self.identities()[i])@,
            ) == Some(self.identifiers()[i]@)
        &&& forall|i: int|
            0 <= i < self.identifiers().len() ==> is_identifier((#[trigger] self.identifiers()[i])@)
    }

    /// Whether `identifier` belongs to one of the identities.
    pub open spec fn knows(&self, identifier: Seq<u8>) -> bool {
        exists|i: int|
            0 <= i < self.identifiers().len() && (#[trigger] self.identifiers()[i])@ == identifier
    }

    /// The place of the identity that `identifier` belongs to.
    pub open spec fn index_of(&self, identifier: Seq<u8>) -> int {
        choose|i: int|
            0 <= i < self.identifiers().len() && (#[trigger] self.identifiers()[i])@ == identifier
    }

    /// In a well-formed mapping an identifier has one place only.
    pub proof fn lemma_index_of(&self, i: int)
        requires
            self.wf(),
            0 <= i < self.identifiers().len(),
        ensures
            self.knows(self.identifiers()[i]@),
            self.index_of(self.identifiers()[i]@) == i,
    {
        let j = self.index_of(self.identifiers()[i]@);
        assert(self.identifiers()[j]@ == self.identifiers()[i]@);
        if j < i {
            assert(self.identifiers()[j]@ != self.identifiers()[i]@);
        }
        if i < j {
            assert(self.identifiers()[i]@ != self.identifiers()[j]@);
        }
    }

    /// The identifiers are determined by the identities: two mappings made
    /// for the same identities agree identifier by identifier.
    pub proof fn lemma_determined(&self, other: &IdentifierMapping)
        requires
            self.wf(),
            self.derived(),
            other.wf(),
            other.derived(),
            self.identities() == other.identities(),
        ensures
            self.identifiers().len() == other.identifiers().len(),
            forall|i: int|
                0 <= i < self.identifiers().len() ==> (#[trigger] self.identifiers()[i])@
                    == other.identifiers()[i]@,
    {
        assert forall|i: int| 0 <= i < self.identifiers().len() implies (
        #[trigger] self.identifiers()[i])@ == other.identifiers()[i]@ by {
            assert(frost_identifier(self.identities()[i]@) == Some(self.identifiers()[i]@));
            assert(frost_identifier(other.identities()[i]@) == Some(other.identifiers()[i]@));
        }
    }

    /// Derives the identifier of each identity and makes the mapping, unless an
    /// identity occurs twice, has no identifier, or shares its identifier with
    /// another.
    pub fn build(identities: &Vec<Identity>) -> (r: Result<IdentifierMapping, SplitSecretError>)
        ensures
            match r {
                Ok(mapping) => {
                    &&& mapping_error(identities@) is None
                    &&& mapping.wf()
                    &&& mapping.derived()
                    &&& mapping.identities() == identities@
                },
                Err(e) => mapping_error(identities@) == Some(e),
            },
    {
        if has_duplicate_identity(identities) {
            return Err(SplitSecretError::DuplicateIdentity);
        }
        let n: usize = identities.len();
        let mut kept: Vec<Identity> = Vec::new();
        let mut identifiers: Vec<Vec<u8>> = Vec::new();
        let mut i: usize = 0;
        while i < n
            invariant
                n == identities.len(),
                i <= n,
                distinct_identities(identities@),
                kept@ == identities@.subrange(0, i as int),
                identifiers.len() == i,
                forall|k: int|
                    0 <= k < i ==> frost_identifier((#[trigger] identities@[k])@) == Some(
                        identifiers@[k]@,
                    ),
                forall|k: int| 0 <= k < i ==> is_identifier((#[trigger] identifiers@[k])@),
            decreases n - i,
        {
            let identity: Identity = identities[i];
            match derive_identifier(identity.as_bytes().as_slice()) {
                Some(identifier) => {
                    identifiers.push(identifier);
                    kept.push(identity);
                },
                None => {
                    proof {
                        assert(frost_identifier(identities@[i as int]@) is None);
                    }
                    return Err(SplitSecretError::IdentifierDerivation);
                },
            }
            proof {
                assert(kept@ =~= identities@.subrange(0, i + 1));
            }
            i = i + 1;
        }
        proof {
            assert(kept@ =~= identities@);
        }
        if has_duplicate_identifier(&identifiers) {
            proof {
                let (a, b) = choose|a: int, b: int|
                    0 <= a < b < identifiers.len() && (#[trigger] identifiers@[a])@ == (
                    #[trigger] identifiers@[b])@;
                assert(frost_identifier(identities@[a]@) == frost_identifier(identities@[b]@));
            }
            return Err(SplitSecretError::IdentifierCollision);
        }
        proof {
            assert forall|a: int, b: int| 0 <= a < b < identities.len() implies frost_identifier(
                (#[trigger] identities@[a])@,
            ) != frost_identifier((#[trigger] identities@[b])@) by {
                assert(identifiers@[a]@ != identifiers@[b]@);
            }
        }
        Ok(IdentifierMapping { identities: kept, identifiers })
    }

    /// The number of identities.
    pub fn len(&self) -> (n: usize)
        ensures
            n == self.identities().len(),
    {
        self.identities.len()
    }

    /// The identity at place `i`.
    pub fn identity(&self, i: usize) -> (identity: Identity)
        requires
            i < self.identities().len(),
        ensures
            identity == self.identities()[i as int],
    {
        self.identities[i]
    }

    /// The encoded identifiers, in the order of the identities.
    pub fn identifier_list(&self) -> (list: &Vec<Vec<u8>>)
        ensures
            list@ == self.identifiers(),
    {
        &self.identifiers
    }

    /// The place of the identity that `identifier` belongs to, if it belongs
    /// to any.
    pub fn find(&self, identifier: &Vec<u8>) -> (place: Option<usize>)
        requires
            self.wf(),
        ensures
            match place {
                Some(i) => self.knows(identifier@) && i == self.index_of(identifier@),
                None => !self.knows(identifier@),
            },
    {
        let mut i: usize = 0;
        while i < self.identifiers.len()
            invariant
                self.wf(),
                i <= self.identifiers.len(),
                forall|k: int| 0 <= k < i ==> (#[trigger] self.identifiers@[k])@ != identifier@,
            decreases self.identifiers.len() - i,
        {
            if bytes_eq(&self.identifiers[i], identifier) {
                proof {
                    self.lemma_index_of(i as int);
                }
                return Some(i);
            }
            i = i + 1;
        }
        None
    }
}

} // verus!
