//! The shares of one split, from the form in which the secret sharing issues
//! them to the key packages of the participants.
//!
//! The secret sharing issues its shares under identifiers. Each share is
//! verified and made into a key package, and the packages are handed to the
//! identities that the identifiers belong to. Either every identity receives
//! exactly one package or nothing is returned.

use crate::error::SplitSecretError;
use crate::identity::Identity;
use crate::mapping::IdentifierMapping;
use crate::primitive::key_package_from_share;
use crate::primitive::verified_package;
use crate::primitive::IssuedShare;
use crate::primitive::KeyPackage;
use ironfish_frost::error::IronfishFrostError;
use vstd::prelude::*;
use vstd::set_lib::*;

verus! {

/// A share after the verification that makes a key package of it: the encoded
/// identifier under which it was issued, and the package or the reason why
/// there is none.
pub struct ConvertedShare {
    pub identifier: Vec<u8>,
    pub package: Result<KeyPackage, IronfishFrostError>,
}

/// One participant's key package.
pub struct ShareEntry {
    pub identity: Identity,
    pub key_package: KeyPackage,
}

/// The elements of `v` in the opposite order.
fn reversed<T>(v: Vec<T>) -> (r: Vec<T>)
    ensures
        r@.len() == v@.len(),
        forall|j: int| 0 <= j < r@.len() ==> r@[j] == v@[v@.len() - 1 - j],
{
    let ghost given = v@;
    let mut v = v;
    let mut r: Vec<T> = Vec::new();
    while v.len() > 0
        invariant
            v@.len() <= given.len(),
            v@ == given.subrange(0, v@.len() as int),
            r@.len() + v@.len() == given.len(),
            forall|j: int| 0 <= j < r@.len() ==> r@[j] == given[given.len() - 1 - j],
        decreases v@.len(),
    {
        match v.pop() {
            Some(x) => {
                r.push(x);
            },
            None => {},
        }
    }
    r
}

/// Puts each issued share through the verification that makes a key package
/// of it, keeping the order and the identifiers.
pub fn convert_shares(issued: Vec<IssuedShare>) -> (converted: Vec<ConvertedShare>)
    ensures
        converted@.len() == issued@.len(),
        forall|k: int|
            0 <= k < converted@.len() ==> (#[trigger] converted@[k]).identifier@
                == issued@[k].identifier@,
        forall|k: int|
            0 <= k < converted@.len() ==> (#[trigger] converted@[k]).package == verified_package(
                issued@[k].share,
            ),
{
    let ghost given = issued@;
    let total: usize = issued.len();
    let mut rest = reversed(issued);
    let mut converted: Vec<ConvertedShare> = Vec::new();
    while rest.len() > 0
        invariant
            total == given.len(),
            rest@.len() + converted@.len() == total,
            forall|j: int| 0 <= j < rest@.len() ==> rest@[j] == given[total - 1 - j],
            forall|k: int|
                0 <= k < converted@.len() ==> (#[trigger] converted@[k]).identifier@
                    == given[k].identifier@,
            forall|k: int|
                0 <= k < converted@.len() ==> (#[trigger] converted@[k]).package
                    == verified_package(given[k].share),
        decreases rest@.len(),
    {
        match rest.pop() {
            Some(share) => {
                let package = key_package_from_share(share.share);
                converted.push(ConvertedShare { identifier: share.identifier, package });
            },
            None => {},
        }
    }
    converted
}

/// Some share in `shares` was issued under `identifier`.
pub open spec fn serves(shares: Seq<ConvertedShare>, identifier: Seq<u8>) -> bool {
    exists|k: int| 0 <= k < shares.len() && (#[trigger] shares[k]).identifier@ == identifier
}

/// Share `k` has no place: its identifier belongs to no identity of the
/// mapping, or an earlier share was issued under it.
pub open spec fn misplaced(mapping: &IdentifierMapping, shares: Seq<ConvertedShare>, k: int) -> bool {
    ||| !mapping.knows(shares[k].identifier@)
    ||| serves(shares.subrange(0, k), shares[k].identifier@)
}

/// Share `k` cannot be handed out: it has no place, or it did not verify.
pub open spec fn rejected(mapping: &IdentifierMapping, shares: Seq<ConvertedShare>, k: int) -> bool {
    misplaced(mapping, shares, k) || shares[k].package is Err
}

/// None of the first `n` shares is rejected.
pub open spec fn accepted_up_to(
    mapping: &IdentifierMapping,
    shares: Seq<ConvertedShare>,
    n: int,
) -> bool {
    forall|k: int| 0 <= k < n ==> !#[trigger] rejected(mapping, shares, k)
}

/// The first share that is rejected, where there is one.
pub open spec fn first_rejected(mapping: &IdentifierMapping, shares: Seq<ConvertedShare>) -> int {
    choose|k: int|
        0 <= k < shares.len() && #[trigger] rejected(mapping, shares, k) && accepted_up_to(
            mapping,
            shares,
            k,
        )
}

/// Some identity of the mapping has no share in `shares`.
pub open spec fn unserved(mapping: &IdentifierMapping, shares: Seq<ConvertedShare>) -> bool {
    exists|i: int|
        0 <= i < mapping.identifiers().len() && !serves(
            shares,
            (#[trigger] mapping.identifiers()[i])@,
        )
}

/// Why `shares` cannot be handed out to the identities of `mapping`, if they
/// cannot. The shares are taken in order and the first rejected one decides:
/// a share without a place is a disagreement on the identifiers, a share that
/// did not verify fails with the error of its verification. Where every share
/// is accepted, an identity may still be left without one.
pub open spec fn assembly_error(
    mapping: &IdentifierMapping,
    shares: Seq<ConvertedShare>,
) -> Option<SplitSecretError> {
    if !accepted_up_to(mapping, shares, shares.len() as int) {
        let k = first_rejected(mapping, shares);
        if misplaced(mapping, shares, k) {
            Some(SplitSecretError::UnknownIdentifier)
        } else {
            match shares[k].package {
                Err(e) => Some(SplitSecretError::InvalidShare(e)),
                Ok(_) => Some(SplitSecretError::UnknownIdentifier),
            }
        }
    } else if unserved(mapping, shares) {
        Some(SplitSecretError::MissingShare)
    } else {
        None
    }
}

/// The identity that a share goes to, and the share's package.
pub open spec fn assembled_entry(mapping: &IdentifierMapping, share: ConvertedShare) -> ShareEntry {
    ShareEntry {
        identity: mapping.identities()[mapping.index_of(share.identifier@)],
        key_package: match share.package {
            Ok(package) => package,
            Err(_) => arbitrary(),
        },
    }
}

/// The key packages of one split, one for each identity.
pub struct ShareMapping {
    entries: Vec<ShareEntry>,
}

impl ShareMapping {
    /// The entries, in the order in which the shares were issued.
    pub closed spec fn entries(&self) -> Seq<ShareEntry> {
        self.entries@
    }

    /// No identity has two entries.
    pub open spec fn wf(&self) -> bool {
        forall|a: int, b: int|
            0 <= a < b < self.entries().len() ==> (#[trigger] self.entries()[a]).identity@ != (
            #[trigger] self.entries()[b]).identity@
    }

    /// Whether `identity` has an entry.
    pub open spec fn holds(&self, identity: Seq<u8>) -> bool {
        exists|k: int|
            0 <= k < self.entries().len() && (#[trigger] self.entries()[k]).identity@ == identity
    }

    /// The place of the entry of `identity`.
    pub open spec fn place_of(&self, identity: Seq<u8>) -> int {
        choose|k: int|
            0 <= k < self.entries().len() && (#[trigger] self.entries()[k]).identity@ == identity
    }

    /// The mapping that the entries stand for, from the bytes of an identity
    /// to its key package.
    pub open spec fn view(&self) -> Map<Seq<u8>, KeyPackage> {
        Map::new(
            |identity: Seq<u8>| self.holds(identity),
            |identity: Seq<u8>| self.entries()[self.place_of(identity)].key_package,
        )
    }

    /// The number of entries.
    pub fn len(&self) -> (n: usize)
        ensures
            n == self.entries().len(),
    {
        self.entries.len()
    }

    /// The entries, in the order in which the shares were issued.
    pub fn entry_list(&self) -> (list: &Vec<ShareEntry>)
        ensures
            list@ == self.entries(),
    {
        &self.entries
    }

    /// Gives up the mapping for its entries.
    pub fn into_entries(self) -> (list: Vec<ShareEntry>)
        ensures
            list@ == self.entries(),
    {
        self.entries
    }

    /// The key package of `identity`, if it has one.
    pub fn get(&self, identity: &Identity) -> (found: Option<&KeyPackage>)
        requires
            self.wf(),
        ensures
            match found {
                Some(package) => self@.contains_key(identity@) && *package == self@[identity@],
                None => !self@.contains_key(identity@),
            },
    {
        let mut k: usize = 0;
        while k < self.entries.len()
            invariant
                self.wf(),
                k <= self.entries.len(),
                forall|j: int| 0 <= j < k ==> (#[trigger] self.entries@[j]).identity@ != identity@,
            decreases self.entries.len() - k,
        {
            if self.entries[k].identity == *identity {
                proof {
                    let p = self.place_of(identity@);
                    assert(self.entries()[k as int].identity@ == identity@);
                    if p < k {
                        assert(self.entries()[p].identity@ != self.entries()[k as int].identity@);
                    }
                    if k < p {
                        assert(self.entries()[k as int].identity@ != self.entries()[p].identity@);
                    }
                }
                return Some(&self.entries[k].key_package);
            }
            k = k + 1;
        }
        None
    }
}

/// An identifier that the mapping knows stands at its place in the mapping.
pub proof fn lemma_known(mapping: &IdentifierMapping, identifier: Seq<u8>)
    requires
        mapping.knows(identifier),
    ensures
        0 <= mapping.index_of(identifier) < mapping.identifiers().len(),
        mapping.identifiers()[mapping.index_of(identifier)]@ == identifier,
{
}

/// Where a share is rejected and none before it is, it is the first rejected
/// share.
pub proof fn lemma_first_rejected(mapping: &IdentifierMapping, shares: Seq<ConvertedShare>, k: int)
    requires
        0 <= k < shares.len(),
        rejected(mapping, shares, k),
        accepted_up_to(mapping, shares, k),
    ensures
        !accepted_up_to(mapping, shares, shares.len() as int),
        first_rejected(mapping, shares) == k,
{
    let f = first_rejected(mapping, shares);
    assert(0 <= f < shares.len() && rejected(mapping, shares, f) && accepted_up_to(
        mapping,
        shares,
        f,
    ));
    if f < k {
        assert(!rejected(mapping, shares, f));
    }
    if k < f {
        assert(!rejected(mapping, shares, k));
    }
}

/// Hands the key packages out to the identities of `mapping`.
///
/// The shares are taken in the order given. The result is an error as soon as
/// a share is rejected, and also where an identity is left without a share;
/// otherwise entry `k` holds the package of share `k` and the identity that
/// its identifier belongs to, and every identity has exactly one entry.
pub fn assemble(mapping: &IdentifierMapping, shares: Vec<ConvertedShare>) -> (r: Result<
    ShareMapping,
    SplitSecretError,
>)
    requires
        mapping.wf(),
    ensures
        match r {
            Ok(packages) => {
                &&& assembly_error(mapping, shares@) is None
                &&& packages.wf()
                &&& packages.entries().len() == shares@.len()
                &&& packages.entries().len() == mapping.identities().len()
                &&& forall|k: int|
                    0 <= k < shares@.len() ==> #[trigger] packages.entries()[k] == assembled_entry(
                        mapping,
                        shares@[k],
                    )
                &&& forall|i: int|
                    0 <= i < mapping.identities().len() ==> packages.holds(
                        (#[trigger] mapping.identities()[i])@,
                    )
            },
            Err(e) => assembly_error(mapping, shares@) == Some(e),
        },
{
    let ghost all = shares@;
    let n: usize = mapping.len();
    let total: usize = shares.len();
    let mut rest = reversed(shares);
    let mut taken: Vec<bool> = Vec::new();
    while taken.len() < n
        invariant
            taken@.len() <= n,
            forall|i: int| 0 <= i < taken@.len() ==> !taken@[i],
        decreases n - taken@.len(),
    {
        taken.push(false);
    }
    let mut entries: Vec<ShareEntry> = Vec::new();
    let ghost mut covered: Set<int> = Set::empty();
    let mut k: usize = 0;
    while k < total
        invariant
            mapping.wf(),
            all == shares@,
            n == mapping.identities().len(),
            total == all.len(),
            k <= total,
            rest@.len() == total - k,
            forall|j: int| 0 <= j < rest@.len() ==> rest@[j] == all[total - 1 - j],
            taken@.len() == n,
            accepted_up_to(mapping, all, k as int),
            entries@.len() == k,
            forall|j: int| 0 <= j < k ==> #[trigger] entries@[j] == assembled_entry(mapping, all[j]),
            covered.finite(),
            covered.len() == k,
            forall|i: int| covered.contains(i) ==> 0 <= i < n,
            forall|i: int| 0 <= i < n ==> (#[trigger] taken@[i] <==> covered.contains(i)),
            forall|i: int|
                #[trigger] covered.contains(i) <==> exists|j: int|
                    0 <= j < k && mapping.index_of((#[trigger] all[j]).identifier@) == i,
        decreases total - k,
    {
        let share = match rest.pop() {
            Some(share) => share,
            None => {
                // `rest` holds the shares that have not been taken yet.
                proof {
                    assert(false);
                }
                return Err(SplitSecretError::MissingShare);
            },
        };
        assert(share == all[k as int]);
        let place = match mapping.find(&share.identifier) {
            Some(place) => place,
            None => {
                proof {
                    assert(misplaced(mapping, all, k as int));
                    lemma_first_rejected(mapping, all, k as int);
                }
                return Err(SplitSecretError::UnknownIdentifier);
            },
        };
        proof {
            lemma_known(mapping, all[k as int].identifier@);
        }
        if taken[place] {
            proof {
                let j = choose|j: int|
                    0 <= j < k && mapping.index_of((#[trigger] all[j]).identifier@) == place;
                assert(!rejected(mapping, all, j));
                lemma_known(mapping, all[j].identifier@);
                assert(all.subrange(0, k as int)[j].identifier@ == all[k as int].identifier@);
                assert(misplaced(mapping, all, k as int));
                lemma_first_rejected(mapping, all, k as int);
            }
            return Err(SplitSecretError::UnknownIdentifier);
        }
        proof {
            if serves(all.subrange(0, k as int), all[k as int].identifier@) {
                let j = choose|j: int|
                    0 <= j < k && (#[trigger] all.subrange(0, k as int)[j]).identifier@
                        == all[k as int].identifier@;
                assert(all[j].identifier@ == all[k as int].identifier@);
                assert(covered.contains(place as int));
            }
            assert(!misplaced(mapping, all, k as int));
        }
        match share.package {
            Err(e) => {
                proof {
                    lemma_first_rejected(mapping, all, k as int);
                }
                return Err(SplitSecretError::InvalidShare(e));
            },
            Ok(key_package) => {
                taken.set(place, true);
                entries.push(ShareEntry { identity: mapping.identity(place), key_package });
                proof {
                    let ghost before = covered;
                    covered = covered.insert(place as int);
                    assert(!rejected(mapping, all, k as int));
                    assert forall|i: int| #[trigger] covered.contains(i) implies exists|j: int|
                        0 <= j < k + 1 && mapping.index_of((#[trigger] all[j]).identifier@)
                            == i by {
                        if before.contains(i) {
                            let j = choose|j: int|
                                0 <= j < k && mapping.index_of((#[trigger] all[j]).identifier@)
                                    == i;
                            assert(0 <= j < k + 1 && mapping.index_of(all[j].identifier@) == i);
                        } else {
                            assert(mapping.index_of(all[k as int].identifier@) == i);
                        }
                    }
                    assert forall|i: int|
                        (exists|j: int|
                            0 <= j < k + 1 && mapping.index_of((#[trigger] all[j]).identifier@)
                                == i) implies #[trigger] covered.contains(i) by {
                        let j = choose|j: int|
                            0 <= j < k + 1 && mapping.index_of((#[trigger] all[j]).identifier@)
                                == i;
                        if j < k {
                            assert(before.contains(i));
                        }
                    }
                }
            },
        }
        k = k + 1;
    }
    proof {
        lemma_int_range(0, n as int);
        assert(covered.subset_of(set_int_range(0, n as int)));
        lemma_len_subset(covered, set_int_range(0, n as int));
    }
    if total != n {
        proof {
            if !unserved(mapping, all) {
                assert forall|i: int| 0 <= i < n implies covered.contains(i) by {
                    assert(serves(all, mapping.identifiers()[i]@));
                    let j = choose|j: int|
                        0 <= j < all.len() && (#[trigger] all[j]).identifier@
                            == mapping.identifiers()[i]@;
                    mapping.lemma_index_of(i);
                    assert(mapping.index_of(all[j].identifier@) == i);
                }
                assert(set_int_range(0, n as int).subset_of(covered));
                lemma_len_subset(set_int_range(0, n as int), covered);
            }
        }
        return Err(SplitSecretError::MissingShare);
    }
    let packages = ShareMapping { entries };
    proof {
        lemma_subset_equality(covered, set_int_range(0, n as int));
        assert forall|i: int| 0 <= i < n implies serves(
            all,
            (#[trigger] mapping.identifiers()[i])@,
        ) by {
            assert(set_int_range(0, n as int).contains(i));
            assert(covered.contains(i));
            let j = choose|j: int|
                0 <= j < k && mapping.index_of((#[trigger] all[j]).identifier@) == i;
            assert(!rejected(mapping, all, j));
            lemma_known(mapping, all[j].identifier@);
        }
        assert forall|i: int| 0 <= i < n implies packages.holds(
            (#[trigger] mapping.identities()[i])@,
        ) by {
            assert(set_int_range(0, n as int).contains(i));
            assert(covered.contains(i));
            let j = choose|j: int|
                0 <= j < k && mapping.index_of((#[trigger] all[j]).identifier@) == i;
            assert(packages.entries()[j] == assembled_entry(mapping, all[j]));
            assert(packages.entries()[j].identity@ == mapping.identities()[i]@);
        }
        assert forall|a: int, b: int| 0 <= a < b < packages.entries().len() implies (
        #[trigger] packages.entries()[a]).identity@ != (#[trigger] packages.entries()[b]).identity@ by {
            assert(!rejected(mapping, all, a));
            assert(!rejected(mapping, all, b));
            lemma_known(mapping, all[a].identifier@);
            lemma_known(mapping, all[b].identifier@);
            assert(packages.entries()[a] == assembled_entry(mapping, all[a]));
            assert(packages.entries()[b] == assembled_entry(mapping, all[b]));
            let ia = mapping.index_of(all[a].identifier@);
            let ib = mapping.index_of(all[b].identifier@);
            if ia == ib {
                assert(all.subrange(0, b)[a].identifier@ == all[b].identifier@);
                assert(serves(all.subrange(0, b), all[b].identifier@));
            }
            if ia < ib {
                assert(mapping.identities()[ia]@ != mapping.identities()[ib]@);
            } else {
                assert(mapping.identities()[ib]@ != mapping.identities()[ia]@);
            }
        }
    }
    Ok(packages)
}

} // verus!
