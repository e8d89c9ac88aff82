//! The chain validator: the predicate battery a candidate chain must pass.
//!
//! A candidate chain runs from the leaf at position zero up to a trust
//! anchor at the last position. [`spec_content_ok`] collects every check
//! the policy imposes on the chain's content; [`validate_candidate`] is its
//! executable form, deciding it exactly and reporting the first failure it
//! meets, in the order the checks are listed.

use vstd::prelude::*;
use crate::cert::{
    seq_deref, spec_algorithm_allowed, spec_time_valid, algorithm_allowed, Certificate,
    GeneralName, NameConstraints,
};
use crate::error::VerificationError;
use crate::names::{bytes_eq, dns_matches, in_subtree, spec_dns_matches, spec_in_subtree};
use crate::ops::{CryptoOps, RevocationStatus};
use crate::policy::{Policy, Profile, OID_ANY_EKU};

verus! {

/// `list` contains the OID `oid`.
#[verifier::loop_isolation(false)]
pub fn oid_listed(list: &Vec<u64>, oid: u64) -> (r: bool)
    ensures
        r == list@.contains(oid),
{
    let n = list.len();
    let mut i: usize = 0;
    while i < n
        invariant
            n == list.len(),
            i <= n,
            forall|j: int| 0 <= j < i ==> list@[j] != oid,
        decreases n - i,
    {
        if list[i] == oid {
            assert(list@.contains(oid));
            return true;
        }
        i += 1;
    }
    proof {
        if list@.contains(oid) {
            let j = choose|j: int| 0 <= j < list@.len() && list@[j] == oid;
            assert(list@[j] != oid);
        }
    }
    false
}

/// The certificate's extended key usages, if restricted, allow `required`:
/// the set names `required` itself or the any-usage OID.
pub open spec fn spec_eku_ok(c: Certificate, required: u64) -> bool {
    match c.extensions.extended_key_usage {
        Some(list) => list@.contains(required) || list@.contains(OID_ANY_EKU),
        None => true,
    }
}

/// Executable form of [`spec_eku_ok`].
pub fn eku_ok(c: &Certificate, required: u64) -> (r: bool)
    ensures
        r == spec_eku_ok(*c, required),
{
    match &c.extensions.extended_key_usage {
        Some(list) => oid_listed(list, required) || oid_listed(list, OID_ANY_EKU),
        None => true,
    }
}

/// An issuing certificate's basic constraints admit issuing: the CA flag is
/// set, or the extension is absent on a trust anchor. Absence on an
/// intermediate is a violation.
pub open spec fn spec_issuer_bc_ok(iss: Certificate, iss_is_anchor: bool) -> bool {
    match iss.extensions.basic_constraints {
        Some(bc) => bc.ca,
        None => iss_is_anchor,
    }
}

/// An issuing certificate's key usage admits certificate signing: the
/// keyCertSign bit is set, or the extension is absent on a trust anchor.
/// Absence on an intermediate is a violation.
pub open spec fn spec_issuer_ku_ok(iss: Certificate, iss_is_anchor: bool) -> bool {
    match iss.extensions.key_usage {
        Some(ku) => ku.key_cert_sign,
        None => iss_is_anchor,
    }
}

/// The revocation capability does not reject the pair: `Good` passes,
/// `Revoked` fails, `Unknown` passes exactly under a fail-open policy.
pub open spec fn spec_revocation_ok<O: CryptoOps>(
    ops: O,
    subj: Certificate,
    iss: Certificate,
    fail_closed: bool,
) -> bool {
    match ops.spec_revocation(subj, iss) {
        RevocationStatus::Good => true,
        RevocationStatus::Revoked => false,
        RevocationStatus::Unknown => !fail_closed,
    }
}

/// The issuer's subject key identifier, when both sides state one,
/// matches the subject certificate's authority key identifier; the
/// key-identifier refinement of issuer linkage.
pub open spec fn spec_key_ids_ok(subj: Certificate, iss: Certificate) -> bool {
    match (subj.extensions.authority_key_id, iss.extensions.subject_key_id) {
        (Some(aki), Some(ski)) => aki@ == ski@,
        _ => true,
    }
}

/// Every check on one (subject, issuer) pair of the chain: byte-exact name
/// linkage with the key-identifier refinement, allow-listed algorithm,
/// signature of the subject under the issuer's key, the subject's validity
/// window, the issuer's basic constraints and key usage, and revocation.
pub open spec fn spec_link_ok<O: CryptoOps>(
    ops: O,
    subj: Certificate,
    iss: Certificate,
    iss_is_anchor: bool,
    policy: Policy,
) -> bool {
    &&& subj.issuer@ == iss.subject@
    &&& spec_key_ids_ok(subj, iss)
    &&& spec_algorithm_allowed(subj.signature_algorithm)
    &&& ops.spec_signature_valid(
        iss.public_key@,
        subj.signature_algorithm,
        subj.tbs_bytes@,
        subj.signature@,
    )
    &&& spec_time_valid(subj, policy.validation_time)
    &&& spec_issuer_bc_ok(iss, iss_is_anchor)
    &&& spec_issuer_ku_ok(iss, iss_is_anchor)
    &&& spec_revocation_ok(ops, subj, iss, policy.revocation_fail_closed)
}

/// The reason [`check_link`] reports for a failing pair: the first check
/// of [`spec_link_ok`], in its listed order, that does not hold. A pair
/// that fails name or key-identifier linkage is not a path at all, so it
/// surfaces as `NoPathFound`. On a passing pair the value is meaningless.
pub open spec fn spec_link_error<O: CryptoOps>(
    ops: O,
    subj: Certificate,
    iss: Certificate,
    iss_is_anchor: bool,
    policy: Policy,
) -> VerificationError {
    if subj.issuer@ != iss.subject@ {
        VerificationError::NoPathFound
    } else if !spec_key_ids_ok(subj, iss) {
        VerificationError::NoPathFound
    } else if !spec_algorithm_allowed(subj.signature_algorithm) {
        VerificationError::UnsupportedAlgorithm
    } else if !ops.spec_signature_valid(
        iss.public_key@,
        subj.signature_algorithm,
        subj.tbs_bytes@,
        subj.signature@,
    ) {
        VerificationError::SignatureInvalid
    } else if subj.not_after < policy.validation_time {
        VerificationError::Expired
    } else if subj.not_before > policy.validation_time {
        VerificationError::NotYetValid
    } else if !spec_issuer_bc_ok(iss, iss_is_anchor) {
        VerificationError::BasicConstraintsViolation
    } else if !spec_issuer_ku_ok(iss, iss_is_anchor) {
        VerificationError::KeyUsageViolation
    } else {
        VerificationError::Revoked
    }
}

/// Executable form of [`spec_link_ok`], reporting exactly the first
/// failing check, as [`spec_link_error`] states it.
pub fn check_link<O: CryptoOps>(
    ops: &O,
    subj: &Certificate,
    iss: &Certificate,
    iss_is_anchor: bool,
    policy: &Policy,
) -> (r: Result<(), VerificationError>)
    ensures
        r is Ok <==> spec_link_ok(*ops, *subj, *iss, iss_is_anchor, *policy),
        r matches Err(e) ==> e == spec_link_error(*ops, *subj, *iss, iss_is_anchor, *policy),
{
    if !bytes_eq(&subj.issuer, &iss.subject) {
        return Err(VerificationError::NoPathFound);
    }
    let ids_ok = match (&subj.extensions.authority_key_id, &iss.extensions.subject_key_id) {
        (Some(aki), Some(ski)) => bytes_eq(aki, ski),
        _ => true,
    };
    if !ids_ok {
        return Err(VerificationError::NoPathFound);
    }
    if !algorithm_allowed(subj.signature_algorithm) {
        return Err(VerificationError::UnsupportedAlgorithm);
    }
    if !ops.signature_valid(
        &iss.public_key,
        subj.signature_algorithm,
        &subj.tbs_bytes,
        &subj.signature,
    ) {
        return Err(VerificationError::SignatureInvalid);
    }
    if subj.not_after < policy.validation_time {
        return Err(VerificationError::Expired);
    }
    if subj.not_before > policy.validation_time {
        return Err(VerificationError::NotYetValid);
    }
    let bc_ok = match &iss.extensions.basic_constraints {
        Some(bc) => bc.ca,
        None => iss_is_anchor,
    };
    if !bc_ok {
        return Err(VerificationError::BasicConstraintsViolation);
    }
    let ku_ok = match &iss.extensions.key_usage {
        Some(ku) => ku.key_cert_sign,
        None => iss_is_anchor,
    };
    if !ku_ok {
        return Err(VerificationError::KeyUsageViolation);
    }
    match ops.revocation_status(subj, iss) {
        RevocationStatus::Good => Ok(()),
        RevocationStatus::Revoked => Err(VerificationError::Revoked),
        RevocationStatus::Unknown => {
            if policy.revocation_fail_closed {
                Err(VerificationError::Revoked)
            } else {
                Ok(())
            }
        },
    }
}

/// One subject-alternative-name entry of the leaf matches the presented
/// name: a DNS entry under the wildcard rule, an IP entry byte-exactly.
pub open spec fn spec_san_matches(c: Certificate, name: Seq<u8>) -> bool {
    match c.extensions.subject_alt_name {
        Some(sans) => exists|i: int|
            0 <= i < sans@.len() && spec_entry_matches(#[trigger] sans@[i], name),
        None => false,
    }
}

/// One subject-alternative-name entry matches the presented name.
pub open spec fn spec_entry_matches(entry: GeneralName, name: Seq<u8>) -> bool {
    match entry {
        GeneralName::Dns(p) => spec_dns_matches(p@, name),
        GeneralName::Ip(p) => p@ == name,
    }
}

/// The leaf satisfies the profile: the client profile asks nothing here;
/// the server profile requires a subject-alternative-name match for the
/// presented name.
pub open spec fn spec_profile_ok(leaf: Certificate, profile: Profile) -> bool {
    match profile {
        Profile::Client => true,
        Profile::Server { name } => spec_san_matches(leaf, name@),
    }
}

/// Executable form of [`spec_san_matches`].
#[verifier::loop_isolation(false)]
pub fn san_matches(c: &Certificate, name: &Vec<u8>) -> (r: bool)
    ensures
        r == spec_san_matches(*c, name@),
{
    match &c.extensions.subject_alt_name {
        Some(sans) => {
            let n = sans.len();
            let mut i: usize = 0;
            while i < n
                invariant
                    n == sans@.len(),
                    i <= n,
                    forall|j: int|
                        0 <= j < i ==> !spec_entry_matches(#[trigger] sans@[j], name@),
                decreases n - i,
            {
                let hit = match &sans[i] {
                    GeneralName::Dns(p) => dns_matches(p, name),
                    GeneralName::Ip(p) => bytes_eq(p, name),
                };
                proof {
                    assert(c.extensions.subject_alt_name == Some(*sans));
                    assert(hit == spec_entry_matches(sans@[i as int], name@));
                }
                if hit {
                    proof {
                        assert(spec_entry_matches(sans@[i as int], name@));
                        assert(spec_san_matches(*c, name@));
                    }
                    return true;
                }
                i += 1;
            }
            proof {
                if spec_san_matches(*c, name@) {
                    let j = choose|j: int|
                        0 <= j < sans@.len() && spec_entry_matches(#[trigger] sans@[j], name@);
                    assert(false);
                }
            }
            false
        },
        None => false,
    }
}

/// A DNS name is acceptable under one CA's name constraints: inside no
/// excluded subtree and, when permitted subtrees are stated, inside at
/// least one of them.
pub open spec fn spec_name_allowed(nc: NameConstraints, name: Seq<u8>) -> bool {
    &&& forall|k: int| 0 <= k < nc.excluded@.len() ==> !spec_in_subtree(name, nc.excluded@[k]@)
    &&& nc.permitted@.len() > 0 ==> exists|k: int|
        0 <= k < nc.permitted@.len() && spec_in_subtree(name, nc.permitted@[k]@)
}

/// Executable form of [`spec_name_allowed`].
#[verifier::loop_isolation(false)]
pub fn name_allowed(nc: &NameConstraints, name: &Vec<u8>) -> (r: bool)
    ensures
        r == spec_name_allowed(*nc, name@),
{
    let ne = nc.excluded.len();
    let mut i: usize = 0;
    while i < ne
        invariant
            ne == nc.excluded@.len(),
            i <= ne,
            forall|k: int| 0 <= k < i ==> !spec_in_subtree(name@, nc.excluded@[k]@),
        decreases ne - i,
    {
        if in_subtree(name, &nc.excluded[i]) {
            return false;
        }
        i += 1;
    }
    if nc.permitted.len() == 0 {
        return true;
    }
    let np = nc.permitted.len();
    let mut p: usize = 0;
    while p < np
        invariant
            np == nc.permitted@.len(),
            p <= np,
            forall|k: int| 0 <= k < p ==> !spec_in_subtree(name@, nc.permitted@[k]@),
        decreases np - p,
    {
        if in_subtree(name, &nc.permitted[p]) {
            proof {
                assert(spec_in_subtree(name@, nc.permitted@[p as int]@));
            }
            return true;
        }
        p += 1;
    }
    proof {
        if exists|k: int| 0 <= k < nc.permitted@.len() && spec_in_subtree(name@, nc.permitted@[k]@) {
            let k = choose|k: int|
                0 <= k < nc.permitted@.len() && spec_in_subtree(name@, nc.permitted@[k]@);
            assert(false);
        }
    }
    false
}

/// Every DNS subject-alternative-name of a certificate is acceptable under
/// one CA's name constraints. IP entries and certificates without the
/// extension are unconstrained: the subtrees of this engine speak of DNS
/// names only.
pub open spec fn spec_cert_names_allowed(nc: NameConstraints, c: Certificate) -> bool {
    match c.extensions.subject_alt_name {
        Some(sans) => forall|i: int|
            0 <= i < sans@.len() ==> spec_entry_allowed(nc, #[trigger] sans@[i]),
        None => true,
    }
}

/// One subject-alternative-name entry is acceptable under the constraints.
pub open spec fn spec_entry_allowed(nc: NameConstraints, entry: GeneralName) -> bool {
    match entry {
        GeneralName::Dns(d) => spec_name_allowed(nc, d@),
        GeneralName::Ip(_) => true,
    }
}

/// Executable form of [`spec_cert_names_allowed`].
#[verifier::loop_isolation(false)]
pub fn cert_names_allowed(nc: &NameConstraints, c: &Certificate) -> (r: bool)
    ensures
        r == spec_cert_names_allowed(*nc, *c),
{
    match &c.extensions.subject_alt_name {
        Some(sans) => {
            let n = sans.len();
            let mut i: usize = 0;
            while i < n
                invariant
                    n == sans@.len(),
                    i <= n,
                    forall|j: int| 0 <= j < i ==> spec_entry_allowed(*nc, #[trigger] sans@[j]),
                decreases n - i,
            {
                let ok = match &sans[i] {
                    GeneralName::Dns(d) => name_allowed(nc, d),
                    GeneralName::Ip(_) => true,
                };
                proof {
                    assert(c.extensions.subject_alt_name == Some(*sans));
                    assert(ok == spec_entry_allowed(*nc, sans@[i as int]));
                }
                if !ok {
                    proof {
                        if spec_cert_names_allowed(*nc, *c) {
                            assert(spec_entry_allowed(*nc, sans@[i as int]));
                        }
                    }
                    return false;
                }
                i += 1;
            }
            true
        },
        None => true,
    }
}

/// Every certificate in the chain whose extended key usages are restricted
/// allows the required usage.
pub open spec fn spec_chain_eku_ok(chain: Seq<Certificate>, required: u64) -> bool {
    forall|i: int| 0 <= i < chain.len() ==> spec_eku_ok(#[trigger] chain[i], required)
}

/// The certificate was issued under its own name: subject and issuer are
/// the same distinguished name. Such certificates do not count against
/// path-length limits.
pub open spec fn spec_self_issued(c: Certificate) -> bool {
    c.subject@ == c.issuer@
}

/// Number of non-self-issued certificates among chain positions `1`
/// (above the leaf) up to, excluding, `hi`.
pub open spec fn spec_nsi_count(chain: Seq<Certificate>, hi: int) -> int
    decreases hi,
{
    if hi <= 1 {
        0
    } else {
        spec_nsi_count(chain, hi - 1) + if spec_self_issued(chain[hi - 1]) {
            0int
        } else {
            1int
        }
    }
}

/// Every path-length limit stated along the chain is respected: a CA at
/// position `j` (leaf at zero) with limit `L` has at most `L`
/// non-self-issued certificates below it besides the leaf.
pub open spec fn spec_chain_pathlen_ok(chain: Seq<Certificate>) -> bool {
    forall|j: int|
        1 <= j < chain.len() ==> match (#[trigger] chain[j]).extensions.basic_constraints {
            Some(bc) => match bc.path_len {
                Some(limit) => spec_nsi_count(chain, j) <= limit,
                None => true,
            },
            None => true,
        }
}

/// The name constraints of every CA in the chain admit the names of every
/// certificate below it. The constraints reach the DNS
/// subject-alternative-names of those certificates and nothing else:
/// subject distinguished names are opaque bytes in this model, so no
/// subtree is applied to them.
pub open spec fn spec_chain_nc_ok(chain: Seq<Certificate>) -> bool {
    forall|j: int, i: int|
        1 <= j < chain.len() && 0 <= i < j ==> match (
        #[trigger] chain[j]).extensions.name_constraints {
            Some(nc) => spec_cert_names_allowed(nc, #[trigger] chain[i]),
            None => true,
        }
}

/// No certificate in the chain carries an unrecognized critical extension.
pub open spec fn spec_chain_critical_ok(chain: Seq<Certificate>) -> bool {
    forall|i: int| 0 <= i < chain.len() ==> !(#[trigger] chain[i]).extensions.has_unknown_critical
}

/// The certificate-policy sets stated along the chain have a common
/// member: some OID is named by every certificate that restricts its
/// policies. Certificates without the extension restrict nothing.
pub open spec fn spec_chain_policies_ok(chain: Seq<Certificate>) -> bool {
    exists|oid: u64|
        #![trigger spec_policies_admit(chain, oid)]
        spec_policies_admit(chain, oid)
}

/// Every certificate in the chain that states certificate policies names
/// `oid` among them.
pub open spec fn spec_policies_admit(chain: Seq<Certificate>, oid: u64) -> bool {
    forall|i: int|
        0 <= i < chain.len() ==> match (#[trigger] chain[i]).extensions.certificate_policies {
            Some(list) => list@.contains(oid),
            None => true,
        }
}

/// OIDs occurring in both lists, in the order of `a`.
#[verifier::loop_isolation(false)]
fn intersect(a: &Vec<u64>, b: &Vec<u64>) -> (r: Vec<u64>)
    ensures
        forall|x: u64| #[trigger] r@.contains(x) <==> a@.contains(x) && b@.contains(x),
{
    let n = a.len();
    let mut r: Vec<u64> = Vec::new();
    let mut i: usize = 0;
    while i < n
        invariant
            n == a.len(),
            i <= n,
            forall|k: int|
                0 <= k < r@.len() ==> a@.contains(#[trigger] r@[k]) && b@.contains(r@[k]),
            forall|j: int| 0 <= j < i && b@.contains(#[trigger] a@[j]) ==> r@.contains(a@[j]),
        decreases n - i,
    {
        let ghost old_r = r@;
        if oid_listed(b, a[i]) {
            if !oid_listed(&r, a[i]) {
                r.push(a[i]);
                proof {
                    assert(a@.contains(a@[i as int]));
                    assert(r@[r@.len() - 1] == a@[i as int]);
                    assert forall|j: int|
                        0 <= j < i + 1 && b@.contains(#[trigger] a@[j]) implies r@.contains(
                        a@[j],
                    ) by {
                        if j < i {
                            let k = choose|k: int| 0 <= k < old_r.len() && old_r[k] == a@[j];
                            assert(r@[k] == a@[j]);
                        } else {
                            assert(r@[r@.len() - 1] == a@[j]);
                        }
                    }
                }
            } else {
                proof {
                    assert forall|j: int|
                        0 <= j < i + 1 && b@.contains(#[trigger] a@[j]) implies r@.contains(
                        a@[j],
                    ) by {
                        if j == i {
                            assert(r@.contains(a@[i as int]));
                        }
                    }
                }
            }
        } else {
            proof {
                assert forall|j: int|
                    0 <= j < i + 1 && b@.contains(#[trigger] a@[j]) implies r@.contains(a@[j]) by {
                    assert(j < i);
                }
            }
        }
        i += 1;
    }
    proof {
        assert forall|x: u64| #[trigger] r@.contains(x) implies a@.contains(x) && b@.contains(
            x,
        ) by {
            let k = choose|k: int| 0 <= k < r@.len() && r@[k] == x;
            assert(a@.contains(r@[k]));
        }
        assert forall|x: u64| a@.contains(x) && b@.contains(x) implies #[trigger] r@.contains(
            x,
        ) by {
            let j = choose|j: int| 0 <= j < a@.len() && a@[j] == x;
            assert(b@.contains(a@[j]));
        }
    }
    r
}

/// Copy a list of OIDs.
#[verifier::loop_isolation(false)]
fn copy_oids(a: &Vec<u64>) -> (r: Vec<u64>)
    ensures
        r@ == a@,
{
    let n = a.len();
    let mut r: Vec<u64> = Vec::new();
    let mut i: usize = 0;
    while i < n
        invariant
            n == a.len(),
            i <= n,
            r@ == a@.subrange(0, i as int),
        decreases n - i,
    {
        r.push(a[i]);
        assert(r@ =~= a@.subrange(0, i + 1));
        i += 1;
    }
    assert(a@.subrange(0, a@.len() as int) =~= a@);
    r
}

/// Executable form of [`spec_chain_policies_ok`]: intersect the stated
/// policy sets down the chain and demand a nonempty result.
#[verifier::loop_isolation(false)]
pub fn chain_policies_ok(chain: &Vec<&Certificate>) -> (r: bool)
    ensures
        r == spec_chain_policies_ok(seq_deref(chain@)),
{
    let ghost gchain = seq_deref(chain@);
    let n = chain.len();
    let mut acc: Option<Vec<u64>> = None;
    let mut i: usize = 0;
    proof {
        assert(gchain.len() == chain@.len());
    }
    while i < n
        invariant
            n == chain@.len(),
            gchain == seq_deref(chain@),
            gchain.len() == n,
            i <= n,
            forall|j: int| 0 <= j < i ==> gchain[j] == *chain@[j],
            match acc {
                None => forall|j: int|
                    0 <= j < i ==> (#[trigger] gchain[j]).extensions.certificate_policies is None,
                Some(a) => forall|x: u64| #[trigger] a@.contains(x)
                    <==> spec_policies_admit(gchain.take(i as int), x),
            },
        decreases n - i,
    {
        proof {
            assert(gchain[i as int] == *chain@[i as int]);
        }
        let ghost prefix = gchain.take(i as int);
        let ghost prefix1 = gchain.take(i + 1);
        proof {
            assert(prefix1.drop_last() =~= prefix);
            assert(prefix1.last() == gchain[i as int]);
            assert forall|x: u64|
                spec_policies_admit(prefix1, x) == (spec_policies_admit(prefix, x) && match gchain[i as int].extensions.certificate_policies {
                    Some(list) => list@.contains(x),
                    None => true,
                }) by {
                if spec_policies_admit(prefix1, x) {
                    assert forall|j: int| 0 <= j < prefix.len() implies match (
                    #[trigger] prefix[j]).extensions.certificate_policies {
                        Some(list) => list@.contains(x),
                        None => true,
                    } by {
                        assert(prefix1[j] == prefix[j]);
                    }
                    assert(prefix1[i as int] == gchain[i as int]);
                } else {
                    if spec_policies_admit(prefix, x) && match gchain[i as int].extensions.certificate_policies {
                        Some(list) => list@.contains(x),
                        None => true,
                    } {
                        assert forall|j: int| 0 <= j < prefix1.len() implies match (
                        #[trigger] prefix1[j]).extensions.certificate_policies {
                            Some(list) => list@.contains(x),
                            None => true,
                        } by {
                            if j < i {
                                assert(prefix[j] == prefix1[j]);
                            } else {
                                assert(prefix1[j] == gchain[i as int]);
                            }
                        }
                    }
                }
            }
        }
        match &chain[i].extensions.certificate_policies {
            None => {
                proof {
                    match &acc {
                        None => {},
                        Some(a) => {
                            assert forall|x: u64| #[trigger] a@.contains(x) implies
                                spec_policies_admit(prefix1, x) by {}
                            assert forall|x: u64| spec_policies_admit(prefix1, x) implies
                                #[trigger] a@.contains(x) by {
                                assert forall|j: int| 0 <= j < prefix.len() implies match (
                                #[trigger] prefix[j]).extensions.certificate_policies {
                                    Some(list) => list@.contains(x),
                                    None => true,
                                } by {
                                    assert(prefix1[j] == prefix[j]);
                                }
                            }
                        },
                    }
                }
            },
            Some(list) => {
                let next = match &acc {
                    None => {
                        let copied = copy_oids(list);
                        proof {
                            assert forall|x: u64| #[trigger] copied@.contains(x) implies
                                spec_policies_admit(prefix1, x) by {
                                assert forall|j: int| 0 <= j < prefix1.len() implies match (
                                #[trigger] prefix1[j]).extensions.certificate_policies {
                                    Some(l) => l@.contains(x),
                                    None => true,
                                } by {
                                    if j < i {
                                        assert(prefix1[j] == gchain[j]);
                                    } else {
                                        assert(prefix1[j] == gchain[i as int]);
                                    }
                                }
                            }
                            assert forall|x: u64| spec_policies_admit(prefix1, x) implies
                                #[trigger] copied@.contains(x) by {
                                assert(prefix1[i as int] == gchain[i as int]);
                            }
                        }
                        copied
                    },
                    Some(a) => {
                        let merged = intersect(a, list);
                        proof {
                            assert forall|x: u64| #[trigger] merged@.contains(x) implies
                                spec_policies_admit(prefix1, x) by {}
                            assert forall|x: u64| spec_policies_admit(prefix1, x) implies
                                #[trigger] merged@.contains(x) by {
                                assert(prefix1[i as int] == gchain[i as int]);
                            }
                        }
                        merged
                    },
                };
                acc = Some(next);
            },
        }
        i += 1;
    }
    proof {
        assert(gchain.take(n as int) =~= gchain);
    }
    match &acc {
        None => {
            proof {
                assert(spec_policies_admit(gchain, 0));
            }
            true
        },
        Some(a) => {
            if a.len() > 0 {
                let witness = a[0];
                proof {
                    assert(a@.contains(a@[0]));
                    assert(spec_policies_admit(gchain, witness));
                }
                true
            } else {
                proof {
                    if spec_chain_policies_ok(gchain) {
                        let oid = choose|oid: u64| spec_policies_admit(gchain, oid);
                        assert(a@.contains(oid));
                    }
                }
                false
            }
        },
    }
}

/// Position of the first adjacent pair at or after `i` that fails
/// [`spec_link_ok`], or `chain.len() - 1` when every remaining pair
/// passes.
pub open spec fn spec_first_bad_link<O: CryptoOps>(
    ops: O,
    chain: Seq<Certificate>,
    policy: Policy,
    i: int,
) -> int
    decreases chain.len() - i when 0 <= i <= chain.len()
{
    if i >= chain.len() - 1 {
        chain.len() - 1
    } else if !spec_link_ok(ops, chain[i], chain[i + 1], i + 1 == chain.len() - 1, policy) {
        i
    } else {
        spec_first_bad_link(ops, chain, policy, i + 1)
    }
}

/// When the pairs from `k` up to `i` pass and the pair at `i` fails, `i`
/// is the first bad pair counted from `k`.
pub proof fn lemma_first_bad_link_at<O: CryptoOps>(
    ops: O,
    chain: Seq<Certificate>,
    policy: Policy,
    k: int,
    i: int,
)
    requires
        0 <= k <= i,
        i < chain.len() - 1,
        forall|j: int|
            k <= j < i ==> spec_link_ok(
                ops,
                #[trigger] chain[j],
                chain[j + 1],
                j + 1 == chain.len() - 1,
                policy,
            ),
        !spec_link_ok(ops, chain[i], chain[i + 1], i + 1 == chain.len() - 1, policy),
    ensures
        spec_first_bad_link(ops, chain, policy, k) == i,
    decreases i - k,
{
    if k < i {
        lemma_first_bad_link_at(ops, chain, policy, k + 1, i);
    }
}

/// When every pair from `k` on passes, there is no bad pair from `k` on.
pub proof fn lemma_first_bad_link_none<O: CryptoOps>(
    ops: O,
    chain: Seq<Certificate>,
    policy: Policy,
    k: int,
)
    requires
        0 <= k <= chain.len(),
        forall|j: int|
            k <= j < chain.len() - 1 ==> spec_link_ok(
                ops,
                #[trigger] chain[j],
                chain[j + 1],
                j + 1 == chain.len() - 1,
                policy,
            ),
    ensures
        spec_first_bad_link(ops, chain, policy, k) == chain.len() - 1,
    decreases chain.len() - k,
{
    if k < chain.len() - 1 {
        lemma_first_bad_link_none(ops, chain, policy, k + 1);
    }
}

/// The reason [`validate_candidate`] reports for a failing chain: the
/// first check of [`spec_content_ok`], in the order the checks are listed
/// there, that does not hold; a failing pair contributes the reason
/// [`spec_link_error`] gives it. On a passing chain the value is
/// meaningless.
#[verifier::opaque]
pub open spec fn spec_candidate_error<O: CryptoOps>(
    ops: O,
    chain: Seq<Certificate>,
    policy: Policy,
) -> VerificationError {
    let fb = spec_first_bad_link(ops, chain, policy, 0);
    if !spec_chain_critical_ok(chain) {
        VerificationError::UnknownCriticalExtension
    } else if chain[0].not_after < policy.validation_time {
        VerificationError::Expired
    } else if chain[0].not_before > policy.validation_time {
        VerificationError::NotYetValid
    } else if !spec_profile_ok(chain[0], policy.profile) {
        VerificationError::HostnameMismatch
    } else if fb < chain.len() - 1 {
        spec_link_error(ops, chain[fb], chain[fb + 1], fb + 1 == chain.len() - 1, policy)
    } else if !spec_chain_eku_ok(chain, policy.required_eku) {
        VerificationError::ExtendedKeyUsageViolation
    } else if !spec_chain_pathlen_ok(chain) {
        VerificationError::PathLengthExceeded
    } else if !spec_chain_nc_ok(chain) {
        VerificationError::NameConstraintViolation
    } else if policy.check_policies && !spec_chain_policies_ok(chain) {
        VerificationError::PolicyConstraintViolation
    } else if ops.spec_extra_chain_check(chain) is Some {
        ops.spec_extra_chain_check(chain).unwrap()
    } else {
        VerificationError::NoPathFound
    }
}

/// Everything the policy demands of a candidate chain's content, the leaf
/// at position zero and a trust anchor last: every link check, the leaf's
/// validity window and profile, and the chain-wide extended-key-usage,
/// path-length, name-constraint, certificate-policy and critical-extension
/// rules.
#[verifier::opaque]
pub open spec fn spec_content_ok<O: CryptoOps>(ops: O, chain: Seq<Certificate>, policy: Policy) -> bool {
    &&& chain.len() >= 1
    &&& forall|i: int|
        0 <= i < chain.len() - 1 ==> spec_link_ok(
            ops,
            #[trigger] chain[i],
            chain[i + 1],
            i + 1 == chain.len() - 1,
            policy,
        )
    &&& spec_time_valid(chain[0], policy.validation_time)
    &&& spec_profile_ok(chain[0], policy.profile)
    &&& spec_chain_eku_ok(chain, policy.required_eku)
    &&& spec_chain_pathlen_ok(chain)
    &&& spec_chain_nc_ok(chain)
    &&& (policy.check_policies ==> spec_chain_policies_ok(chain))
    &&& spec_chain_critical_ok(chain)
    &&& ops.spec_extra_chain_check(chain) is None
}

/// No chain element carries an unrecognized critical extension;
/// executable form of [`spec_chain_critical_ok`].
#[verifier::loop_isolation(false)]
pub fn check_chain_critical(chain: &Vec<&Certificate>) -> (r: bool)
    ensures
        r == spec_chain_critical_ok(seq_deref(chain@)),
{
    let ghost gchain = seq_deref(chain@);
    let n = chain.len();
    let mut i: usize = 0;
    while i < n
        invariant
            i <= n,
            forall|j: int| 0 <= j < i ==> !(#[trigger] gchain[j]).extensions.has_unknown_critical,
        decreases n - i,
    {
        if chain[i].extensions.has_unknown_critical {
            proof {
                assert(gchain[i as int].extensions.has_unknown_critical);
            }
            return false;
        }
        i += 1;
    }
    true
}

/// Check every (subject, issuer) pair of the chain in order, reporting
/// the first failing pair's first failing check.
#[verifier::loop_isolation(false)]
pub fn check_chain_links<O: CryptoOps>(ops: &O, chain: &Vec<&Certificate>, policy: &Policy) -> (r:
    Result<(), VerificationError>)
    ensures
        r is Ok <==> forall|i: int|
            0 <= i < chain@.len() - 1 ==> spec_link_ok(
                *ops,
                #[trigger] seq_deref(chain@)[i],
                seq_deref(chain@)[i + 1],
                i + 1 == chain@.len() - 1,
                *policy,
            ),
        r matches Err(e) ==> ({
            let gchain = seq_deref(chain@);
            let fb = spec_first_bad_link(*ops, gchain, *policy, 0);
            fb < gchain.len() - 1 && e == spec_link_error(
                *ops,
                gchain[fb],
                gchain[fb + 1],
                fb + 1 == gchain.len() - 1,
                *policy,
            )
        }),
{
    let ghost gchain = seq_deref(chain@);
    let n = chain.len();
    if n == 0 {
        return Ok(());
    }
    let mut i: usize = 0;
    while i < n - 1
        invariant
            n >= 1,
            i <= n - 1,
            forall|j: int|
                0 <= j < i ==> spec_link_ok(
                    *ops,
                    #[trigger] gchain[j],
                    gchain[j + 1],
                    j + 1 == n - 1,
                    *policy,
                ),
        decreases n - i,
    {
        match check_link(ops, chain[i], chain[i + 1], i + 1 == n - 1, policy) {
            Ok(()) => {},
            Err(e) => {
                proof {
                    assert(!spec_link_ok(
                        *ops,
                        gchain[i as int],
                        gchain[i + 1],
                        i + 1 == n - 1,
                        *policy,
                    ));
                    lemma_first_bad_link_at(*ops, gchain, *policy, 0, i as int);
                }
                return Err(e);
            },
        }
        i += 1;
    }
    Ok(())
}

/// Every chain element's extended key usages allow the required one;
/// executable form of [`spec_chain_eku_ok`].
#[verifier::loop_isolation(false)]
pub fn check_chain_eku(chain: &Vec<&Certificate>, required: u64) -> (r: bool)
    ensures
        r == spec_chain_eku_ok(seq_deref(chain@), required),
{
    let ghost gchain = seq_deref(chain@);
    let n = chain.len();
    let mut i: usize = 0;
    while i < n
        invariant
            i <= n,
            forall|j: int| 0 <= j < i ==> spec_eku_ok(#[trigger] gchain[j], required),
        decreases n - i,
    {
        if !eku_ok(chain[i], required) {
            proof {
                assert(!spec_eku_ok(gchain[i as int], required));
            }
            return false;
        }
        i += 1;
    }
    true
}

/// Every stated path-length limit is respected; executable form of
/// [`spec_chain_pathlen_ok`]. `cnt` carries the number of non-self-issued
/// certificates seen above the leaf so far.
#[verifier::loop_isolation(false)]
pub fn check_chain_pathlen(chain: &Vec<&Certificate>) -> (r: bool)
    ensures
        r == spec_chain_pathlen_ok(seq_deref(chain@)),
{
    let ghost gchain = seq_deref(chain@);
    let n = chain.len();
    let mut cnt: usize = 0;
    let mut j: usize = 1;
    while j < n
        invariant
            1 <= j,
            j <= n || n <= 1,
            cnt < j,
            cnt == spec_nsi_count(gchain, j as int),
            forall|k: int|
                1 <= k < j ==> match (#[trigger] gchain[k]).extensions.basic_constraints {
                    Some(bc) => match bc.path_len {
                        Some(limit) => spec_nsi_count(gchain, k) <= limit,
                        None => true,
                    },
                    None => true,
                },
        decreases n - j,
    {
        let violated = match &chain[j].extensions.basic_constraints {
            Some(bc) => match bc.path_len {
                Some(limit) => (cnt as u64) > limit,
                None => false,
            },
            None => false,
        };
        if violated {
            proof {
                assert(gchain[j as int] == *chain@[j as int]);
            }
            return false;
        }
        let self_issued = bytes_eq(&chain[j].subject, &chain[j].issuer);
        proof {
            assert(gchain[j as int] == *chain@[j as int]);
            assert(self_issued == spec_self_issued(gchain[j as int]));
            assert(spec_nsi_count(gchain, j + 1) == spec_nsi_count(gchain, j as int) + if spec_self_issued(gchain[j as int]) {
                0int
            } else {
                1int
            });
        }
        if !self_issued {
            cnt += 1;
        }
        j += 1;
    }
    true
}

/// The name constraints of every CA admit everything below it; executable
/// form of [`spec_chain_nc_ok`].
#[verifier::loop_isolation(false)]
pub fn check_chain_nc(chain: &Vec<&Certificate>) -> (r: bool)
    ensures
        r == spec_chain_nc_ok(seq_deref(chain@)),
{
    let ghost gchain = seq_deref(chain@);
    let n = chain.len();
    let mut j: usize = 1;
    while j < n
        invariant
            1 <= j,
            j <= n || n <= 1,
            forall|k: int, i2: int|
                1 <= k < j && 0 <= i2 < k ==> match (
                #[trigger] gchain[k]).extensions.name_constraints {
                    Some(nc) => spec_cert_names_allowed(nc, #[trigger] gchain[i2]),
                    None => true,
                },
        decreases n - j,
    {
        match &chain[j].extensions.name_constraints {
            Some(nc) => {
                proof {
                    assert(gchain[j as int].extensions.name_constraints == Some(*nc));
                }
                let mut i2: usize = 0;
                while i2 < j
                    invariant
                        j < n,
                        i2 <= j,
                        gchain[j as int].extensions.name_constraints == Some(*nc),
                        forall|k: int| 0 <= k < i2 ==> spec_cert_names_allowed(*nc, #[trigger] gchain[k]),
                    decreases j - i2,
                {
                    if !cert_names_allowed(nc, chain[i2]) {
                        proof {
                            assert(!spec_cert_names_allowed(*nc, gchain[i2 as int]));
                        }
                        return false;
                    }
                    i2 += 1;
                }
            },
            None => {},
        }
        j += 1;
    }
    true
}

/// Decide [`spec_content_ok`] for a candidate chain. A failing chain is
/// reported with exactly the reason [`spec_candidate_error`] states: the
/// first failing check in the listed order.
pub fn validate_candidate<O: CryptoOps>(ops: &O, chain: &Vec<&Certificate>, policy: &Policy) -> (r:
    Result<(), VerificationError>)
    requires
        chain@.len() >= 1,
    ensures
        r is Ok <==> spec_content_ok(*ops, seq_deref(chain@), *policy),
        r matches Err(e) ==> e == spec_candidate_error(*ops, seq_deref(chain@), *policy),
{
    proof {
        reveal(spec_candidate_error);
        reveal(spec_content_ok);
    }
    let ghost gchain = seq_deref(chain@);
    // Unrecognized critical extensions.
    if !check_chain_critical(chain) {
        return Err(VerificationError::UnknownCriticalExtension);
    }
    // The leaf's validity window.
    proof {
        assert(gchain[0] == *chain@[0]);
    }
    if chain[0].not_after < policy.validation_time {
        return Err(VerificationError::Expired);
    }
    if chain[0].not_before > policy.validation_time {
        return Err(VerificationError::NotYetValid);
    }
    // The leaf against the profile.
    match &policy.profile {
        Profile::Client => {},
        Profile::Server { name } => {
            proof {
                assert(policy.profile == (Profile::Server { name: *name }));
            }
            if !san_matches(chain[0], name) {
                return Err(VerificationError::HostnameMismatch);
            }
        },
    }
    // Every (subject, issuer) pair.
    match check_chain_links(ops, chain, policy) {
        Ok(()) => {},
        Err(e) => {
            return Err(e);
        },
    }
    proof {
        lemma_first_bad_link_none(*ops, gchain, *policy, 0);
    }
    // Extended key usage, chain-wide.
    if !check_chain_eku(chain, policy.required_eku) {
        return Err(VerificationError::ExtendedKeyUsageViolation);
    }
    // Path-length limits.
    if !check_chain_pathlen(chain) {
        return Err(VerificationError::PathLengthExceeded);
    }
    // Name constraints of every CA against everything below it.
    if !check_chain_nc(chain) {
        return Err(VerificationError::NameConstraintViolation);
    }
    // Certificate-policy intersection, when enabled.
    if policy.check_policies {
        if !chain_policies_ok(chain) {
            return Err(VerificationError::PolicyConstraintViolation);
        }
    }
    // The caller's additional predicates, after the built-in battery.
    match ops.extra_chain_check(chain) {
        None => {},
        Some(e) => {
            return Err(e);
        },
    }
    Ok(())
}

} // verus!
