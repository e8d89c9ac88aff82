//! Chain-level laws of the engine, stated over the same specification
//! functions that [`crate::builder::verify_chain`]'s contract uses.

use vstd::prelude::*;
use crate::cert::{spec_time_valid, Certificate, NameConstraints};
use crate::names::spec_in_subtree;
use crate::ops::CryptoOps;
use crate::policy::Policy;
use crate::validate::{
    lemma_first_bad_link_at, lemma_first_bad_link_none, spec_candidate_error, spec_cert_names_allowed, spec_chain_critical_ok, spec_chain_eku_ok,
    spec_chain_nc_ok, spec_chain_pathlen_ok, spec_content_ok, spec_entry_allowed, spec_key_ids_ok,
    spec_link_ok, spec_name_allowed, spec_profile_ok,
};
use crate::builder::{
    spec_candidate_reported, spec_chain_exists, spec_closed_chain, spec_cycle_reachable,
    spec_depth_guard_hit, spec_error_provenance, spec_path_certs, spec_simple_path,
    spec_valid_path,
};
use crate::error::VerificationError;

verus! {

/// A three-certificate chain built from one leaf, one intermediate and one
/// anchor, whose content passes every check, is accepted, and it is the
/// only chain the search can accept from those inputs: combined with
/// `verify_chain`'s contract, verification returns exactly the chain
/// `[leaf, intermediate, anchor]`.
pub proof fn lemma_three_chain_accepted<O: CryptoOps>(
    ops: O,
    leaf: Certificate,
    inter: Certificate,
    anchor: Certificate,
    policy: Policy,
)
    requires
        spec_content_ok(ops, seq![leaf, inter, anchor], policy),
        policy.max_depth >= 2,
        inter.subject@ != anchor.subject@,
    ensures
        spec_chain_exists(ops, leaf, seq![inter], seq![anchor], policy),
        forall|path: Seq<usize>, root: int|
            #[trigger] spec_valid_path(ops, leaf, seq![inter], seq![anchor], policy, path, root)
                ==> spec_path_certs(leaf, seq![inter], path).push(anchor) == seq![
                leaf,
                inter,
                anchor,
            ],
{
    reveal(spec_content_ok);
    let pool = seq![inter];
    let anchors = seq![anchor];
    let witness: Seq<usize> = seq![0usize, 1usize];
    assert(spec_simple_path(pool, witness));
    assert(spec_path_certs(leaf, pool, witness).push(anchors[0]) =~= seq![leaf, inter, anchor]);
    assert(spec_valid_path(ops, leaf, pool, anchors, policy, witness, 0));
    assert forall|path: Seq<usize>, root: int|
        #[trigger] spec_valid_path(ops, leaf, pool, anchors, policy, path, root) implies
        spec_path_certs(leaf, pool, path).push(anchor) == seq![leaf, inter, anchor] by {
        assert(path[0] == 0);
        if path.len() == 1 {
            let chain = spec_path_certs(leaf, pool, path).push(anchors[root]);
            assert(chain[0] == leaf);
            assert(chain[1] == anchor);
            assert(spec_link_ok(ops, chain[0], chain[1], true, policy));
            // The leaf names the intermediate as its issuer, and the anchor
            // carries a different subject: no two-certificate chain links.
            let full = seq![leaf, inter, anchor];
            assert(spec_link_ok(ops, full[0], full[1], false, policy));
            assert(leaf.issuer@ == inter.subject@);
            assert(false);
        } else if path.len() == 2 {
            assert(path[1] != path[0]);
            assert(path[1] < 2);
            assert(path[1] == 1);
            assert(spec_path_certs(leaf, pool, path).push(anchor) =~= seq![leaf, inter, anchor]);
        } else {
            assert(path[0] != path[1] && path[0] != path[2] && path[1] != path[2]);
            assert(path[0] < 2 && path[1] < 2 && path[2] < 2);
            assert(false);
        }
    }
}

/// A chain with one invalid signature along its links passes no content
/// check: tampering with any signed certificate removes the chain from
/// consideration, whatever the rest of its content says.
pub proof fn lemma_tampered_signature_rejects_chain<O: CryptoOps>(
    ops: O,
    chain: Seq<Certificate>,
    policy: Policy,
    i: int,
)
    requires
        0 <= i < chain.len() - 1,
        !ops.spec_signature_valid(
            chain[i + 1].public_key@,
            chain[i].signature_algorithm,
            chain[i].tbs_bytes@,
            chain[i].signature@,
        ),
    ensures
        !spec_content_ok(ops, chain, policy),
{
    reveal(spec_content_ok);
    if spec_content_ok(ops, chain, policy) {
        assert(spec_link_ok(ops, chain[i], chain[i + 1], i + 1 == chain.len() - 1, policy));
    }
}

/// No candidate path longer than the policy's depth bound is ever valid;
/// together with `verify_chain`'s completeness clause, a shorter valid
/// path is still found and returned whenever one exists.
pub proof fn lemma_depth_bound<O: CryptoOps>(
    ops: O,
    leaf: Certificate,
    pool: Seq<Certificate>,
    anchors: Seq<Certificate>,
    policy: Policy,
    path: Seq<usize>,
    root: int,
)
    requires
        path.len() > policy.max_depth,
    ensures
        !spec_valid_path(ops, leaf, pool, anchors, policy, path, root),
{
}

/// A CA whose name constraints exclude a subtree rejects every chain whose
/// leaf carries a DNS subject-alternative-name inside that subtree.
pub proof fn lemma_excluded_subtree_rejects<O: CryptoOps>(
    ops: O,
    chain: Seq<Certificate>,
    policy: Policy,
    j: int,
    si: int,
    k: int,
)
    requires
        1 <= j < chain.len(),
        chain[j].extensions.name_constraints is Some,
        chain[0].extensions.subject_alt_name is Some,
        0 <= si < chain[0].extensions.subject_alt_name.unwrap()@.len(),
        chain[0].extensions.subject_alt_name.unwrap()@[si] is Dns,
        0 <= k < chain[j].extensions.name_constraints.unwrap().excluded@.len(),
        spec_in_subtree(
            chain[0].extensions.subject_alt_name.unwrap()@[si]->Dns_0@,
            chain[j].extensions.name_constraints.unwrap().excluded@[k]@,
        ),
    ensures
        !spec_content_ok(ops, chain, policy),
{
    reveal(spec_content_ok);
    let nc = chain[j].extensions.name_constraints.unwrap();
    let sans = chain[0].extensions.subject_alt_name.unwrap();
    if spec_content_ok(ops, chain, policy) {
        assert(spec_cert_names_allowed(nc, chain[0])) by {
            assert(crate::validate::spec_chain_nc_ok(chain));
        }
        assert(spec_entry_allowed(nc, sans@[si]));
        let d = sans@[si]->Dns_0;
        assert(spec_name_allowed(nc, d@));
        assert(!spec_in_subtree(d@, nc.excluded@[k]@));
    }
}

/// A rejection whose reason came from the candidate chains alone carries
/// the one reason those chains give: when some candidate chain exists and
/// the cycle and depth guards have nothing to fire on, the reason
/// `verify_chain`'s provenance clause surfaces is the first-failure
/// reason of one of the candidate chains — so if every candidate chain
/// fails with the same reason, that reason is returned.
pub proof fn lemma_rejection_reason<O: CryptoOps>(
    ops: O,
    leaf: Certificate,
    pool: Seq<Certificate>,
    anchors: Seq<Certificate>,
    policy: Policy,
    e: VerificationError,
    want: VerificationError,
)
    requires
        spec_error_provenance(ops, leaf, pool, anchors, policy, e),
        crate::builder::spec_some_candidate_shape(leaf, pool, anchors, policy),
        !spec_cycle_reachable(leaf, pool, policy),
        !spec_depth_guard_hit(leaf, pool, policy),
        forall|cur: Seq<usize>, root: int|
            crate::builder::spec_candidate_shape(leaf, pool, anchors, policy, cur, root)
                ==> spec_candidate_error(
                ops,
                #[trigger] spec_closed_chain(leaf, pool, anchors, cur, root),
                policy,
            ) == want,
    ensures
        e == want,
{
    reveal(spec_error_provenance);
    reveal(crate::builder::spec_recorded_reason);
    reveal(spec_candidate_reported);
    assert(spec_candidate_reported(ops, leaf, pool, anchors, policy, e));
    let (cur, root) = choose|cur: Seq<usize>, root: int|
        crate::builder::spec_candidate_shape(leaf, pool, anchors, policy, cur, root) && e
            == spec_candidate_error(
            ops,
            #[trigger] spec_closed_chain(leaf, pool, anchors, cur, root),
            policy,
        );
}

/// A rejection in which the search ran against the depth bound, with
/// nothing for the cycle guard and no candidate chain giving the reason,
/// is the depth guard's: the reason is `PathLengthExceeded`.
pub proof fn lemma_depth_guard_reason<O: CryptoOps>(
    ops: O,
    leaf: Certificate,
    pool: Seq<Certificate>,
    anchors: Seq<Certificate>,
    policy: Policy,
    e: VerificationError,
)
    requires
        spec_error_provenance(ops, leaf, pool, anchors, policy, e),
        spec_depth_guard_hit(leaf, pool, policy),
        !spec_cycle_reachable(leaf, pool, policy),
        !spec_candidate_reported(ops, leaf, pool, anchors, policy, e),
    ensures
        e == VerificationError::PathLengthExceeded,
{
    reveal(spec_error_provenance);
    reveal(crate::builder::spec_recorded_reason);
}

/// The first-failure reason of a chain whose content is sound up to one
/// link with an invalid signature is `SignatureInvalid`: a tampered
/// signature byte surfaces as exactly that reason.
pub proof fn lemma_candidate_error_signature<O: CryptoOps>(
    ops: O,
    chain: Seq<Certificate>,
    policy: Policy,
    i: int,
)
    requires
        spec_chain_critical_ok(chain),
        chain.len() >= 1,
        spec_time_valid(chain[0], policy.validation_time),
        spec_profile_ok(chain[0], policy.profile),
        0 <= i < chain.len() - 1,
        forall|j: int|
            0 <= j < i ==> spec_link_ok(
                ops,
                #[trigger] chain[j],
                chain[j + 1],
                j + 1 == chain.len() - 1,
                policy,
            ),
        chain[i].issuer@ == chain[i + 1].subject@,
        spec_key_ids_ok(chain[i], chain[i + 1]),
        crate::cert::spec_algorithm_allowed(chain[i].signature_algorithm),
        !ops.spec_signature_valid(
            chain[i + 1].public_key@,
            chain[i].signature_algorithm,
            chain[i].tbs_bytes@,
            chain[i].signature@,
        ),
    ensures
        spec_candidate_error(ops, chain, policy) == VerificationError::SignatureInvalid,
{
    reveal(spec_candidate_error);
    assert(!spec_link_ok(ops, chain[i], chain[i + 1], i + 1 == chain.len() - 1, policy));
    lemma_first_bad_link_at(ops, chain, policy, 0, i);
}

/// The first-failure reason of a chain that is sound up to its name
/// constraints is `NameConstraintViolation`: an excluded subject
/// alternative name surfaces as exactly that reason.
pub proof fn lemma_candidate_error_name_constraints<O: CryptoOps>(
    ops: O,
    chain: Seq<Certificate>,
    policy: Policy,
)
    requires
        spec_chain_critical_ok(chain),
        chain.len() >= 1,
        spec_time_valid(chain[0], policy.validation_time),
        spec_profile_ok(chain[0], policy.profile),
        forall|j: int|
            0 <= j < chain.len() - 1 ==> spec_link_ok(
                ops,
                #[trigger] chain[j],
                chain[j + 1],
                j + 1 == chain.len() - 1,
                policy,
            ),
        spec_chain_eku_ok(chain, policy.required_eku),
        spec_chain_pathlen_ok(chain),
        !spec_chain_nc_ok(chain),
    ensures
        spec_candidate_error(ops, chain, policy) == VerificationError::NameConstraintViolation,
{
    reveal(spec_candidate_error);
    lemma_first_bad_link_none(ops, chain, policy, 0);
}

/// A name inside no excluded subtree is acceptable to a CA that states no
/// permitted subtrees: such constraints leave unrelated names unaffected.
pub proof fn lemma_name_outside_excluded_allowed(nc: NameConstraints, name: Seq<u8>)
    requires
        nc.permitted@.len() == 0,
        forall|k: int| 0 <= k < nc.excluded@.len() ==> !spec_in_subtree(name, nc.excluded@[k]@),
    ensures
        spec_name_allowed(nc, name),
{
}

} // verus!
