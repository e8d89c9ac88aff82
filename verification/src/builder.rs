//! The path builder: depth-first search from the leaf to a trust anchor.
//!
//! Candidate paths are sequences of indices into the bundle formed by the
//! leaf (index zero) followed by the untrusted intermediates; a path
//! closes by appending a trust anchor. The search is depth-first with
//! backtracking, guarded by the policy's depth bound and by a cycle guard
//! that never revisits a bundle position. At each step a path that can
//! terminate at a matching trust anchor is checked whole and accepted
//! before any further issuer from the pool is tried, and pool candidates
//! are tried in supplied order: anchors only close paths, so every
//! accepted chain holds at least two certificates, and a leaf that is
//! itself a trust anchor verifies as the two-certificate chain of itself
//! and its stored copy exactly when it is self-signed.
//!
//! The implementation is a deterministic function of its inputs; its
//! contract pins acceptance exactly ([`spec_chain_exists`]), the
//! soundness of every returned chain ([`spec_sound_chain`]), the leaf's
//! own rejection reasons, and the origin of every other rejection reason
//! ([`spec_error_provenance`]): the reason reached at the greatest chain
//! depth, or `NoPathFound` when no candidate issuer was ever admissible.

use vstd::prelude::*;
use crate::cert::{seq_deref, Certificate};
use crate::error::VerificationError;
use crate::names::bytes_eq;
use crate::ops::CryptoOps;
use crate::policy::Policy;
use crate::store::TrustStore;
use crate::validate::{
    spec_candidate_error, spec_content_ok, spec_link_ok, validate_candidate,
};

verus! {

/// `p` is a prefix of `q`.
pub open spec fn spec_is_prefix(p: Seq<usize>, q: Seq<usize>) -> bool {
    p.len() <= q.len() && p == q.subrange(0, p.len() as int)
}

/// The certificate at a bundle position: the leaf at zero, the
/// intermediates above it in supplied order.
pub open spec fn spec_bundle_at(leaf: Certificate, pool: Seq<Certificate>, i: int) -> Certificate {
    if i == 0 {
        leaf
    } else {
        pool[i - 1]
    }
}

/// The certificates selected by a sequence of bundle positions.
pub open spec fn spec_path_certs(
    leaf: Certificate,
    pool: Seq<Certificate>,
    path: Seq<usize>,
) -> Seq<Certificate> {
    Seq::new(path.len(), |i: int| spec_bundle_at(leaf, pool, path[i] as int))
}

/// A candidate path through the bundle: it starts at the leaf, stays in
/// bounds, and never revisits a position (the cycle guard).
pub open spec fn spec_simple_path(pool: Seq<Certificate>, path: Seq<usize>) -> bool {
    &&& path.len() >= 1
    &&& path[0] == 0
    &&& forall|i: int| 0 <= i < path.len() ==> (#[trigger] path[i]) < pool.len() + 1
    &&& forall|i: int, j: int| 0 <= i < j < path.len() ==> path[i] != path[j]
}

/// The path, closed by the anchor at `root`, is a chain the policy
/// accepts: a simple path within the depth bound whose certificates,
/// followed by that anchor, pass every content check.
pub open spec fn spec_valid_path<O: CryptoOps>(
    ops: O,
    leaf: Certificate,
    pool: Seq<Certificate>,
    anchors: Seq<Certificate>,
    policy: Policy,
    path: Seq<usize>,
    root: int,
) -> bool {
    &&& spec_simple_path(pool, path)
    &&& 0 <= root < anchors.len()
    &&& path.len() <= policy.max_depth
    &&& spec_content_ok(ops, spec_path_certs(leaf, pool, path).push(anchors[root]), policy)
}

/// Some candidate path from the leaf closes at some trust anchor into a
/// chain the policy accepts.
pub open spec fn spec_chain_exists<O: CryptoOps>(
    ops: O,
    leaf: Certificate,
    pool: Seq<Certificate>,
    anchors: Seq<Certificate>,
    policy: Policy,
) -> bool {
    exists|path: Seq<usize>, root: int|
        spec_valid_path(ops, leaf, pool, anchors, policy, path, root)
}

/// The path's last certificate names the certificate at bundle position
/// `c` as its issuer.
pub open spec fn spec_linked(
    leaf: Certificate,
    pool: Seq<Certificate>,
    cur: Seq<usize>,
    c: usize,
) -> bool {
    spec_bundle_at(leaf, pool, cur[cur.len() - 1] as int).issuer@ == spec_bundle_at(
        leaf,
        pool,
        c as int,
    ).subject@
}

/// Some candidate path the search walks can step onto a bundle position
/// it already visits: the situation in which the cycle guard fires.
#[verifier::opaque]
pub open spec fn spec_cycle_reachable(
    leaf: Certificate,
    pool: Seq<Certificate>,
    policy: Policy,
) -> bool {
    exists|cur: Seq<usize>, c: usize|
        spec_reachable_path(leaf, pool, cur) && cur.len() < policy.max_depth && 1 <= c < pool.len()
            + 1 && cur.contains(c) && #[trigger] spec_linked(leaf, pool, cur, c)
}

/// Some candidate path the search walks runs against the policy's depth
/// bound: it is already past it, or it sits at the bound with a further
/// issuer on offer. The situation in which the depth guard fires.
#[verifier::opaque]
pub open spec fn spec_depth_guard_hit(
    leaf: Certificate,
    pool: Seq<Certificate>,
    policy: Policy,
) -> bool {
    exists|cur: Seq<usize>|
        #[trigger] spec_reachable_path(leaf, pool, cur) && (cur.len() > policy.max_depth || (
        cur.len() >= policy.max_depth && exists|c: usize|
            c < pool.len() + 1 && !cur.contains(c) && #[trigger] spec_linked(leaf, pool, cur, c)))
}

/// The candidate chain a path and an anchor form together.
pub open spec fn spec_closed_chain(
    leaf: Certificate,
    pool: Seq<Certificate>,
    anchors: Seq<Certificate>,
    cur: Seq<usize>,
    root: int,
) -> Seq<Certificate> {
    spec_path_certs(leaf, pool, cur).push(anchors[root])
}

/// The path's adjacent pair at position `i` is name-linked: the
/// certificate there names the next one as its issuer.
pub open spec fn spec_pair_linked(
    leaf: Certificate,
    pool: Seq<Certificate>,
    cur: Seq<usize>,
    i: int,
) -> bool {
    spec_bundle_at(leaf, pool, cur[i] as int).issuer@ == spec_bundle_at(
        leaf,
        pool,
        cur[i + 1] as int,
    ).subject@
}

/// A candidate path whose every adjacent pair is name-linked: exactly the
/// paths the search walks.
pub open spec fn spec_reachable_path(
    leaf: Certificate,
    pool: Seq<Certificate>,
    cur: Seq<usize>,
) -> bool {
    &&& spec_simple_path(pool, cur)
    &&& forall|i: int| 0 <= i < cur.len() - 1 ==> #[trigger] spec_pair_linked(leaf, pool, cur, i)
}

/// A candidate chain the search builds and checks whole: a reachable path
/// within the depth bound together with an anchor whose subject matches
/// the path's last issuer name.
#[verifier::opaque]
pub open spec fn spec_candidate_shape(
    leaf: Certificate,
    pool: Seq<Certificate>,
    anchors: Seq<Certificate>,
    policy: Policy,
    cur: Seq<usize>,
    root: int,
) -> bool {
    &&& spec_reachable_path(leaf, pool, cur)
    &&& 0 <= root < anchors.len()
    &&& cur.len() <= policy.max_depth
    &&& anchors[root].subject@ == spec_bundle_at(leaf, pool, cur[cur.len() - 1] as int).issuer@
}

/// Some candidate chain exists for the search to build: some candidate
/// issuer is admissible somewhere.
#[verifier::opaque]
pub open spec fn spec_some_candidate_shape(
    leaf: Certificate,
    pool: Seq<Certificate>,
    anchors: Seq<Certificate>,
    policy: Policy,
) -> bool {
    exists|cur: Seq<usize>, root: int|
        #[trigger] spec_candidate_shape(leaf, pool, anchors, policy, cur, root)
}

/// A cycle-guard witness extending the given path: a walked path with the
/// given prefix that can step onto a position it already visits.
pub open spec fn spec_cycle_witness_from(
    leaf: Certificate,
    pool: Seq<Certificate>,
    policy: Policy,
    cur: Seq<usize>,
    cur2: Seq<usize>,
    cc: usize,
) -> bool {
    &&& spec_reachable_path(leaf, pool, cur2)
    &&& cur2.len() < policy.max_depth
    &&& 1 <= cc < pool.len() + 1
    &&& cur2.contains(cc)
    &&& spec_linked(leaf, pool, cur2, cc)
    &&& spec_is_prefix(cur, cur2)
}

/// A depth-guard witness extending the given path: a walked path with the
/// given prefix that runs against the depth bound.
pub open spec fn spec_depth_witness_from(
    leaf: Certificate,
    pool: Seq<Certificate>,
    policy: Policy,
    cur: Seq<usize>,
    cur2: Seq<usize>,
) -> bool {
    &&& spec_reachable_path(leaf, pool, cur2)
    &&& spec_is_prefix(cur, cur2)
    &&& (cur2.len() > policy.max_depth || (cur2.len() >= policy.max_depth && exists|cc: usize|
        cc < pool.len() + 1 && !cur2.contains(cc) && #[trigger] spec_linked(leaf, pool, cur2, cc)))
}

/// Some candidate chain the search builds fails with exactly the reason
/// `e`, as [`spec_candidate_error`] states it.
#[verifier::opaque]
pub open spec fn spec_candidate_reported<O: CryptoOps>(
    ops: O,
    leaf: Certificate,
    pool: Seq<Certificate>,
    anchors: Seq<Certificate>,
    policy: Policy,
    e: VerificationError,
) -> bool {
    exists|cur: Seq<usize>, root: int|
        spec_candidate_shape(leaf, pool, anchors, policy, cur, root) && e == spec_candidate_error(
            ops,
            #[trigger] spec_closed_chain(leaf, pool, anchors, cur, root),
            policy,
        )
}

/// A reason the search recorded on the way: the cycle guard's, when a
/// path can revisit a position; the depth guard's, when a path runs
/// against the depth bound; or the exact first-failure reason of some
/// candidate chain it built.
#[verifier::opaque]
pub open spec fn spec_recorded_reason<O: CryptoOps>(
    ops: O,
    leaf: Certificate,
    pool: Seq<Certificate>,
    anchors: Seq<Certificate>,
    policy: Policy,
    e: VerificationError,
) -> bool {
    ||| (e == VerificationError::CycleDetected && spec_cycle_reachable(leaf, pool, policy))
    ||| (e == VerificationError::PathLengthExceeded && spec_depth_guard_hit(leaf, pool, policy))
    ||| spec_candidate_reported(ops, leaf, pool, anchors, policy, e)
}

/// Where a rejection's reason can come from: `NoPathFound` only in its
/// own right — when there is no candidate chain at all for the search to
/// build and neither guard has anything to fire on — or a reason the
/// search recorded ([`spec_recorded_reason`]).
#[verifier::opaque]
pub open spec fn spec_error_provenance<O: CryptoOps>(
    ops: O,
    leaf: Certificate,
    pool: Seq<Certificate>,
    anchors: Seq<Certificate>,
    policy: Policy,
    e: VerificationError,
) -> bool {
    ||| (e == VerificationError::NoPathFound && !spec_some_candidate_shape(
        leaf,
        pool,
        anchors,
        policy,
    ) && !spec_cycle_reachable(leaf, pool, policy) && !spec_depth_guard_hit(leaf, pool, policy))
    ||| spec_recorded_reason(ops, leaf, pool, anchors, policy, e)
}

/// An ordered, immutable chain from the leaf to a trust anchor, every
/// content check passed. Produced only by [`verify_chain`].
#[derive(Debug)]
pub struct VerifiedChain<'a> {
    certs: Vec<&'a Certificate>,
}

impl<'a> VerifiedChain<'a> {
    /// The chain, leaf first, trust anchor last.
    pub closed spec fn spec_certs(&self) -> Seq<&'a Certificate> {
        self.certs@
    }

    /// The chain, leaf first, trust anchor last.
    pub fn certs(&self) -> (r: &Vec<&'a Certificate>)
        ensures
            r@ == self.spec_certs(),
    {
        &self.certs
    }

    /// Number of certificates in the chain.
    pub fn len(&self) -> (r: usize)
        ensures
            r == self.spec_certs().len(),
    {
        self.certs.len()
    }

    /// The certificate at the given position, the leaf at zero.
    pub fn get(&self, i: usize) -> (r: &'a Certificate)
        requires
            i < self.spec_certs().len(),
        ensures
            r == self.spec_certs()[i as int],
    {
        self.certs[i]
    }
}

/// The certificate at a bundle position; see [`spec_bundle_at`].
fn bundle_ref<'a>(leaf: &'a Certificate, pool: &'a Vec<Certificate>, i: usize) -> (r:
    &'a Certificate)
    requires
        i < pool@.len() + 1,
    ensures
        *r == spec_bundle_at(*leaf, pool@, i as int),
{
    if i == 0 {
        leaf
    } else {
        &pool[i - 1]
    }
}

/// Whether the path already visits position `c`.
#[verifier::loop_isolation(false)]
fn path_contains(path: &Vec<usize>, c: usize) -> (r: bool)
    ensures
        r == path@.contains(c),
{
    let n = path.len();
    let mut i: usize = 0;
    while i < n
        invariant
            i <= n,
            forall|j: int| 0 <= j < i ==> path@[j] != c,
        decreases n - i,
    {
        if path[i] == c {
            assert(path@.contains(c));
            return true;
        }
        i += 1;
    }
    proof {
        if path@.contains(c) {
            let j = choose|j: int| 0 <= j < path@.len() && path@[j] == c;
            assert(path@[j] != c);
        }
    }
    false
}

/// A copy of the path with one more position at the end.
#[verifier::loop_isolation(false)]
fn copy_push(path: &Vec<usize>, c: usize) -> (r: Vec<usize>)
    ensures
        r@ == path@.push(c),
{
    let n = path.len();
    let mut r: Vec<usize> = Vec::new();
    let mut i: usize = 0;
    while i < n
        invariant
            i <= n,
            r@ == path@.subrange(0, i as int),
        decreases n - i,
    {
        r.push(path[i]);
        assert(r@ =~= path@.subrange(0, i + 1));
        i += 1;
    }
    r.push(c);
    assert(path@.subrange(0, n as int) =~= path@);
    assert(r@ =~= path@.push(c));
    r
}

/// Borrow the certificates a path selects from the bundle.
#[verifier::loop_isolation(false)]
fn path_refs<'a>(leaf: &'a Certificate, pool: &'a Vec<Certificate>, path: &Vec<usize>) -> (r: Vec<
    &'a Certificate,
>)
    requires
        forall|i: int| 0 <= i < path@.len() ==> (#[trigger] path@[i]) < pool@.len() + 1,
    ensures
        r@.len() == path@.len(),
        seq_deref(r@) == spec_path_certs(*leaf, pool@, path@),
{
    let n = path.len();
    let mut r: Vec<&'a Certificate> = Vec::new();
    let mut i: usize = 0;
    while i < n
        invariant
            i <= n,
            r@.len() == i,
            forall|j: int| 0 <= j < i ==> *(#[trigger] r@[j]) == spec_bundle_at(*leaf, pool@, path@[j] as int),
        decreases n - i,
    {
        r.push(bundle_ref(leaf, pool, path[i]));
        i += 1;
    }
    proof {
        assert(seq_deref(r@) =~= spec_path_certs(*leaf, pool@, path@));
    }
    r
}


/// Everything [`verify_chain`] promises of a returned chain: at least two
/// certificates, within the depth bound, every content check passed, the
/// leaf first, a trust anchor last, and every certificate between them
/// drawn from the supplied intermediates.
#[verifier::opaque]
pub open spec fn spec_sound_chain<'a, O: CryptoOps>(
    ops: O,
    vc: VerifiedChain<'a>,
    leaf: Certificate,
    pool: Seq<Certificate>,
    anchors: Seq<Certificate>,
    policy: Policy,
) -> bool {
    &&& vc.spec_certs().len() >= 2
    &&& vc.spec_certs().len() <= policy.max_depth + 1
    &&& spec_content_ok(ops, seq_deref(vc.spec_certs()), policy)
    &&& *vc.spec_certs()[0] == leaf
    &&& exists|root: int|
        0 <= root < anchors.len() && *(vc.spec_certs().last()) == anchors[root]
    &&& exists|path: Seq<usize>, root: int|
        #[trigger] spec_valid_path(ops, leaf, pool, anchors, policy, path, root) && seq_deref(
            vc.spec_certs(),
        ) == spec_path_certs(leaf, pool, path).push(anchors[root])
    &&& forall|k: int|
        1 <= k < vc.spec_certs().len() - 1 ==> spec_from_pool(
            pool,
            *(#[trigger] vc.spec_certs()[k]),
        )
}

/// The certificate is one of the supplied intermediates.
pub open spec fn spec_from_pool(pool: Seq<Certificate>, c: Certificate) -> bool {
    exists|m: int| 0 <= m < pool.len() && c == #[trigger] pool[m]
}

/// A chain that extends the candidate path by one more certificate links
/// the path's last certificate, by name, to the certificate at the
/// extension's bundle position.
proof fn lemma_extension_link<O: CryptoOps>(
    ops: O,
    leaf: Certificate,
    pool: Seq<Certificate>,
    anchors: Seq<Certificate>,
    policy: Policy,
    cur: Seq<usize>,
    path: Seq<usize>,
    root: int,
)
    requires
        cur.len() >= 1,
        spec_valid_path(ops, leaf, pool, anchors, policy, path, root),
        spec_is_prefix(cur, path),
        path.len() > cur.len(),
    ensures
        spec_bundle_at(leaf, pool, cur[cur.len() - 1] as int).issuer@ == spec_bundle_at(
            leaf,
            pool,
            path[cur.len() as int] as int,
        ).subject@,
{
    reveal(crate::validate::spec_content_ok);
    let chain = spec_path_certs(leaf, pool, path).push(anchors[root]);
    let i = cur.len() - 1;
    assert(cur[i as int] == path[i as int]);
    assert(chain[i as int] == spec_bundle_at(leaf, pool, path[i as int] as int));
    assert(chain[i as int + 1] == spec_bundle_at(leaf, pool, path[cur.len() as int] as int));
    assert(spec_link_ok(ops, chain[i as int], chain[i as int + 1], i + 1 == chain.len() - 1, policy));
}

/// A chain that closed at an anchor carries the soundness facts the
/// engine promises of every accepted chain.
#[verifier::rlimit(100)]
proof fn lemma_close_sound<'a, O: CryptoOps>(
    ops: O,
    vc: VerifiedChain<'a>,
    leaf: Certificate,
    pool: Seq<Certificate>,
    anchors: Seq<Certificate>,
    policy: Policy,
    cur: Seq<usize>,
    root: int,
)
    requires
        spec_simple_path(pool, cur),
        0 <= root < anchors.len(),
        cur.len() <= policy.max_depth,
        spec_content_ok(ops, seq_deref(vc.spec_certs()), policy),
        vc.spec_certs().len() == cur.len() + 1,
        seq_deref(vc.spec_certs()) == spec_path_certs(leaf, pool, cur).push(anchors[root]),
    ensures
        spec_sound_chain(ops, vc, leaf, pool, anchors, policy),
        spec_chain_exists(ops, leaf, pool, anchors, policy),
{
    reveal(spec_sound_chain);
    assert(spec_content_ok(ops, spec_path_certs(leaf, pool, cur).push(anchors[root]), policy));
    assert(spec_valid_path(ops, leaf, pool, anchors, policy, cur, root));
    assert(seq_deref(vc.spec_certs()) == spec_path_certs(leaf, pool, cur).push(anchors[root]));
    assert(*vc.spec_certs()[0] == seq_deref(vc.spec_certs())[0]);
    assert(seq_deref(vc.spec_certs())[0] == spec_bundle_at(leaf, pool, cur[0] as int));
    assert(*(vc.spec_certs().last()) == seq_deref(vc.spec_certs()).last());
    assert(*(vc.spec_certs().last()) == anchors[root]);
    assert forall|kk: int| 1 <= kk < vc.spec_certs().len() - 1 implies spec_from_pool(
        pool,
        *(#[trigger] vc.spec_certs()[kk]),
    ) by {
        assert(cur[kk] != cur[0]);
        assert(cur[kk] >= 1);
        assert(*vc.spec_certs()[kk] == seq_deref(vc.spec_certs())[kk]);
        assert(seq_deref(vc.spec_certs())[kk] == spec_bundle_at(leaf, pool, cur[kk] as int));
        assert(0 <= cur[kk] - 1 < pool.len() && *vc.spec_certs()[kk] == pool[cur[kk] - 1]);
    }
}

/// When every anchor whose subject matches the path's last issuer name has
/// been tried and refused, no anchor at all closes the path: an anchor
/// with another subject would break the final name linkage.
proof fn lemma_close_complete<O: CryptoOps>(
    ops: O,
    leaf: Certificate,
    pool: Seq<Certificate>,
    anchors: Seq<Certificate>,
    policy: Policy,
    cur: Seq<usize>,
    roots_idx: Seq<usize>,
    last: Certificate,
)
    requires
        anchors.len() <= usize::MAX,
        spec_simple_path(pool, cur),
        last == spec_bundle_at(leaf, pool, cur[cur.len() - 1] as int),
        forall|i: int|
            0 <= i < anchors.len() && anchors[i].subject@ == last.issuer@
                ==> #[trigger] roots_idx.contains(i as usize),
        forall|j: int|
            0 <= j < roots_idx.len() ==> !spec_valid_path(
                ops,
                leaf,
                pool,
                anchors,
                policy,
                cur,
                (#[trigger] roots_idx[j]) as int,
            ),
    ensures
        forall|rr: int| !#[trigger] spec_valid_path(ops, leaf, pool, anchors, policy, cur, rr),
{
    reveal(crate::validate::spec_content_ok);
    assert forall|rr: int| !#[trigger] spec_valid_path(ops, leaf, pool, anchors, policy, cur, rr)
        by {
        if 0 <= rr < anchors.len() {
            if anchors[rr].subject@ == last.issuer@ {
                assert(roots_idx.contains(rr as usize));
                let j = choose|j: int| 0 <= j < roots_idx.len() && roots_idx[j] == rr as usize;
                assert(!spec_valid_path(ops, leaf, pool, anchors, policy, cur, roots_idx[j] as int));
            } else {
                if spec_valid_path(ops, leaf, pool, anchors, policy, cur, rr) {
                    let chain = spec_path_certs(leaf, pool, cur).push(anchors[rr]);
                    let i = cur.len() - 1;
                    assert(chain[i as int] == spec_bundle_at(leaf, pool, cur[i as int] as int));
                    assert(chain[i as int + 1] == anchors[rr]);
                    assert(spec_link_ok(ops, chain[i as int], chain[i as int + 1], true, policy));
                    assert(chain[i as int].issuer@ == anchors[rr].subject@);
                }
            }
        }
    }
}

/// Try to close the candidate path at every trust anchor whose subject
/// matches the path's last issuer name, in store order. `Ok` carries the
/// first chain every content check accepts; `Err` shows no anchor closes
/// this path, carrying the deepest reason any anchor gave, with depth zero
/// when no anchor matched at all.
#[verifier::loop_isolation(false)]
#[verifier::rlimit(100)]
fn close_at_anchors<'a, O: CryptoOps>(
    ops: &O,
    leaf: &'a Certificate,
    pool: &'a Vec<Certificate>,
    store: &'a TrustStore,
    policy: &Policy,
    cur: &Vec<usize>,
) -> (r: Result<VerifiedChain<'a>, (VerificationError, usize)>)
    requires
        pool@.len() < usize::MAX,
        spec_reachable_path(*leaf, pool@, cur@),
        cur@.len() <= policy.max_depth,
    ensures
        r matches Ok(vc) ==> spec_sound_chain(
            *ops,
            vc,
            *leaf,
            pool@,
            store.spec_anchors(),
            *policy,
        ) && spec_chain_exists(*ops, *leaf, pool@, store.spec_anchors(), *policy),
        r is Err ==> forall|rr: int|
            !#[trigger] spec_valid_path(
                *ops,
                *leaf,
                pool@,
                store.spec_anchors(),
                *policy,
                cur@,
                rr,
            ),
        r matches Err(p) ==> p.1 > 0 ==> spec_recorded_reason(
            *ops,
            *leaf,
            pool@,
            store.spec_anchors(),
            *policy,
            p.0,
        ),
        r matches Err(p) ==> p.1 == 0 ==> p.0 == VerificationError::NoPathFound && forall|rr: int|
            !#[trigger] spec_candidate_shape(
                *leaf,
                pool@,
                store.spec_anchors(),
                *policy,
                cur@,
                rr,
            ),
{
    let ghost ganchors = store.spec_anchors();
    let cur_len = cur.len();
    let last_idx = cur[cur_len - 1];
    let last_cert = bundle_ref(leaf, pool, last_idx);
    let mut best_err = VerificationError::NoPathFound;
    let mut best_depth: usize = 0;
    let total_anchors = store.len();
    proof {
        assert(ganchors.len() == total_anchors);
    }
    let roots_idx = store.issuer_candidates(&last_cert.issuer);
    let ns = roots_idx.len();
    let mut k: usize = 0;
    while k < ns
        invariant
            k <= ns,
            forall|j: int|
                0 <= j < k ==> !spec_valid_path(
                    *ops,
                    *leaf,
                    pool@,
                    ganchors,
                    *policy,
                    cur@,
                    roots_idx@[j] as int,
                ),
            best_depth == 0 ==> best_err == VerificationError::NoPathFound,
            best_depth > 0 ==> spec_recorded_reason(*ops, *leaf, pool@, ganchors, *policy, best_err),
            k > 0 ==> best_depth > 0,
        decreases ns - k,
    {
        let root = roots_idx[k];
        proof {
            assert(roots_idx@[k as int] < ganchors.len());
        }
        let mut candidate = path_refs(leaf, pool, cur);
        candidate.push(store.get(root));
        proof {
            assert(seq_deref(candidate@) =~= spec_path_certs(*leaf, pool@, cur@).push(
                ganchors[root as int],
            ));
        }
        match validate_candidate(ops, &candidate, policy) {
            Ok(()) => {
                let vc = VerifiedChain { certs: candidate };
                proof {
                    lemma_close_sound(
                        *ops,
                        vc,
                        *leaf,
                        pool@,
                        ganchors,
                        *policy,
                        cur@,
                        root as int,
                    );
                }
                return Ok(vc);
            },
            Err(e) => {
                proof {
                    assert(!spec_valid_path(
                        *ops,
                        *leaf,
                        pool@,
                        ganchors,
                        *policy,
                        cur@,
                        root as int,
                    ));
                    assert(spec_closed_chain(*leaf, pool@, ganchors, cur@, root as int)
                        == seq_deref(candidate@));
                    assert(ganchors[root as int].subject@ == spec_bundle_at(
                        *leaf,
                        pool@,
                        cur@[cur@.len() - 1] as int,
                    ).issuer@);
                    reveal(spec_candidate_shape);
                    reveal(spec_candidate_reported);
                    reveal(spec_recorded_reason);
                    assert(spec_candidate_shape(*leaf, pool@, ganchors, *policy, cur@, root as int));
                    assert(spec_candidate_reported(*ops, *leaf, pool@, ganchors, *policy, e));
                }
                let depth = if cur_len < usize::MAX {
                    cur_len + 1
                } else {
                    cur_len
                };
                if depth > best_depth {
                    best_depth = depth;
                    best_err = e;
                }
            },
        }
        k += 1;
    }
    proof {
        lemma_close_complete(
            *ops,
            *leaf,
            pool@,
            ganchors,
            *policy,
            cur@,
            roots_idx@,
            *last_cert,
        );
        if best_depth == 0 {
            assert(ns == 0);
            reveal(spec_candidate_shape);
            assert forall|rr: int|
                !#[trigger] spec_candidate_shape(*leaf, pool@, ganchors, *policy, cur@, rr) by {
                if spec_candidate_shape(*leaf, pool@, ganchors, *policy, cur@, rr) {
                    assert(ganchors[rr].subject@ == last_cert.issuer@);
                    assert(roots_idx@.contains(rr as usize));
                    let j = choose|j: int|
                        0 <= j < roots_idx@.len() && roots_idx@[j] == rr as usize;
                    assert(false);
                }
            }
        }
    }
    Err((best_err, best_depth))
}

/// One step of the depth-first search: close the current candidate path at
/// every trust anchor, then extend it through each admissible bundle
/// position, in bundle order, recursing on each extension. `Ok` carries
/// the first chain found; `Err` carries the failure reason reached at the
/// greatest chain depth within this subtree, with depth zero when the
/// subtree offered nothing to try.
#[verifier::loop_isolation(false)]
#[verifier::rlimit(100)]
fn extend_path<'a, O: CryptoOps>(
    ops: &O,
    leaf: &'a Certificate,
    pool: &'a Vec<Certificate>,
    store: &'a TrustStore,
    policy: &Policy,
    cur: &Vec<usize>,
) -> (r: Result<VerifiedChain<'a>, (VerificationError, usize)>)
    requires
        pool@.len() < usize::MAX,
        spec_reachable_path(*leaf, pool@, cur@),
        cur@.len() <= policy.max_depth + 1,
    ensures
        r matches Ok(vc) ==> spec_sound_chain(
            *ops,
            vc,
            *leaf,
            pool@,
            store.spec_anchors(),
            *policy,
        ) && spec_chain_exists(*ops, *leaf, pool@, store.spec_anchors(), *policy),
        r is Err ==> forall|path: Seq<usize>, root: int|
            #[trigger] spec_valid_path(*ops, *leaf, pool@, store.spec_anchors(), *policy, path, root)
                ==> !spec_is_prefix(cur@, path),
        r matches Err(p) ==> p.1 > 0 ==> spec_recorded_reason(
            *ops,
            *leaf,
            pool@,
            store.spec_anchors(),
            *policy,
            p.0,
        ),
        r matches Err(p) ==> p.1 == 0 ==> p.0 == VerificationError::NoPathFound && (forall|
            cur2: Seq<usize>,
            rr: int,
        |
            #[trigger] spec_candidate_shape(*leaf, pool@, store.spec_anchors(), *policy, cur2, rr)
                && spec_is_prefix(cur@, cur2) ==> false) && (forall|cur2: Seq<usize>, cc: usize|
            !#[trigger] spec_cycle_witness_from(*leaf, pool@, *policy, cur@, cur2, cc)) && (forall|
            cur2: Seq<usize>,
        |
            !#[trigger] spec_depth_witness_from(*leaf, pool@, *policy, cur@, cur2)),
    decreases policy.max_depth + 1 - cur@.len(),
{
    let ghost ganchors = store.spec_anchors();
    let cur_len = cur.len();
    let last_idx = cur[cur_len - 1];
    let last_cert = bundle_ref(leaf, pool, last_idx);
    let mut best_err = VerificationError::NoPathFound;
    let mut best_depth: usize = 0;

    // Close the path at a trust anchor, looked up by subject name.
    if cur_len as u64 <= policy.max_depth {
        match close_at_anchors(ops, leaf, pool, store, policy, cur) {
            Ok(vc) => {
                return Ok(vc);
            },
            Err((e, d)) => {
                proof {
                    assert(forall|rr: int|
                        !#[trigger] spec_valid_path(
                            *ops,
                            *leaf,
                            pool@,
                            ganchors,
                            *policy,
                            cur@,
                            rr,
                        ));
                }
                if d > best_depth {
                    best_depth = d;
                    best_err = e;
                }
                proof {
                    if best_depth == 0 {
                        assert(d == 0);
                        assert(forall|rr: int|
                            !#[trigger] spec_candidate_shape(
                                *leaf,
                                pool@,
                                ganchors,
                                *policy,
                                cur@,
                                rr,
                            ));
                    }
                }
            },
        }
    } else {
        best_err = VerificationError::PathLengthExceeded;
        best_depth = cur_len;
        proof {
            assert forall|rr: int|
                !#[trigger] spec_valid_path(*ops, *leaf, pool@, ganchors, *policy, cur@, rr) by {
                if 0 <= rr < ganchors.len() {
                    assert(cur@.len() > policy.max_depth);
                }
            }
            reveal(spec_depth_guard_hit);
            reveal(spec_recorded_reason);
            assert(spec_simple_path(pool@, cur@) && cur@.len() > policy.max_depth);
            assert(spec_depth_guard_hit(*leaf, pool@, *policy));
        }
    }

    // Extend the path through the bundle.
    if (cur_len as u64) < policy.max_depth {
        let bundle_len = pool.len() + 1;
        let mut c: usize = 1;
        proof {
            if best_depth == 0 {
                reveal(spec_candidate_shape);
                assert forall|cur2: Seq<usize>, rr: int|
                    #[trigger] spec_candidate_shape(*leaf, pool@, ganchors, *policy, cur2, rr)
                        && spec_is_prefix(cur@, cur2) && cur2.len() > cur@.len() && (
                    cur2[cur@.len() as int] as int) < 1 implies false by {
                    assert(cur2[0] == 0);
                    assert(cur2[cur@.len() as int] == 0);
                }
                assert forall|cur2: Seq<usize>, cc: usize|
                    #[trigger] spec_cycle_witness_from(*leaf, pool@, *policy, cur@, cur2, cc)
                        && cur2.len() > cur@.len() && (cur2[cur@.len() as int] as int) < 1 implies
                    false by {
                    assert(cur2[0] == 0);
                    assert(cur2[cur@.len() as int] == 0);
                }
                assert forall|cur2: Seq<usize>|
                    #[trigger] spec_depth_witness_from(*leaf, pool@, *policy, cur@, cur2)
                        && cur2.len() > cur@.len() && (cur2[cur@.len() as int] as int) < 1 implies
                    false by {
                    assert(cur2[0] == 0);
                    assert(cur2[cur@.len() as int] == 0);
                }
            }
        }
        while c < bundle_len
            invariant
                1 <= c <= bundle_len,
                forall|path: Seq<usize>, root: int|
                    #[trigger] spec_valid_path(
                        *ops,
                        *leaf,
                        pool@,
                        ganchors,
                        *policy,
                        path,
                        root,
                    ) && spec_is_prefix(cur@, path) && path.len() > cur@.len() && (path[cur@.len() as int] as int) < c ==> false,
                best_depth > 0 ==> spec_recorded_reason(
                    *ops,
                    *leaf,
                    pool@,
                    ganchors,
                    *policy,
                    best_err,
                ),
                best_depth == 0 ==> best_err == VerificationError::NoPathFound
                    && cur@.len() <= policy.max_depth && (forall|rr: int|
                    !#[trigger] spec_candidate_shape(
                        *leaf,
                        pool@,
                        ganchors,
                        *policy,
                        cur@,
                        rr,
                    )) && (forall|cur2: Seq<usize>, rr: int|
                    #[trigger] spec_candidate_shape(*leaf, pool@, ganchors, *policy, cur2, rr)
                        && spec_is_prefix(cur@, cur2) && cur2.len() > cur@.len() && (
                    cur2[cur@.len() as int] as int) < c ==> false) && (forall|cc: usize|
                    1 <= cc < c && cur@.contains(cc) ==> !spec_linked(*leaf, pool@, cur@, cc))
                    && (forall|cur2: Seq<usize>, cc: usize|
                    #[trigger] spec_cycle_witness_from(*leaf, pool@, *policy, cur@, cur2, cc)
                        && cur2.len() > cur@.len() && (cur2[cur@.len() as int] as int) < c
                        ==> false) && (forall|cur2: Seq<usize>|
                    #[trigger] spec_depth_witness_from(*leaf, pool@, *policy, cur@, cur2)
                        && cur2.len() > cur@.len() && (cur2[cur@.len() as int] as int) < c
                        ==> false),
            decreases bundle_len - c,
        {
            let cand_cert = bundle_ref(leaf, pool, c);
            let linked = bytes_eq(&last_cert.issuer, &cand_cert.subject);
            if linked {
                if path_contains(cur, c) {
                    // Cycle guard: this position is already on the path.
                    proof {
                        assert forall|path: Seq<usize>, root: int|
                            #[trigger] spec_valid_path(
                                *ops,
                                *leaf,
                                pool@,
                                ganchors,
                                *policy,
                                path,
                                root,
                            ) && spec_is_prefix(cur@, path) && path.len() > cur@.len() && (
                            path[cur@.len() as int] as int) < c + 1 implies false by {
                            if path[cur@.len() as int] == c {
                                let k0 = choose|k0: int|
                                    0 <= k0 < cur@.len() && cur@[k0] == c;
                                assert(path[k0] == cur@[k0]);
                                assert(path[k0] == path[cur@.len() as int]);
                            }
                        }
                    }
                    proof {
                        reveal(spec_cycle_reachable);
                        reveal(spec_recorded_reason);
                        assert(*last_cert == spec_bundle_at(
                            *leaf,
                            pool@,
                            cur@[cur@.len() - 1] as int,
                        ));
                        assert(spec_linked(*leaf, pool@, cur@, c));
                        assert(spec_cycle_reachable(*leaf, pool@, *policy));
                    }
                    let depth = if cur_len < usize::MAX {
                        cur_len + 1
                    } else {
                        cur_len
                    };
                    if depth > best_depth {
                        best_depth = depth;
                        best_err = VerificationError::CycleDetected;
                    }
                } else {
                    let child = copy_push(cur, c);
                    proof {
                        assert forall|k: int| 0 <= k < cur@.len() implies cur@[k] != c by {
                            if cur@[k] == c {
                                assert(cur@.contains(c));
                            }
                        }
                        assert(spec_simple_path(pool@, child@));
                        assert forall|i: int|
                            0 <= i < child@.len() - 1 implies #[trigger] spec_pair_linked(
                            *leaf,
                            pool@,
                            child@,
                            i,
                        ) by {
                            if i < cur@.len() - 1 {
                                assert(child@[i] == cur@[i]);
                                assert(child@[i + 1] == cur@[i + 1]);
                                assert(spec_pair_linked(*leaf, pool@, cur@, i));
                            } else {
                                assert(i == cur@.len() - 1);
                                assert(child@[i] == cur@[i]);
                                assert(child@[i + 1] == c);
                                assert(*last_cert == spec_bundle_at(
                                    *leaf,
                                    pool@,
                                    cur@[cur@.len() - 1] as int,
                                ));
                                assert(*cand_cert == spec_bundle_at(*leaf, pool@, c as int));
                            }
                        }
                        assert(spec_reachable_path(*leaf, pool@, child@));
                    }
                    match extend_path(ops, leaf, pool, store, policy, &child) {
                        Ok(vc) => {
                            return Ok(vc);
                        },
                        Err((e, d)) => {
                            proof {
                                assert forall|path: Seq<usize>, root: int|
                                    #[trigger] spec_valid_path(
                                        *ops,
                                        *leaf,
                                        pool@,
                                        ganchors,
                                        *policy,
                                        path,
                                        root,
                                    ) && spec_is_prefix(cur@, path) && path.len() > cur@.len()
                                    && (path[cur@.len() as int] as int) < c + 1 implies false by {
                                    if path[cur@.len() as int] == c {
                                        assert(child@ =~= path.subrange(
                                            0,
                                            cur@.len() as int + 1,
                                        ));
                                        assert(spec_is_prefix(child@, path));
                                    }
                                }
                            }
                            if d > best_depth {
                                best_depth = d;
                                best_err = e;
                            }
                            proof {
                                if best_depth == 0 {
                                    assert(d == 0);
                                    reveal(spec_candidate_shape);
                                    assert forall|cur2: Seq<usize>, rr: int|
                                        #[trigger] spec_candidate_shape(
                                            *leaf,
                                            pool@,
                                            ganchors,
                                            *policy,
                                            cur2,
                                            rr,
                                        ) && spec_is_prefix(cur@, cur2) && cur2.len() > cur@.len()
                                        && (cur2[cur@.len() as int] as int) < c + 1 implies false by {
                                        if cur2[cur@.len() as int] == c {
                                            assert(child@ =~= cur2.subrange(
                                                0,
                                                cur@.len() as int + 1,
                                            ));
                                            assert(spec_is_prefix(child@, cur2));
                                        }
                                    }
                                    assert forall|cur2: Seq<usize>, cc: usize|
                                        #[trigger] spec_cycle_witness_from(
                                            *leaf,
                                            pool@,
                                            *policy,
                                            cur@,
                                            cur2,
                                            cc,
                                        ) && cur2.len() > cur@.len() && (
                                        cur2[cur@.len() as int] as int) < c + 1 implies false by {
                                        if cur2[cur@.len() as int] == c {
                                            assert(child@ =~= cur2.subrange(
                                                0,
                                                cur@.len() as int + 1,
                                            ));
                                            assert(spec_is_prefix(child@, cur2));
                                            assert(spec_cycle_witness_from(
                                                *leaf,
                                                pool@,
                                                *policy,
                                                child@,
                                                cur2,
                                                cc,
                                            ));
                                        }
                                    }
                                    assert forall|cur2: Seq<usize>|
                                        #[trigger] spec_depth_witness_from(
                                            *leaf,
                                            pool@,
                                            *policy,
                                            cur@,
                                            cur2,
                                        ) && cur2.len() > cur@.len() && (
                                        cur2[cur@.len() as int] as int) < c + 1 implies false by {
                                        if cur2[cur@.len() as int] == c {
                                            assert(child@ =~= cur2.subrange(
                                                0,
                                                cur@.len() as int + 1,
                                            ));
                                            assert(spec_is_prefix(child@, cur2));
                                            assert(spec_depth_witness_from(
                                                *leaf,
                                                pool@,
                                                *policy,
                                                child@,
                                                cur2,
                                            ));
                                        }
                                    }
                                    assert forall|cc: usize|
                                        1 <= cc < c + 1 && cur@.contains(cc) implies !spec_linked(
                                        *leaf,
                                        pool@,
                                        cur@,
                                        cc,
                                    ) by {
                                        if cc == c {
                                            assert(cur@.contains(c));
                                            assert(false);
                                        }
                                    }
                                }
                            }
                        },
                    }
                }
            } else {
                // No name linkage: nothing valid extends through here.
                proof {
                    assert forall|path: Seq<usize>, root: int|
                        #[trigger] spec_valid_path(
                            *ops,
                            *leaf,
                            pool@,
                            ganchors,
                            *policy,
                            path,
                            root,
                        ) && spec_is_prefix(cur@, path) && path.len() > cur@.len() && (
                        path[cur@.len() as int] as int) < c + 1 implies false by {
                        if path[cur@.len() as int] == c {
                            lemma_extension_link(
                                *ops,
                                *leaf,
                                pool@,
                                ganchors,
                                *policy,
                                cur@,
                                path,
                                root,
                            );
                        }
                    }
                    if best_depth == 0 {
                        reveal(spec_candidate_shape);
                        assert forall|cur2: Seq<usize>, rr: int|
                            #[trigger] spec_candidate_shape(
                                *leaf,
                                pool@,
                                ganchors,
                                *policy,
                                cur2,
                                rr,
                            ) && spec_is_prefix(cur@, cur2) && cur2.len() > cur@.len() && (
                            cur2[cur@.len() as int] as int) < c + 1 implies false by {
                            if cur2[cur@.len() as int] == c {
                                let i = cur@.len() - 1;
                                assert(cur2[i as int] == cur@[i as int]);
                                assert(spec_pair_linked(*leaf, pool@, cur2, i as int));
                                assert(*last_cert == spec_bundle_at(
                                    *leaf,
                                    pool@,
                                    cur@[cur@.len() - 1] as int,
                                ));
                                assert(*cand_cert == spec_bundle_at(*leaf, pool@, c as int));
                            }
                        }
                        assert forall|cur2: Seq<usize>, cc: usize|
                            #[trigger] spec_cycle_witness_from(
                                *leaf,
                                pool@,
                                *policy,
                                cur@,
                                cur2,
                                cc,
                            ) && cur2.len() > cur@.len() && (cur2[cur@.len() as int] as int) < c
                            + 1 implies false by {
                            if cur2[cur@.len() as int] == c {
                                let i = cur@.len() - 1;
                                assert(cur2[i as int] == cur@[i as int]);
                                assert(spec_pair_linked(*leaf, pool@, cur2, i as int));
                                assert(*last_cert == spec_bundle_at(
                                    *leaf,
                                    pool@,
                                    cur@[cur@.len() - 1] as int,
                                ));
                                assert(*cand_cert == spec_bundle_at(*leaf, pool@, c as int));
                            }
                        }
                        assert forall|cur2: Seq<usize>|
                            #[trigger] spec_depth_witness_from(
                                *leaf,
                                pool@,
                                *policy,
                                cur@,
                                cur2,
                            ) && cur2.len() > cur@.len() && (cur2[cur@.len() as int] as int) < c
                            + 1 implies false by {
                            if cur2[cur@.len() as int] == c {
                                let i = cur@.len() - 1;
                                assert(cur2[i as int] == cur@[i as int]);
                                assert(spec_pair_linked(*leaf, pool@, cur2, i as int));
                                assert(*last_cert == spec_bundle_at(
                                    *leaf,
                                    pool@,
                                    cur@[cur@.len() - 1] as int,
                                ));
                                assert(*cand_cert == spec_bundle_at(*leaf, pool@, c as int));
                            }
                        }
                        assert forall|cc: usize|
                            1 <= cc < c + 1 && cur@.contains(cc) implies !spec_linked(
                            *leaf,
                            pool@,
                            cur@,
                            cc,
                        ) by {
                            if cc == c {
                                assert(*last_cert == spec_bundle_at(
                                    *leaf,
                                    pool@,
                                    cur@[cur@.len() - 1] as int,
                                ));
                                assert(*cand_cert == spec_bundle_at(*leaf, pool@, c as int));
                            }
                        }
                    }
                }
            }
            c += 1;
        }
    } else {
        // Depth guard: an extension could never close within the bound.
        // Surface the guard when a further issuer was actually on offer.
        let bundle_len = pool.len() + 1;
        let mut c: usize = 1;
        while c < bundle_len
            invariant
                1 <= c <= bundle_len,
                best_depth > 0 ==> spec_recorded_reason(
                    *ops,
                    *leaf,
                    pool@,
                    ganchors,
                    *policy,
                    best_err,
                ),
                best_depth == 0 ==> best_err == VerificationError::NoPathFound
                    && cur@.len() <= policy.max_depth && (forall|rr: int|
                    !#[trigger] spec_candidate_shape(
                        *leaf,
                        pool@,
                        ganchors,
                        *policy,
                        cur@,
                        rr,
                    )) && (forall|cc: usize|
                    1 <= cc < c ==> !(spec_linked(*leaf, pool@, cur@, cc) && !cur@.contains(
                        cc,
                    ))),
            decreases bundle_len - c,
        {
            let cand_cert = bundle_ref(leaf, pool, c);
            let linked_here = bytes_eq(&last_cert.issuer, &cand_cert.subject);
            let contained_here = path_contains(cur, c);
            proof {
                assert(*last_cert == spec_bundle_at(*leaf, pool@, cur@[cur@.len() - 1] as int));
                assert(*cand_cert == spec_bundle_at(*leaf, pool@, c as int));
            }
            if linked_here && !contained_here {
                proof {
                    reveal(spec_depth_guard_hit);
                    reveal(spec_recorded_reason);
                    assert(*last_cert == spec_bundle_at(
                        *leaf,
                        pool@,
                        cur@[cur@.len() - 1] as int,
                    ));
                    assert(spec_linked(*leaf, pool@, cur@, c));
                    assert(cur@.len() >= policy.max_depth);
                    assert(spec_depth_guard_hit(*leaf, pool@, *policy));
                }
                let depth = if cur_len < usize::MAX {
                    cur_len + 1
                } else {
                    cur_len
                };
                if depth > best_depth {
                    best_depth = depth;
                    best_err = VerificationError::PathLengthExceeded;
                }
                break;
            }
            proof {
                assert(!(spec_linked(*leaf, pool@, cur@, c) && !cur@.contains(c)));
            }
            c += 1;
        }
    }

    proof {
        assert forall|path: Seq<usize>, root: int|
            #[trigger] spec_valid_path(*ops, *leaf, pool@, ganchors, *policy, path, root) implies
            !spec_is_prefix(cur@, path) by {
            if spec_is_prefix(cur@, path) {
                if path.len() == cur@.len() {
                    assert(cur@ =~= path);
                    assert(!spec_valid_path(*ops, *leaf, pool@, ganchors, *policy, cur@, root));
                } else {
                    let next = path[cur@.len() as int];
                    assert(path[cur@.len() as int] < pool@.len() + 1);
                    if next == 0 {
                        assert(path[0] == 0);
                        assert(path[0] == path[cur@.len() as int]);
                    } else {
                        if cur@.len() < policy.max_depth {
                        } else {
                            assert(path.len() > policy.max_depth);
                        }
                    }
                }
            }
        }
        if best_depth == 0 {
            reveal(spec_candidate_shape);
            assert forall|cur2: Seq<usize>, rr: int|
                #[trigger] spec_candidate_shape(*leaf, pool@, ganchors, *policy, cur2, rr)
                    && spec_is_prefix(cur@, cur2) implies false by {
                if cur2.len() == cur@.len() {
                    assert(cur@ =~= cur2);
                    assert(!spec_candidate_shape(*leaf, pool@, ganchors, *policy, cur@, rr));
                } else {
                    let next = cur2[cur@.len() as int];
                    assert(cur2[cur@.len() as int] < pool@.len() + 1);
                    if next == 0 {
                        assert(cur2[0] == 0);
                        assert(cur2[0] == cur2[cur@.len() as int]);
                    } else {
                        if cur@.len() < policy.max_depth {
                        } else {
                            assert(cur2.len() > policy.max_depth);
                        }
                    }
                }
            }
            assert forall|cur2: Seq<usize>, cc: usize|
                !#[trigger] spec_cycle_witness_from(*leaf, pool@, *policy, cur@, cur2, cc) by {
                if spec_cycle_witness_from(*leaf, pool@, *policy, cur@, cur2, cc) {
                    if cur2.len() == cur@.len() {
                        assert(cur@ =~= cur2);
                        if (cur_len as u64) < policy.max_depth {
                            assert(cur@.contains(cc));
                            assert(spec_linked(*leaf, pool@, cur@, cc));
                            assert(false);
                        } else {
                            assert(cur2.len() < policy.max_depth);
                            assert(false);
                        }
                    } else {
                        let next = cur2[cur@.len() as int];
                        assert(next < pool@.len() + 1);
                        if next == 0 {
                            assert(cur2[0] == 0);
                            assert(cur2[0] == cur2[cur@.len() as int]);
                            assert(false);
                        } else {
                            if (cur_len as u64) < policy.max_depth {
                            } else {
                                assert(cur2.len() < policy.max_depth);
                                assert(cur@.len() >= policy.max_depth);
                                assert(false);
                            }
                        }
                    }
                }
            }
            assert forall|cur2: Seq<usize>|
                !#[trigger] spec_depth_witness_from(*leaf, pool@, *policy, cur@, cur2) by {
                if spec_depth_witness_from(*leaf, pool@, *policy, cur@, cur2) {
                    if cur2.len() == cur@.len() {
                        assert(cur@ =~= cur2);
                        if (cur_len as u64) < policy.max_depth {
                            assert(false);
                        } else {
                            let cc = choose|cc: usize|
                                cc < pool@.len() + 1 && !cur2.contains(cc) && #[trigger] spec_linked(
                                    *leaf,
                                    pool@,
                                    cur2,
                                    cc,
                                );
                            assert(!cur@.contains(cc));
                            assert(spec_linked(*leaf, pool@, cur@, cc));
                            if cc == 0 {
                                assert(cur@[0] == 0);
                                assert(cur@.contains(0usize));
                                assert(false);
                            } else {
                                assert(false);
                            }
                        }
                    } else {
                        let next = cur2[cur@.len() as int];
                        assert(next < pool@.len() + 1);
                        if next == 0 {
                            assert(cur2[0] == 0);
                            assert(cur2[0] == cur2[cur@.len() as int]);
                            assert(false);
                        } else {
                            if (cur_len as u64) < policy.max_depth {
                            } else {
                                let i = cur@.len() - 1;
                                assert(cur2[i as int] == cur@[i as int]);
                                assert(spec_pair_linked(*leaf, pool@, cur2, i as int));
                                assert(spec_linked(*leaf, pool@, cur@, next));
                                if cur@.contains(next) {
                                    let k0 = choose|k0: int|
                                        0 <= k0 < cur@.len() && cur@[k0] == next;
                                    assert(cur2[k0] == cur@[k0]);
                                    assert(cur2[k0] == cur2[cur@.len() as int]);
                                    assert(false);
                                } else {
                                    assert(false);
                                }
                            }
                        }
                    }
                }
            }
        }
    }
    Err((best_err, best_depth))
}

/// A leaf that fails its own checks — validity window, unrecognized
/// critical extension, or the profile's name match — closes no valid
/// path: every candidate chain starts at the leaf and re-imposes them.
proof fn lemma_leaf_rejected<O: CryptoOps>(
    ops: O,
    leaf: Certificate,
    pool: Seq<Certificate>,
    anchors: Seq<Certificate>,
    policy: Policy,
)
    requires
        !crate::cert::spec_time_valid(leaf, policy.validation_time)
            || leaf.extensions.has_unknown_critical || !crate::validate::spec_profile_ok(
            leaf,
            policy.profile,
        ),
    ensures
        !spec_chain_exists(ops, leaf, pool, anchors, policy),
{
    reveal(crate::validate::spec_content_ok);
    assert forall|path: Seq<usize>, root: int|
        !#[trigger] spec_valid_path(ops, leaf, pool, anchors, policy, path, root) by {
        if spec_valid_path(ops, leaf, pool, anchors, policy, path, root) {
            let chain = spec_path_certs(leaf, pool, path).push(anchors[root]);
            assert(chain[0] == spec_bundle_at(leaf, pool, path[0] as int));
            assert(chain[0] == leaf);
            assert(crate::cert::spec_time_valid(chain[0], policy.validation_time));
            assert(!chain[0].extensions.has_unknown_critical) by {
                assert(crate::validate::spec_chain_critical_ok(chain));
            }
            assert(crate::validate::spec_profile_ok(chain[0], policy.profile));
        }
    }
}

/// Verify the leaf against the policy by searching for a chain through the
/// untrusted intermediates to an anchor of the trust store.
///
/// `Ok` holds a chain satisfying [`spec_sound_chain`], and it is returned
/// if and only if some candidate path is accepted
/// ([`spec_chain_exists`]). A leaf that fails its own checks is rejected
/// up front with the exact reason the clauses below state, in their
/// order; any other rejection surfaces the reason reached at the greatest
/// chain depth — a reason whose origin [`spec_error_provenance`] pins —
/// or `NoPathFound` when no candidate issuer was ever admissible. The
/// implementation is a deterministic function of its arguments; the
/// contract pins acceptance exactly and, on rejection, the reason's
/// origin, but does not single out which of several equally valid chains
/// is returned.
#[verifier::rlimit(100)]
pub fn verify_chain<'a, O: CryptoOps>(
    ops: &O,
    leaf: &'a Certificate,
    intermediates: &'a Vec<Certificate>,
    store: &'a TrustStore,
    policy: &Policy,
) -> (r: Result<VerifiedChain<'a>, VerificationError>)
    requires
        intermediates@.len() < usize::MAX,
    ensures
        r matches Ok(vc) ==> spec_sound_chain(
            *ops,
            vc,
            *leaf,
            intermediates@,
            store.spec_anchors(),
            *policy,
        ),
        (r is Ok) == spec_chain_exists(*ops, *leaf, intermediates@, store.spec_anchors(), *policy),
        leaf.not_after < policy.validation_time ==> r == Err::<
            VerifiedChain<'a>,
            VerificationError,
        >(VerificationError::Expired),
        leaf.not_after >= policy.validation_time && leaf.not_before > policy.validation_time ==> r
            == Err::<VerifiedChain<'a>, VerificationError>(VerificationError::NotYetValid),
        crate::cert::spec_time_valid(*leaf, policy.validation_time)
            && leaf.extensions.has_unknown_critical ==> r == Err::<
            VerifiedChain<'a>,
            VerificationError,
        >(VerificationError::UnknownCriticalExtension),
        crate::cert::spec_time_valid(*leaf, policy.validation_time)
            && !leaf.extensions.has_unknown_critical && !crate::validate::spec_profile_ok(
            *leaf,
            policy.profile,
        ) ==> r == Err::<VerifiedChain<'a>, VerificationError>(VerificationError::HostnameMismatch),
        r matches Err(e) ==> crate::cert::spec_time_valid(*leaf, policy.validation_time)
            && !leaf.extensions.has_unknown_critical && crate::validate::spec_profile_ok(
            *leaf,
            policy.profile,
        ) ==> spec_error_provenance(*ops, *leaf, intermediates@, store.spec_anchors(), *policy, e),
{
    let ghost ganchors = store.spec_anchors();
    proof {
        if !crate::cert::spec_time_valid(*leaf, policy.validation_time)
            || leaf.extensions.has_unknown_critical || !crate::validate::spec_profile_ok(
            *leaf,
            policy.profile,
        ) {
            lemma_leaf_rejected(*ops, *leaf, intermediates@, ganchors, *policy);
        }
    }
    if leaf.not_after < policy.validation_time {
        return Err(VerificationError::Expired);
    }
    if leaf.not_before > policy.validation_time {
        return Err(VerificationError::NotYetValid);
    }
    if leaf.extensions.has_unknown_critical {
        return Err(VerificationError::UnknownCriticalExtension);
    }
    match &policy.profile {
        crate::policy::Profile::Client => {},
        crate::policy::Profile::Server { name } => {
            proof {
                assert(policy.profile == (crate::policy::Profile::Server { name: *name }));
            }
            if !crate::validate::san_matches(leaf, name) {
                return Err(VerificationError::HostnameMismatch);
            }
        },
    }
    let mut start: Vec<usize> = Vec::new();
    start.push(0);
    proof {
        assert(spec_reachable_path(*leaf, intermediates@, start@));
    }
    match extend_path(ops, leaf, intermediates, store, policy, &start) {
        Ok(vc) => Ok(vc),
        Err((e, d)) => {
            proof {
                if spec_chain_exists(*ops, *leaf, intermediates@, ganchors, *policy) {
                    let (path, root) = choose|path: Seq<usize>, root: int|
                        spec_valid_path(
                            *ops,
                            *leaf,
                            intermediates@,
                            ganchors,
                            *policy,
                            path,
                            root,
                        );
                    assert(start@ =~= path.subrange(0, 1));
                    assert(spec_is_prefix(start@, path));
                }
                reveal(spec_error_provenance);
                if d == 0 {
                    reveal(spec_some_candidate_shape);
                    if spec_some_candidate_shape(*leaf, intermediates@, ganchors, *policy) {
                        let (cur2, rr) = choose|cur2: Seq<usize>, rr: int|
                            #[trigger] spec_candidate_shape(
                                *leaf,
                                intermediates@,
                                ganchors,
                                *policy,
                                cur2,
                                rr,
                            );
                        reveal(spec_candidate_shape);
                        assert(start@ =~= cur2.subrange(0, 1));
                        assert(spec_is_prefix(start@, cur2));
                        assert(false);
                    }
                    reveal(spec_cycle_reachable);
                    if spec_cycle_reachable(*leaf, intermediates@, *policy) {
                        let (cur2, cc) = choose|cur2: Seq<usize>, cc: usize|
                            spec_reachable_path(*leaf, intermediates@, cur2) && cur2.len()
                                < policy.max_depth && 1 <= cc < intermediates@.len() + 1
                                && cur2.contains(cc) && #[trigger] spec_linked(
                                *leaf,
                                intermediates@,
                                cur2,
                                cc,
                            );
                        assert(start@ =~= cur2.subrange(0, 1));
                        assert(spec_is_prefix(start@, cur2));
                        assert(spec_cycle_witness_from(
                            *leaf,
                            intermediates@,
                            *policy,
                            start@,
                            cur2,
                            cc,
                        ));
                        assert(false);
                    }
                    reveal(spec_depth_guard_hit);
                    if spec_depth_guard_hit(*leaf, intermediates@, *policy) {
                        let cur2 = choose|cur2: Seq<usize>|
                            #[trigger] spec_reachable_path(*leaf, intermediates@, cur2) && (
                            cur2.len() > policy.max_depth || (cur2.len() >= policy.max_depth
                                && exists|cc: usize|
                                cc < intermediates@.len() + 1 && !cur2.contains(cc)
                                    && #[trigger] spec_linked(*leaf, intermediates@, cur2, cc)));
                        assert(start@ =~= cur2.subrange(0, 1));
                        assert(spec_is_prefix(start@, cur2));
                        assert(spec_depth_witness_from(
                            *leaf,
                            intermediates@,
                            *policy,
                            start@,
                            cur2,
                        ));
                        assert(false);
                    }
                }
            }
            Err(e)
        },
    }
}

} // verus!
