//! The trust store: an immutable set of anchor certificates.

use vstd::prelude::*;
use crate::cert::Certificate;
use crate::names::bytes_eq;

verus! {

/// An immutable set of trust anchors, built once and shared read-only
/// across verification calls. The store never mutates certificate content;
/// anchors are trusted unconditionally, so their own signatures are never
/// checked.
pub struct TrustStore {
    anchors: Vec<Certificate>,
}

impl TrustStore {
    /// The anchors, in store iteration order.
    pub closed spec fn spec_anchors(&self) -> Seq<Certificate> {
        self.anchors@
    }

    /// Wrap the given anchors, keeping their order.
    pub fn new(anchors: Vec<Certificate>) -> (r: TrustStore)
        ensures
            r.spec_anchors() == anchors@,
    {
        TrustStore { anchors }
    }

    /// Number of anchors in the store.
    pub fn len(&self) -> (r: usize)
        ensures
            r == self.spec_anchors().len(),
    {
        self.anchors.len()
    }

    /// The anchor at the given position.
    pub fn get(&self, i: usize) -> (r: &Certificate)
        requires
            i < self.spec_anchors().len(),
        ensures
            *r == self.spec_anchors()[i as int],
    {
        &self.anchors[i]
    }

    /// Positions of the anchors whose subject equals `issuer`: the
    /// candidate issuers the store offers for a certificate carrying that
    /// issuer name, in store order.
    pub fn issuer_candidates(&self, issuer: &Vec<u8>) -> (r: Vec<usize>)
        ensures
            forall|j: int|
                0 <= j < r@.len() ==> #[trigger] r@[j] < self.spec_anchors().len()
                    && self.spec_anchors()[r@[j] as int].subject@ == issuer@,
            forall|i: int|
                0 <= i < self.spec_anchors().len() && self.spec_anchors()[i].subject@ == issuer@
                    ==> r@.contains(i as usize),
            forall|j1: int, j2: int| 0 <= j1 < j2 < r@.len() ==> r@[j1] < r@[j2],
    {
        let n = self.anchors.len();
        let mut r: Vec<usize> = Vec::new();
        let mut i: usize = 0;
        while i < n
            invariant
                n == self.anchors@.len(),
                i <= n,
                forall|j: int|
                    0 <= j < r@.len() ==> #[trigger] r@[j] < self.anchors@.len()
                        && self.anchors@[r@[j] as int].subject@ == issuer@,
                forall|k: int|
                    0 <= k < i && self.anchors@[k].subject@ == issuer@ ==> r@.contains(k as usize),
                forall|j: int| 0 <= j < r@.len() ==> #[trigger] r@[j] < i,
                forall|j1: int, j2: int| 0 <= j1 < j2 < r@.len() ==> r@[j1] < r@[j2],
            decreases n - i,
        {
            let ghost old_r = r@;
            if bytes_eq(&self.anchors[i].subject, issuer) {
                r.push(i);
                proof {
                    assert(r@[r@.len() - 1] == i);
                    assert forall|k: int|
                        0 <= k < i + 1 && self.anchors@[k].subject@ == issuer@ implies r@.contains(
                        k as usize,
                    ) by {
                        if k < i {
                            let j = choose|j: int| 0 <= j < old_r.len() && old_r[j] == k as usize;
                            assert(r@[j] == k as usize);
                        } else {
                            assert(r@[r@.len() - 1] == k as usize);
                        }
                    }
                }
            } else {
                proof {
                    assert forall|k: int|
                        0 <= k < i + 1 && self.anchors@[k].subject@ == issuer@ implies r@.contains(
                        k as usize,
                    ) by {
                        assert(k < i);
                    }
                }
            }
            i += 1;
        }
        r
    }
}

} // verus!
