//! Byte-string comparison, hostname matching and name-constraint subtrees.
//!
//! DNS names are handled as lower-case ASCII byte strings. Hostname
//! matching follows the single-label wildcard rule: a pattern whose first
//! label is `*` matches exactly one non-empty, dot-free leftmost label of
//! the presented name; no partial-label or multi-label wildcards exist.

use vstd::prelude::*;

verus! {

/// Byte-exact equality of two byte strings.
pub fn bytes_eq(a: &Vec<u8>, b: &Vec<u8>) -> (r: bool)
    ensures
        r == (a@ == b@),
{
    if a.len() != b.len() {
        assert(a@ != b@) by {
            assert(a@.len() != b@.len());
        }
        return false;
    }
    let n = a.len();
    let mut i: usize = 0;
    while i < n
        invariant
            n == a.len(),
            a.len() == b.len(),
            i <= n,
            forall|j: int| 0 <= j < i ==> a@[j] == b@[j],
        decreases n - i,
    {
        if a[i] != b[i] {
            return false;
        }
        i += 1;
    }
    assert(a@ =~= b@);
    true
}

/// The dot byte in ASCII.
pub const DOT: u8 = 46;

/// The asterisk byte in ASCII.
pub const STAR: u8 = 42;

/// The pattern begins with the wildcard label `*.`.
pub open spec fn spec_is_wildcard(pattern: Seq<u8>) -> bool {
    pattern.len() >= 2 && pattern[0] == STAR && pattern[1] == DOT
}

/// A presented name matches a SAN pattern. A non-wildcard pattern matches
/// only itself; a wildcard pattern `*.suffix` matches `label.suffix` for
/// every non-empty label containing no dot.
pub open spec fn spec_dns_matches(pattern: Seq<u8>, name: Seq<u8>) -> bool {
    if spec_is_wildcard(pattern) {
        exists|k: int|
            1 <= k < name.len() && name[k] == DOT && (forall|j: int| 0 <= j < k ==> name[j] != DOT)
                && name.skip(k) == pattern.skip(1)
    } else {
        pattern == name
    }
}

/// Index of the first dot in `name`, if any.
fn first_dot(name: &Vec<u8>) -> (r: Option<usize>)
    ensures
        match r {
            Some(k) => k < name@.len() && name@[k as int] == DOT && (forall|j: int|
                0 <= j < k ==> name@[j] != DOT),
            None => forall|j: int| 0 <= j < name@.len() ==> name@[j] != DOT,
        },
{
    let n = name.len();
    let mut i: usize = 0;
    while i < n
        invariant
            n == name.len(),
            i <= n,
            forall|j: int| 0 <= j < i ==> name@[j] != DOT,
        decreases n - i,
    {
        if name[i] == DOT {
            return Some(i);
        }
        i += 1;
    }
    None
}

/// The suffix of `a` starting at `ai` equals the suffix of `b` starting at
/// `bi`.
fn suffix_eq(a: &Vec<u8>, ai: usize, b: &Vec<u8>, bi: usize) -> (r: bool)
    requires
        ai <= a@.len(),
        bi <= b@.len(),
    ensures
        r == (a@.skip(ai as int) == b@.skip(bi as int)),
{
    if a.len() - ai != b.len() - bi {
        assert(a@.skip(ai as int).len() != b@.skip(bi as int).len());
        return false;
    }
    let n = a.len() - ai;
    let mut i: usize = 0;
    while i < n
        invariant
            ai <= a.len(),
            bi <= b.len(),
            n == a.len() - ai,
            a.len() - ai == b.len() - bi,
            i <= n,
            a@.subrange(ai as int, ai + i) == b@.subrange(bi as int, bi + i),
        decreases n - i,
    {
        if a[ai + i] != b[bi + i] {
            proof {
                if a@.skip(ai as int) == b@.skip(bi as int) {
                    assert(a@.skip(ai as int)[i as int] == b@.skip(bi as int)[i as int]);
                    assert(false);
                }
            }
            return false;
        }
        proof {
            let ghost pa = a@.subrange(ai as int, ai + i);
            assert(a@.subrange(ai as int, ai + i + 1) =~= b@.subrange(bi as int, bi + i + 1)) by {
                assert(forall|j: int|
                    0 <= j < i ==> a@.subrange(ai as int, ai + i + 1)[j] == pa[j]);
            }
        }
        i += 1;
    }
    proof {
        assert(a@.skip(ai as int) =~= a@.subrange(ai as int, a@.len() as int));
        assert(b@.skip(bi as int) =~= b@.subrange(bi as int, b@.len() as int));
    }
    true
}

/// Executable hostname matching; see [`spec_dns_matches`].
pub fn dns_matches(pattern: &Vec<u8>, name: &Vec<u8>) -> (r: bool)
    ensures
        r == spec_dns_matches(pattern@, name@),
{
    let is_wild = pattern.len() >= 2 && pattern[0] == STAR && pattern[1] == DOT;
    if is_wild {
        match first_dot(name) {
            Some(k) => {
                if k == 0 {
                    proof {
                        assert forall|k2: int|
                            1 <= k2 < name@.len() && name@[k2] == DOT implies !(forall|j: int|
                            0 <= j < k2 ==> name@[j] != DOT) by {
                            if forall|j: int| 0 <= j < k2 ==> name@[j] != DOT {
                                assert(name@[0] != DOT);
                            }
                        }
                    }
                    false
                } else {
                    let r = suffix_eq(name, k, pattern, 1);
                    proof {
                        if r {
                            assert(spec_dns_matches(pattern@, name@));
                        } else {
                            assert forall|k2: int|
                                1 <= k2 < name@.len() && name@[k2] == DOT && (forall|j: int|
                                    0 <= j < k2 ==> name@[j] != DOT) implies !(name@.skip(k2)
                                == pattern@.skip(1)) by {
                                assert(k2 == k) by {
                                    if k2 < k {
                                        assert(name@[k2] != DOT);
                                    } else if k2 > k {
                                        assert(name@[k as int] != DOT);
                                    }
                                }
                            }
                        }
                    }
                    r
                }
            },
            None => {
                assert(!spec_dns_matches(pattern@, name@));
                false
            },
        }
    } else {
        bytes_eq(pattern, name)
    }
}

/// The DNS name lies in the subtree: it equals the subtree suffix, or ends
/// with a dot followed by it.
pub open spec fn spec_in_subtree(name: Seq<u8>, subtree: Seq<u8>) -> bool {
    name == subtree || (name.len() > subtree.len() && name[name.len() - subtree.len() - 1] == DOT
        && name.skip(name.len() - subtree.len()) == subtree)
}

/// Executable subtree containment; see [`spec_in_subtree`].
pub fn in_subtree(name: &Vec<u8>, subtree: &Vec<u8>) -> (r: bool)
    ensures
        r == spec_in_subtree(name@, subtree@),
{
    if name.len() == subtree.len() {
        let r = bytes_eq(name, subtree);
        proof {
            if !r {
                assert(!(name@.len() > subtree@.len()));
            }
        }
        r
    } else if name.len() > subtree.len() {
        let cut = name.len() - subtree.len();
        if name[cut - 1] == DOT {
            let r = suffix_eq(name, cut, subtree, 0);
            proof {
                assert(subtree@.skip(0) =~= subtree@);
                if name@ == subtree@ {
                    assert(name@.len() == subtree@.len());
                }
            }
            r
        } else {
            proof {
                if name@ == subtree@ {
                    assert(name@.len() == subtree@.len());
                }
            }
            false
        }
    } else {
        assert(name@ != subtree@) by {
            assert(name@.len() != subtree@.len());
        }
        false
    }
}

} // verus!
