//! Outside capabilities consumed by the engine.
//!
//! Low-level public-key signature verification and revocation checking are
//! external collaborators: the engine consumes them through the
//! [`CryptoOps`] trait, stated against each implementation's own
//! specification functions, and is verified for every implementation that
//! meets the trait's contracts.

use vstd::prelude::*;
use crate::cert::{seq_deref, AlgorithmId, Certificate};
use crate::error::VerificationError;

verus! {

/// Outcome of the revocation capability for one (certificate, issuer) pair.
#[derive(Clone, Copy, Debug, PartialEq, Eq, Structural)]
pub enum RevocationStatus {
    Good,
    Revoked,
    Unknown,
}

/// Capability interface for the outside collaborators of a verification
/// call.
///
/// `signature_valid` decides whether `sig` is a valid signature over `tbs`
/// under the public key `key` and algorithm `alg`; `revocation_status`
/// reports the revocation state of a certificate relative to its issuer;
/// `extra_chain_check` runs the caller's additional predicates over an
/// assembled candidate chain, after the built-in battery, returning the
/// first reason any of them rejects it. Each must agree with the
/// implementation's specification function, so every result is a
/// deterministic function of the inputs, as the engine's reproducibility
/// guarantee requires. Verified code cannot store arbitrary closures, so
/// caller-supplied predicates are composed here rather than held in the
/// policy object.
pub trait CryptoOps {
    /// What the implementation's signature check returns.
    spec fn spec_signature_valid(
        &self,
        key: Seq<u8>,
        alg: AlgorithmId,
        tbs: Seq<u8>,
        sig: Seq<u8>,
    ) -> bool;

    /// What the implementation's revocation check returns.
    spec fn spec_revocation(&self, cert: Certificate, issuer: Certificate) -> RevocationStatus;

    /// Verify `sig` over `tbs` under `key` and `alg`.
    fn signature_valid(&self, key: &Vec<u8>, alg: AlgorithmId, tbs: &Vec<u8>, sig: &Vec<u8>) -> (r:
        bool)
        ensures
            r == self.spec_signature_valid(key@, alg, tbs@, sig@),
    ;

    /// Report the revocation status of `cert`, issued by `issuer`.
    fn revocation_status(&self, cert: &Certificate, issuer: &Certificate) -> (r: RevocationStatus)
        ensures
            r == self.spec_revocation(*cert, *issuer),
    ;

    /// What the implementation's additional chain predicates return.
    spec fn spec_extra_chain_check(&self, chain: Seq<Certificate>) -> Option<VerificationError>;

    /// Run the caller's additional predicates over a candidate chain, the
    /// leaf first and a trust anchor last; `None` accepts it.
    fn extra_chain_check(&self, chain: &Vec<&Certificate>) -> (r: Option<VerificationError>)
        ensures
            r == self.spec_extra_chain_check(seq_deref(chain@)),
    ;
}

/// A deterministic stand-in for the public-key primitive, for exercising
/// the engine without one: a signature is valid exactly when it consists of
/// the verifying key followed by the signed bytes. Revocation data is never
/// available, so every status is `Good`.
pub struct ConcatOps;

impl CryptoOps for ConcatOps {
    open spec fn spec_signature_valid(
        &self,
        key: Seq<u8>,
        alg: AlgorithmId,
        tbs: Seq<u8>,
        sig: Seq<u8>,
    ) -> bool {
        sig == key + tbs
    }

    open spec fn spec_revocation(&self, cert: Certificate, issuer: Certificate) -> RevocationStatus {
        RevocationStatus::Good
    }

    fn signature_valid(&self, key: &Vec<u8>, alg: AlgorithmId, tbs: &Vec<u8>, sig: &Vec<u8>) -> (r:
        bool) {
        let sl = sig.len();
        if usize::MAX - key.len() < tbs.len() {
            proof {
                if sig@ == key@ + tbs@ {
                    assert(sig@.len() == key@.len() + tbs@.len());
                    assert(sl == sig@.len());
                    assert(false);
                }
            }
            return false;
        }
        if sig.len() != key.len() + tbs.len() {
            proof {
                if sig@ == key@ + tbs@ {
                    assert(sig@.len() == key@.len() + tbs@.len());
                }
            }
            return false;
        }
        let n = sig.len();
        let mut i: usize = 0;
        while i < n
            invariant
                n == sig.len(),
                sig.len() == key.len() + tbs.len(),
                i <= n,
                forall|j: int| 0 <= j < i ==> sig@[j] == (key@ + tbs@)[j],
            decreases n - i,
        {
            let expected = if i < key.len() {
                key[i]
            } else {
                tbs[i - key.len()]
            };
            if sig[i] != expected {
                proof {
                    if sig@ == key@ + tbs@ {
                        assert(sig@[i as int] == (key@ + tbs@)[i as int]);
                    }
                }
                return false;
            }
            i += 1;
        }
        assert(sig@ =~= key@ + tbs@);
        true
    }

    fn revocation_status(&self, cert: &Certificate, issuer: &Certificate) -> (r: RevocationStatus) {
        RevocationStatus::Good
    }

    open spec fn spec_extra_chain_check(&self, chain: Seq<Certificate>) -> Option<
        VerificationError,
    > {
        None
    }

    fn extra_chain_check(&self, chain: &Vec<&Certificate>) -> (r: Option<VerificationError>) {
        None
    }
}

/// A revocation collaborator driven by a fixed list: a certificate is
/// `Revoked` when its serial number occurs in `revoked_serials`, `Unknown`
/// when it occurs in `unknown_serials`, `Good` otherwise. Signatures are
/// checked as in [`ConcatOps`].
pub struct ListRevocationOps {
    pub revoked_serials: Vec<u64>,
    pub unknown_serials: Vec<u64>,
}

/// `serials` contains `serial`.
pub open spec fn spec_serial_listed(serials: Seq<u64>, serial: u64) -> bool {
    serials.contains(serial)
}

/// Executable membership test on a serial list.
pub fn serial_listed(serials: &Vec<u64>, serial: u64) -> (r: bool)
    ensures
        r == spec_serial_listed(serials@, serial),
{
    let n = serials.len();
    let mut i: usize = 0;
    while i < n
        invariant
            n == serials.len(),
            i <= n,
            forall|j: int| 0 <= j < i ==> serials@[j] != serial,
        decreases n - i,
    {
        if serials[i] == serial {
            assert(serials@.contains(serial));
            return true;
        }
        i += 1;
    }
    proof {
        if serials@.contains(serial) {
            let j = choose|j: int| 0 <= j < serials@.len() && serials@[j] == serial;
            assert(serials@[j] != serial);
        }
    }
    false
}

impl CryptoOps for ListRevocationOps {
    open spec fn spec_signature_valid(
        &self,
        key: Seq<u8>,
        alg: AlgorithmId,
        tbs: Seq<u8>,
        sig: Seq<u8>,
    ) -> bool {
        sig == key + tbs
    }

    open spec fn spec_revocation(&self, cert: Certificate, issuer: Certificate) -> RevocationStatus {
        if spec_serial_listed(self.revoked_serials@, cert.serial) {
            RevocationStatus::Revoked
        } else if spec_serial_listed(self.unknown_serials@, cert.serial) {
            RevocationStatus::Unknown
        } else {
            RevocationStatus::Good
        }
    }

    fn signature_valid(&self, key: &Vec<u8>, alg: AlgorithmId, tbs: &Vec<u8>, sig: &Vec<u8>) -> (r:
        bool) {
        let base = ConcatOps;
        let r = base.signature_valid(key, alg, tbs, sig);
        r
    }

    fn revocation_status(&self, cert: &Certificate, issuer: &Certificate) -> (r: RevocationStatus) {
        if serial_listed(&self.revoked_serials, cert.serial) {
            RevocationStatus::Revoked
        } else if serial_listed(&self.unknown_serials, cert.serial) {
            RevocationStatus::Unknown
        } else {
            RevocationStatus::Good
        }
    }

    open spec fn spec_extra_chain_check(&self, chain: Seq<Certificate>) -> Option<
        VerificationError,
    > {
        None
    }

    fn extra_chain_check(&self, chain: &Vec<&Certificate>) -> (r: Option<VerificationError>) {
        None
    }
}

} // verus!

verus! {

/// A capability with a caller-side additional predicate: beyond checking
/// signatures as [`ConcatOps`] does, its extra chain check accepts only
/// chains of at most `max_len` certificates, rejecting longer ones with
/// `PathLengthExceeded`. Revocation data is never available.
pub struct BoundedChainOps {
    pub max_len: usize,
}

impl CryptoOps for BoundedChainOps {
    open spec fn spec_signature_valid(
        &self,
        key: Seq<u8>,
        alg: AlgorithmId,
        tbs: Seq<u8>,
        sig: Seq<u8>,
    ) -> bool {
        sig == key + tbs
    }

    open spec fn spec_revocation(&self, cert: Certificate, issuer: Certificate) -> RevocationStatus {
        RevocationStatus::Good
    }

    fn signature_valid(&self, key: &Vec<u8>, alg: AlgorithmId, tbs: &Vec<u8>, sig: &Vec<u8>) -> (r:
        bool) {
        let base = ConcatOps;
        let r = base.signature_valid(key, alg, tbs, sig);
        r
    }

    fn revocation_status(&self, cert: &Certificate, issuer: &Certificate) -> (r: RevocationStatus) {
        RevocationStatus::Good
    }

    open spec fn spec_extra_chain_check(&self, chain: Seq<Certificate>) -> Option<
        VerificationError,
    > {
        if chain.len() > self.max_len {
            Some(VerificationError::PathLengthExceeded)
        } else {
            None
        }
    }

    fn extra_chain_check(&self, chain: &Vec<&Certificate>) -> (r: Option<VerificationError>) {
        if chain.len() > self.max_len {
            Some(VerificationError::PathLengthExceeded)
        } else {
            None
        }
    }
}

} // verus!
