//! Error taxonomy of the verification engine.

use vstd::prelude::*;

verus! {

/// Reason a candidate chain, or the whole search, was rejected.
///
/// Verification is strictly binary: a caller receives either a complete
/// verified chain or exactly one of these reasons, never a partially valid
/// result.
#[derive(Clone, Copy, Debug, PartialEq, Eq, Structural)]
pub enum VerificationError {
    /// No candidate path from the leaf to a trust anchor survived the checks.
    NoPathFound,
    /// A signature along the chain did not verify under the issuer's key.
    SignatureInvalid,
    /// A certificate's not-after lies before the validation time.
    Expired,
    /// A certificate's not-before lies after the validation time.
    NotYetValid,
    /// An issuing certificate does not carry the CA flag.
    BasicConstraintsViolation,
    /// A path-length limit or the policy's maximum depth was exceeded.
    PathLengthExceeded,
    /// An issuing certificate does not assert the keyCertSign usage.
    KeyUsageViolation,
    /// A certificate restricts its extended key usages to a set that lacks
    /// the required usage.
    ExtendedKeyUsageViolation,
    /// A name in the chain falls outside a CA's permitted subtrees or inside
    /// an excluded subtree.
    NameConstraintViolation,
    /// Certificate-policy processing found an empty intersection.
    PolicyConstraintViolation,
    /// The presented server name matches no subject alternative name of the
    /// leaf.
    HostnameMismatch,
    /// A certificate is signed with an algorithm outside the allow-list.
    UnsupportedAlgorithm,
    /// The revocation capability reported a certificate as revoked, or as
    /// unknown under a fail-closed policy.
    Revoked,
    /// A candidate issuer already occurs earlier in the path.
    CycleDetected,
    /// A certificate carries an unrecognized critical extension.
    UnknownCriticalExtension,
}

/// Reason a policy could not be constructed; distinct from a verification
/// failure and surfaced before any search runs.
#[derive(Clone, Copy, Debug, PartialEq, Eq, Structural)]
pub enum ConfigurationError {
    /// The requested maximum depth is negative.
    NegativeMaxDepth,
    /// The server profile was requested with an empty target name.
    EmptyServerName,
}

} // verus!
