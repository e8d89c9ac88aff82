//! The certificate view consumed by the policy checks.
//!
//! A [`Certificate`] is a pre-decoded, read-only value: raw DER handling is
//! an outside collaborator's job and malformed encodings never reach this
//! engine. Extensions form a closed, typed set; an unrecognized extension
//! survives decoding only as its criticality flag, which is all the engine
//! needs in order to reject chains that carry unknown critical extensions.

use vstd::prelude::*;

verus! {

/// Signature algorithm identifier, as decoded from the certificate.
#[derive(Clone, Copy, Debug, PartialEq, Eq, Structural)]
pub enum AlgorithmId {
    RsaSha256,
    RsaSha384,
    EcdsaP256Sha256,
    Ed25519,
    RsaSha1,
    RsaMd5,
}

/// True exactly for the algorithms on the allow-list; weak or unknown
/// algorithms are rejected with `UnsupportedAlgorithm`.
pub open spec fn spec_algorithm_allowed(alg: AlgorithmId) -> bool {
    match alg {
        AlgorithmId::RsaSha256 => true,
        AlgorithmId::RsaSha384 => true,
        AlgorithmId::EcdsaP256Sha256 => true,
        AlgorithmId::Ed25519 => true,
        AlgorithmId::RsaSha1 => false,
        AlgorithmId::RsaMd5 => false,
    }
}

/// Executable form of the algorithm allow-list.
pub fn algorithm_allowed(alg: AlgorithmId) -> (r: bool)
    ensures
        r == spec_algorithm_allowed(alg),
{
    match alg {
        AlgorithmId::RsaSha256 => true,
        AlgorithmId::RsaSha384 => true,
        AlgorithmId::EcdsaP256Sha256 => true,
        AlgorithmId::Ed25519 => true,
        AlgorithmId::RsaSha1 => false,
        AlgorithmId::RsaMd5 => false,
    }
}

/// Decoded key-usage bits; only the bits the chain checks read are kept.
#[derive(Clone, Copy, Debug, PartialEq, Eq, Structural)]
pub struct KeyUsage {
    pub digital_signature: bool,
    pub key_cert_sign: bool,
}

/// Decoded basic-constraints extension.
#[derive(Clone, Copy, Debug, PartialEq)]
pub struct BasicConstraints {
    /// Whether the certificate may act as a CA.
    pub ca: bool,
    /// Number of non-anchor certificates allowed below this CA, if limited.
    pub path_len: Option<u64>,
}

/// A subject-alternative-name entry.
#[derive(Clone, Debug, PartialEq)]
pub enum GeneralName {
    /// A DNS name, lower-case ASCII bytes.
    Dns(Vec<u8>),
    /// An IP address literal.
    Ip(Vec<u8>),
}

/// Decoded name-constraints extension. Subtrees are DNS suffixes,
/// lower-case ASCII bytes; they constrain the DNS names of subordinate
/// certificates.
#[derive(Clone, Debug, PartialEq)]
pub struct NameConstraints {
    pub permitted: Vec<Vec<u8>>,
    pub excluded: Vec<Vec<u8>>,
}

/// The closed set of extensions the engine reads, each `None` when the
/// certificate does not carry it.
#[derive(Clone, Debug, PartialEq)]
pub struct Extensions {
    pub basic_constraints: Option<BasicConstraints>,
    pub key_usage: Option<KeyUsage>,
    /// Extended-key-usage OIDs.
    pub extended_key_usage: Option<Vec<u64>>,
    pub subject_alt_name: Option<Vec<GeneralName>>,
    pub name_constraints: Option<NameConstraints>,
    /// Certificate-policy OIDs.
    pub certificate_policies: Option<Vec<u64>>,
    pub authority_key_id: Option<Vec<u8>>,
    pub subject_key_id: Option<Vec<u8>>,
    /// True when the certificate carries an extension outside this set that
    /// is marked critical; such a certificate must be rejected.
    pub has_unknown_critical: bool,
}

/// Read-only view of one decoded certificate. Subject and issuer are raw
/// distinguished-name bytes and are compared byte-exactly; validity bounds
/// are timestamps with second precision, both ends inclusive.
#[derive(Clone, Debug, PartialEq)]
pub struct Certificate {
    pub subject: Vec<u8>,
    pub issuer: Vec<u8>,
    pub serial: u64,
    pub not_before: i64,
    pub not_after: i64,
    pub public_key: Vec<u8>,
    pub signature_algorithm: AlgorithmId,
    /// The signed portion of the certificate, as raw bytes.
    pub tbs_bytes: Vec<u8>,
    pub signature: Vec<u8>,
    pub extensions: Extensions,
}

/// The certificate values behind a sequence of borrowed certificates.
pub open spec fn seq_deref(s: Seq<&Certificate>) -> Seq<Certificate> {
    Seq::new(s.len(), |i: int| *s[i])
}

/// The validation time falls within the certificate's validity period.
pub open spec fn spec_time_valid(c: Certificate, time: i64) -> bool {
    c.not_before <= time && time <= c.not_after
}

/// Executable validity-window check.
pub fn time_valid(c: &Certificate, time: i64) -> (r: bool)
    ensures
        r == spec_time_valid(*c, time),
{
    c.not_before <= time && time <= c.not_after
}

} // verus!
