//! X.509 certificate-chain path building and policy validation.
//!
//! Given a leaf certificate, a pool of untrusted intermediates and a trust
//! store of anchors, the engine searches for a chain from the leaf to an
//! anchor in which every link and every whole-chain predicate required by the
//! validation policy holds, and returns either that chain or a diagnosable
//! error. Certificates arrive as pre-decoded structured values; DER parsing
//! and the public-key signature primitive itself are outside collaborators,
//! the latter consumed through the [`ops::CryptoOps`] capability trait.

pub mod cert;
pub mod error;
pub mod names;
pub mod ops;
pub mod policy;
pub mod store;
pub mod validate;
pub mod builder;
pub mod laws;
