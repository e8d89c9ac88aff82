//! The validation policy: time, depth bound, usage profile and strictness
//! switches.

use vstd::prelude::*;
use crate::error::ConfigurationError;

verus! {

/// Extended-key-usage OID standing for server authentication.
pub const OID_SERVER_AUTH: u64 = 1;

/// Extended-key-usage OID standing for client authentication.
pub const OID_CLIENT_AUTH: u64 = 2;

/// The "any extended key usage" OID, compatible with every requirement.
pub const OID_ANY_EKU: u64 = 3;

/// The usage profile of a verification call. The server profile carries
/// the presented target name, a lower-case DNS name or IP literal, which
/// the leaf must match through one of its subject alternative names; the
/// client profile requires no name match.
#[derive(Clone, Debug, PartialEq)]
pub enum Profile {
    Client,
    Server { name: Vec<u8> },
}

/// Immutable configuration of one verification call, or of many calls with
/// the same intent. Constructed through [`Policy::new_client`] or
/// [`Policy::new_server`], which reject inconsistent configurations up
/// front with a [`ConfigurationError`], distinct from any verification
/// failure. Caller-supplied extra predicates run after the built-in
/// checks; they are injected through
/// [`crate::ops::CryptoOps::extra_chain_check`], since a verified policy
/// object cannot hold arbitrary closures.
#[derive(Clone, Debug, PartialEq)]
pub struct Policy {
    /// The time at which validity periods are evaluated.
    pub validation_time: i64,
    /// Largest admissible index of a chain element counted from the leaf at
    /// zero: a chain may hold at most this many certificates above the
    /// leaf.
    pub max_depth: u64,
    /// Extended-key-usage OID every EKU-bearing chain element must allow.
    pub required_eku: u64,
    pub profile: Profile,
    /// Whether certificate-policy intersection is processed; an explicit
    /// strictness switch, off by default for compatibility.
    pub check_policies: bool,
    /// Whether an `Unknown` revocation status fails the candidate; off by
    /// default, matching deployments that cannot reliably fetch revocation
    /// data.
    pub revocation_fail_closed: bool,
}


impl Policy {
    /// Build a client-profile policy. Fails exactly when `max_depth` is
    /// negative.
    pub fn new_client(validation_time: i64, max_depth: i64, required_eku: u64) -> (r: Result<
        Policy,
        ConfigurationError,
    >)
        ensures
            r is Ok <==> 0 <= max_depth,
            r matches Ok(p) ==> p == (Policy {
                validation_time,
                max_depth: max_depth as u64,
                required_eku,
                profile: Profile::Client,
                check_policies: false,
                revocation_fail_closed: false,
            }),
            r matches Err(e) ==> e == ConfigurationError::NegativeMaxDepth,
    {
        if max_depth < 0 {
            return Err(ConfigurationError::NegativeMaxDepth);
        }
        Ok(
            Policy {
                validation_time,
                max_depth: max_depth as u64,
                required_eku,
                profile: Profile::Client,
                check_policies: false,
                revocation_fail_closed: false,
            },
        )
    }

    /// Build a server-profile policy for the presented target `name`.
    /// Fails exactly when `max_depth` is negative or `name` is empty.
    pub fn new_server(validation_time: i64, max_depth: i64, required_eku: u64, name: Vec<u8>) -> (r:
        Result<Policy, ConfigurationError>)
        ensures
            r is Ok <==> 0 <= max_depth && name@.len() > 0,
            r matches Ok(p) ==> p == (Policy {
                validation_time,
                max_depth: max_depth as u64,
                required_eku,
                profile: Profile::Server { name },
                check_policies: false,
                revocation_fail_closed: false,
            }),
            r matches Err(e) ==> (e == ConfigurationError::NegativeMaxDepth <==> max_depth < 0) && (
            e == ConfigurationError::EmptyServerName <==> max_depth >= 0),
    {
        if max_depth < 0 {
            return Err(ConfigurationError::NegativeMaxDepth);
        }
        if name.len() == 0 {
            return Err(ConfigurationError::EmptyServerName);
        }
        Ok(
            Policy {
                validation_time,
                max_depth: max_depth as u64,
                required_eku,
                profile: Profile::Server { name },
                check_policies: false,
                revocation_fail_closed: false,
            },
        )
    }
}

} // verus!
