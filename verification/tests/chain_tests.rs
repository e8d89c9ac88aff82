use x509_chain::builder::verify_chain;
use x509_chain::cert::{
    AlgorithmId, BasicConstraints, Certificate, Extensions, GeneralName, KeyUsage, NameConstraints,
};
use x509_chain::error::{ConfigurationError, VerificationError};
use x509_chain::names::{bytes_eq, dns_matches, in_subtree};
use x509_chain::ops::{BoundedChainOps, ConcatOps, CryptoOps, ListRevocationOps};
use x509_chain::policy::{Policy, OID_ANY_EKU, OID_CLIENT_AUTH, OID_SERVER_AUTH};
use x509_chain::store::TrustStore;

const T2000: i64 = 946684800;
const T2024: i64 = 1704067200;
const T2040: i64 = 2208988800;

fn empty_exts() -> Extensions {
    Extensions {
        basic_constraints: None,
        key_usage: None,
        extended_key_usage: None,
        subject_alt_name: None,
        name_constraints: None,
        certificate_policies: None,
        authority_key_id: None,
        subject_key_id: None,
        has_unknown_critical: false,
    }
}

fn ca_exts() -> Extensions {
    let mut e = empty_exts();
    e.basic_constraints = Some(BasicConstraints { ca: true, path_len: None });
    e.key_usage = Some(KeyUsage { digital_signature: false, key_cert_sign: true });
    e
}

fn sign(issuer_key: &str, tbs: &[u8]) -> Vec<u8> {
    let mut v = issuer_key.as_bytes().to_vec();
    v.extend_from_slice(tbs);
    v
}

fn cert(
    subject: &str,
    issuer: &str,
    serial: u64,
    not_before: i64,
    not_after: i64,
    key: &str,
    issuer_key: &str,
    exts: Extensions,
) -> Certificate {
    let tbs = format!("tbs:{}:{}", subject, serial).into_bytes();
    let signature = sign(issuer_key, &tbs);
    Certificate {
        subject: subject.as_bytes().to_vec(),
        issuer: issuer.as_bytes().to_vec(),
        serial,
        not_before,
        not_after,
        public_key: key.as_bytes().to_vec(),
        signature_algorithm: AlgorithmId::RsaSha256,
        tbs_bytes: tbs,
        signature,
        extensions: exts,
    }
}

/// Root anchor, intermediate issued by it, leaf issued by the intermediate.
fn trio() -> (Certificate, Certificate, Certificate) {
    let root = cert("root", "root", 1, 0, 1000, "rk", "rk", ca_exts());
    let inter = cert("inter", "root", 2, 0, 1000, "ik", "rk", ca_exts());
    let leaf = cert("leaf", "inter", 3, 0, 1000, "lk", "ik", empty_exts());
    (leaf, inter, root)
}

fn client_policy() -> Policy {
    Policy::new_client(500, 10, OID_CLIENT_AUTH).unwrap()
}

#[test]
fn test_valid_three_cert_chain() {
    let (leaf, inter, root) = trio();
    let store = TrustStore::new(vec![root.clone()]);
    let pool = vec![inter.clone()];
    let r = verify_chain(&ConcatOps, &leaf, &pool, &store, &client_policy());
    let vc = r.expect("chain should verify");
    assert_eq!(vc.len(), 3);
    assert_eq!(*vc.get(0), leaf);
    assert_eq!(*vc.get(1), inter);
    assert_eq!(*vc.get(2), root);
}

#[test]
fn test_expired_leaf() {
    let (mut leaf, inter, root) = trio();
    leaf.not_after = 400;
    let store = TrustStore::new(vec![root]);
    let pool = vec![inter];
    let r = verify_chain(&ConcatOps, &leaf, &pool, &store, &client_policy());
    assert_eq!(r.unwrap_err(), VerificationError::Expired);
}

#[test]
fn test_not_yet_valid_leaf() {
    let (mut leaf, inter, root) = trio();
    leaf.not_before = 600;
    let store = TrustStore::new(vec![root]);
    let pool = vec![inter];
    let r = verify_chain(&ConcatOps, &leaf, &pool, &store, &client_policy());
    assert_eq!(r.unwrap_err(), VerificationError::NotYetValid);
}

#[test]
fn test_expired_intermediate() {
    let (leaf, mut inter, root) = trio();
    inter.not_after = 400;
    let store = TrustStore::new(vec![root]);
    let pool = vec![inter];
    let r = verify_chain(&ConcatOps, &leaf, &pool, &store, &client_policy());
    assert_eq!(r.unwrap_err(), VerificationError::Expired);
}

#[test]
fn test_tampered_signature() {
    let (mut leaf, inter, root) = trio();
    leaf.signature[0] ^= 1;
    let store = TrustStore::new(vec![root]);
    let pool = vec![inter];
    let r = verify_chain(&ConcatOps, &leaf, &pool, &store, &client_policy());
    assert_eq!(r.unwrap_err(), VerificationError::SignatureInvalid);
}

#[test]
fn test_unsupported_algorithm() {
    let (mut leaf, inter, root) = trio();
    leaf.signature_algorithm = AlgorithmId::RsaMd5;
    let store = TrustStore::new(vec![root]);
    let pool = vec![inter];
    let r = verify_chain(&ConcatOps, &leaf, &pool, &store, &client_policy());
    assert_eq!(r.unwrap_err(), VerificationError::UnsupportedAlgorithm);
}

#[test]
fn test_basic_constraints_violation() {
    let (leaf, mut inter, root) = trio();
    inter.extensions.basic_constraints = Some(BasicConstraints { ca: false, path_len: None });
    let store = TrustStore::new(vec![root]);
    let pool = vec![inter];
    let r = verify_chain(&ConcatOps, &leaf, &pool, &store, &client_policy());
    assert_eq!(r.unwrap_err(), VerificationError::BasicConstraintsViolation);
}

#[test]
fn test_key_usage_missing_on_intermediate() {
    let (leaf, mut inter, root) = trio();
    inter.extensions.key_usage = None;
    let store = TrustStore::new(vec![root]);
    let pool = vec![inter];
    let r = verify_chain(&ConcatOps, &leaf, &pool, &store, &client_policy());
    assert_eq!(r.unwrap_err(), VerificationError::KeyUsageViolation);
}

#[test]
fn test_key_usage_without_cert_sign() {
    let (leaf, mut inter, root) = trio();
    inter.extensions.key_usage = Some(KeyUsage { digital_signature: true, key_cert_sign: false });
    let store = TrustStore::new(vec![root]);
    let pool = vec![inter];
    let r = verify_chain(&ConcatOps, &leaf, &pool, &store, &client_policy());
    assert_eq!(r.unwrap_err(), VerificationError::KeyUsageViolation);
}

#[test]
fn test_anchor_without_extensions_is_exempt() {
    let (leaf, inter, _) = trio();
    let bare_root = cert("root", "root", 1, 0, 1000, "rk", "rk", empty_exts());
    let store = TrustStore::new(vec![bare_root]);
    let pool = vec![inter];
    let r = verify_chain(&ConcatOps, &leaf, &pool, &store, &client_policy());
    assert!(r.is_ok());
}

#[test]
fn test_eku_violation() {
    let (mut leaf, inter, root) = trio();
    leaf.extensions.extended_key_usage = Some(vec![OID_SERVER_AUTH]);
    let store = TrustStore::new(vec![root]);
    let pool = vec![inter];
    let r = verify_chain(&ConcatOps, &leaf, &pool, &store, &client_policy());
    assert_eq!(r.unwrap_err(), VerificationError::ExtendedKeyUsageViolation);
}

#[test]
fn test_any_eku_accepted() {
    let (mut leaf, inter, root) = trio();
    leaf.extensions.extended_key_usage = Some(vec![OID_ANY_EKU]);
    let store = TrustStore::new(vec![root]);
    let pool = vec![inter];
    let r = verify_chain(&ConcatOps, &leaf, &pool, &store, &client_policy());
    assert!(r.is_ok());
}

#[test]
fn test_unknown_critical_extension() {
    let (mut leaf, inter, root) = trio();
    leaf.extensions.has_unknown_critical = true;
    let store = TrustStore::new(vec![root]);
    let pool = vec![inter];
    let r = verify_chain(&ConcatOps, &leaf, &pool, &store, &client_policy());
    assert_eq!(r.unwrap_err(), VerificationError::UnknownCriticalExtension);
}

#[test]
fn test_no_path_found() {
    let (mut leaf, _, root) = trio();
    leaf.issuer = b"nobody".to_vec();
    let store = TrustStore::new(vec![root]);
    let pool: Vec<Certificate> = Vec::new();
    let r = verify_chain(&ConcatOps, &leaf, &pool, &store, &client_policy());
    assert_eq!(r.unwrap_err(), VerificationError::NoPathFound);
}

#[test]
fn test_cycle_detected() {
    let a = cert("a", "b", 10, 0, 1000, "ak", "bk", ca_exts());
    let b = cert("b", "a", 11, 0, 1000, "bk", "ak", ca_exts());
    let leaf = cert("leaf", "a", 12, 0, 1000, "lk", "ak", empty_exts());
    let store = TrustStore::new(Vec::new());
    let pool = vec![a, b];
    let r = verify_chain(&ConcatOps, &leaf, &pool, &store, &client_policy());
    assert_eq!(r.unwrap_err(), VerificationError::CycleDetected);
}

#[test]
fn test_depth_guard_prefers_valid_short_path() {
    // Two candidate issuers share the subject and key the leaf names; one
    // is anchored directly, the other through one more CA. With the depth
    // bound at two, the longer branch is cut and the direct chain returned.
    let root = cert("root", "root", 1, 0, 1000, "rk", "rk", ca_exts());
    let x_long = cert("x", "y", 20, 0, 1000, "xk", "yk", ca_exts());
    let y = cert("y", "root", 21, 0, 1000, "yk", "rk", ca_exts());
    let x_short = cert("x", "root", 22, 0, 1000, "xk", "rk", ca_exts());
    let leaf = cert("leaf", "x", 23, 0, 1000, "lk", "xk", empty_exts());
    let store = TrustStore::new(vec![root]);
    let pool = vec![x_long.clone(), y.clone(), x_short.clone()];
    let policy = Policy::new_client(500, 2, OID_CLIENT_AUTH).unwrap();
    let r = verify_chain(&ConcatOps, &leaf, &pool, &store, &policy);
    let vc = r.expect("short chain should verify");
    assert_eq!(vc.len(), 3);
    assert_eq!(vc.get(1).serial, 22);

    // With only the long branch on offer, the depth guard is the reason.
    let pool_long = vec![x_long, y];
    let r2 = verify_chain(&ConcatOps, &leaf, &pool_long, &store, &policy);
    assert_eq!(r2.unwrap_err(), VerificationError::PathLengthExceeded);
}

#[test]
fn test_path_length_limit_in_certificate() {
    // The root states a zero path-length limit, so one intermediate
    // between it and the leaf is one too many.
    let mut root_exts = ca_exts();
    root_exts.basic_constraints = Some(BasicConstraints { ca: true, path_len: Some(0) });
    let root = cert("root", "root", 1, 0, 1000, "rk", "rk", root_exts);
    let inter = cert("inter", "root", 2, 0, 1000, "ik", "rk", ca_exts());
    let leaf = cert("leaf", "inter", 3, 0, 1000, "lk", "ik", empty_exts());
    let store = TrustStore::new(vec![root]);
    let pool = vec![inter];
    let r = verify_chain(&ConcatOps, &leaf, &pool, &store, &client_policy());
    assert_eq!(r.unwrap_err(), VerificationError::PathLengthExceeded);
}

#[test]
fn test_idempotent_results() {
    let (leaf, inter, root) = trio();
    let store = TrustStore::new(vec![root]);
    let pool = vec![inter];
    let policy = client_policy();
    let r1 = verify_chain(&ConcatOps, &leaf, &pool, &store, &policy);
    let r2 = verify_chain(&ConcatOps, &leaf, &pool, &store, &policy);
    match (&r1, &r2) {
        (Ok(a), Ok(b)) => assert_eq!(a.certs(), b.certs()),
        _ => panic!("both runs should accept"),
    }

    let mut bad = leaf.clone();
    bad.signature[0] ^= 1;
    let e1 = verify_chain(&ConcatOps, &bad, &pool, &store, &policy);
    let e2 = verify_chain(&ConcatOps, &bad, &pool, &store, &policy);
    assert_eq!(e1.unwrap_err(), e2.unwrap_err());
}

#[test]
fn test_excluded_subtree_rejects_san_inside() {
    let (mut leaf, mut inter, root) = trio();
    inter.extensions.name_constraints = Some(NameConstraints {
        permitted: Vec::new(),
        excluded: vec![b"example.net".to_vec()],
    });
    leaf.extensions.subject_alt_name =
        Some(vec![GeneralName::Dns(b"foo.example.net".to_vec())]);
    let store = TrustStore::new(vec![root]);
    let pool = vec![inter];
    let r = verify_chain(&ConcatOps, &leaf, &pool, &store, &client_policy());
    assert_eq!(r.unwrap_err(), VerificationError::NameConstraintViolation);
}

#[test]
fn test_excluded_subtree_leaves_outside_names_alone() {
    let (mut leaf, mut inter, root) = trio();
    inter.extensions.name_constraints = Some(NameConstraints {
        permitted: Vec::new(),
        excluded: vec![b"example.net".to_vec()],
    });
    leaf.extensions.subject_alt_name =
        Some(vec![GeneralName::Dns(b"foo.example.org".to_vec())]);
    let store = TrustStore::new(vec![root]);
    let pool = vec![inter];
    let r = verify_chain(&ConcatOps, &leaf, &pool, &store, &client_policy());
    assert!(r.is_ok());
}

#[test]
fn test_permitted_subtree_enforced() {
    let (mut leaf, mut inter, root) = trio();
    inter.extensions.name_constraints = Some(NameConstraints {
        permitted: vec![b"example.com".to_vec()],
        excluded: Vec::new(),
    });
    leaf.extensions.subject_alt_name =
        Some(vec![GeneralName::Dns(b"host.example.org".to_vec())]);
    let store = TrustStore::new(vec![root.clone()]);
    let pool = vec![inter.clone()];
    let r = verify_chain(&ConcatOps, &leaf, &pool, &store, &client_policy());
    assert_eq!(r.unwrap_err(), VerificationError::NameConstraintViolation);

    leaf.extensions.subject_alt_name =
        Some(vec![GeneralName::Dns(b"host.example.com".to_vec())]);
    let r2 = verify_chain(&ConcatOps, &leaf, &pool, &store, &client_policy());
    assert!(r2.is_ok());
}

#[test]
fn test_server_profile_scenario() {
    // Root valid 2000 to 2040; intermediate with a zero path-length limit;
    // leaf with a wildcard name for one label of example.com.
    let root = cert("r", "r", 1, T2000, T2040, "rk", "rk", ca_exts());
    let mut inter_exts = ca_exts();
    inter_exts.basic_constraints = Some(BasicConstraints { ca: true, path_len: Some(0) });
    let inter = cert("i", "r", 2, T2000, T2040, "ik", "rk", inter_exts);
    let mut leaf_exts = empty_exts();
    leaf_exts.extended_key_usage = Some(vec![OID_SERVER_AUTH]);
    leaf_exts.subject_alt_name = Some(vec![GeneralName::Dns(b"*.example.com".to_vec())]);
    let leaf = cert("l", "i", 3, T2000, T2040, "lk", "ik", leaf_exts);

    let store = TrustStore::new(vec![root.clone()]);
    let pool = vec![inter.clone()];
    let policy =
        Policy::new_server(T2024, 5, OID_SERVER_AUTH, b"api.example.com".to_vec()).unwrap();
    let r = verify_chain(&ConcatOps, &leaf, &pool, &store, &policy);
    let vc = r.expect("server chain should verify");
    assert_eq!(vc.len(), 3);
    assert_eq!(*vc.get(0), leaf);
    assert_eq!(*vc.get(1), inter);
    assert_eq!(*vc.get(2), root);

    // The wildcard covers exactly one label.
    let policy2 =
        Policy::new_server(T2024, 5, OID_SERVER_AUTH, b"sub.api.example.com".to_vec()).unwrap();
    let r2 = verify_chain(&ConcatOps, &leaf, &pool, &store, &policy2);
    assert_eq!(r2.unwrap_err(), VerificationError::HostnameMismatch);
}

#[test]
fn test_revoked_certificate() {
    let (leaf, inter, root) = trio();
    let store = TrustStore::new(vec![root]);
    let pool = vec![inter];
    let ops = ListRevocationOps { revoked_serials: vec![3], unknown_serials: Vec::new() };
    let r = verify_chain(&ops, &leaf, &pool, &store, &client_policy());
    assert_eq!(r.unwrap_err(), VerificationError::Revoked);
}

#[test]
fn test_revocation_unknown_fail_open_and_closed() {
    let (leaf, inter, root) = trio();
    let store = TrustStore::new(vec![root]);
    let pool = vec![inter];
    let ops = ListRevocationOps { revoked_serials: Vec::new(), unknown_serials: vec![3] };
    let open_policy = client_policy();
    assert!(verify_chain(&ops, &leaf, &pool, &store, &open_policy).is_ok());

    let mut closed_policy = client_policy();
    closed_policy.revocation_fail_closed = true;
    let r = verify_chain(&ops, &leaf, &pool, &store, &closed_policy);
    assert_eq!(r.unwrap_err(), VerificationError::Revoked);
}

#[test]
fn test_policy_constraint_processing() {
    let (mut leaf, mut inter, root) = trio();
    leaf.extensions.certificate_policies = Some(vec![10, 11]);
    inter.extensions.certificate_policies = Some(vec![11, 12]);
    let store = TrustStore::new(vec![root.clone()]);
    let pool = vec![inter.clone()];
    let mut policy = client_policy();
    policy.check_policies = true;
    assert!(verify_chain(&ConcatOps, &leaf, &pool, &store, &policy).is_ok());

    leaf.extensions.certificate_policies = Some(vec![10]);
    inter.extensions.certificate_policies = Some(vec![12]);
    let pool2 = vec![inter];
    let r = verify_chain(&ConcatOps, &leaf, &pool2, &store, &policy);
    assert_eq!(r.unwrap_err(), VerificationError::PolicyConstraintViolation);

    // Off by default: the same disjoint sets pass without the switch.
    let (mut leaf2, mut inter2, root2) = trio();
    leaf2.extensions.certificate_policies = Some(vec![10]);
    inter2.extensions.certificate_policies = Some(vec![12]);
    let store2 = TrustStore::new(vec![root2]);
    let pool3 = vec![inter2];
    assert!(verify_chain(&ConcatOps, &leaf2, &pool3, &store2, &client_policy()).is_ok());
}

#[test]
fn test_policy_configuration_errors() {
    assert_eq!(
        Policy::new_client(0, -1, OID_CLIENT_AUTH).unwrap_err(),
        ConfigurationError::NegativeMaxDepth
    );
    assert_eq!(
        Policy::new_server(0, -1, OID_SERVER_AUTH, b"h".to_vec()).unwrap_err(),
        ConfigurationError::NegativeMaxDepth
    );
    assert_eq!(
        Policy::new_server(0, 4, OID_SERVER_AUTH, Vec::new()).unwrap_err(),
        ConfigurationError::EmptyServerName
    );
    assert!(Policy::new_server(0, 4, OID_SERVER_AUTH, b"h".to_vec()).is_ok());
}

#[test]
fn test_dns_matching_rules() {
    assert!(dns_matches(&b"api.example.com".to_vec(), &b"api.example.com".to_vec()));
    assert!(!dns_matches(&b"api.example.com".to_vec(), &b"api.example.org".to_vec()));
    assert!(dns_matches(&b"*.example.com".to_vec(), &b"api.example.com".to_vec()));
    assert!(!dns_matches(&b"*.example.com".to_vec(), &b"sub.api.example.com".to_vec()));
    assert!(!dns_matches(&b"*.example.com".to_vec(), &b"example.com".to_vec()));
    assert!(!dns_matches(&b"*.example.com".to_vec(), &b".example.com".to_vec()));
}

#[test]
fn test_subtree_containment_rules() {
    assert!(in_subtree(&b"example.net".to_vec(), &b"example.net".to_vec()));
    assert!(in_subtree(&b"foo.example.net".to_vec(), &b"example.net".to_vec()));
    assert!(in_subtree(&b"a.b.example.net".to_vec(), &b"example.net".to_vec()));
    assert!(!in_subtree(&b"fooexample.net".to_vec(), &b"example.net".to_vec()));
    assert!(!in_subtree(&b"example.org".to_vec(), &b"example.net".to_vec()));
    assert!(!in_subtree(&b"net".to_vec(), &b"example.net".to_vec()));
}

#[test]
fn test_concat_signature_check() {
    let key = b"key".to_vec();
    let tbs = b"payload".to_vec();
    let mut sig = b"key".to_vec();
    sig.extend_from_slice(b"payload");
    assert!(ConcatOps.signature_valid(&key, AlgorithmId::RsaSha256, &tbs, &sig));
    sig[2] ^= 1;
    assert!(!ConcatOps.signature_valid(&key, AlgorithmId::RsaSha256, &tbs, &sig));
    assert!(!ConcatOps.signature_valid(&key, AlgorithmId::RsaSha256, &tbs, &b"key".to_vec()));
}

#[test]
fn test_store_issuer_candidates() {
    let a1 = cert("a", "a", 1, 0, 10, "k1", "k1", ca_exts());
    let b = cert("b", "b", 2, 0, 10, "k2", "k2", ca_exts());
    let a2 = cert("a", "a", 3, 0, 10, "k3", "k3", ca_exts());
    let store = TrustStore::new(vec![a1, b, a2]);
    assert_eq!(store.issuer_candidates(&b"a".to_vec()), vec![0, 2]);
    assert_eq!(store.issuer_candidates(&b"b".to_vec()), vec![1]);
    assert_eq!(store.issuer_candidates(&b"c".to_vec()), Vec::<usize>::new());
    assert_eq!(store.len(), 3);
    assert!(bytes_eq(&store.get(1).subject, &b"b".to_vec()));
}

#[test]
fn test_key_identifier_linkage() {
    // The leaf names an authority key identifier; an intermediate whose
    // subject key identifier differs is not its issuer, one that matches
    // is.
    let (mut leaf, mut inter, root) = trio();
    leaf.extensions.authority_key_id = Some(b"kid-1".to_vec());
    inter.extensions.subject_key_id = Some(b"kid-2".to_vec());
    let store = TrustStore::new(vec![root.clone()]);
    let pool = vec![inter.clone()];
    let r = verify_chain(&ConcatOps, &leaf, &pool, &store, &client_policy());
    assert_eq!(r.unwrap_err(), VerificationError::NoPathFound);

    inter.extensions.subject_key_id = Some(b"kid-1".to_vec());
    let pool2 = vec![inter];
    let r2 = verify_chain(&ConcatOps, &leaf, &pool2, &store, &client_policy());
    assert!(r2.is_ok());
}

#[test]
fn test_extra_chain_check_runs_after_builtins() {
    let (leaf, inter, root) = trio();
    let store = TrustStore::new(vec![root.clone()]);
    let pool = vec![inter];
    let ops = BoundedChainOps { max_len: 2 };
    let r = verify_chain(&ops, &leaf, &pool, &store, &client_policy());
    assert_eq!(r.unwrap_err(), VerificationError::PathLengthExceeded);

    let direct = cert("direct", "root", 7, 0, 1000, "dk", "rk", empty_exts());
    let none: Vec<Certificate> = Vec::new();
    let r2 = verify_chain(&ops, &direct, &none, &store, &client_policy());
    assert_eq!(r2.unwrap().len(), 2);
}

#[test]
fn test_self_issued_exempt_from_path_length() {
    // The root allows one non-self-issued certificate beneath it. The
    // chain holds two CAs with the subject "s" — a self-issued key
    // rollover on top of the original — so only the original counts.
    let mut root_exts = ca_exts();
    root_exts.basic_constraints = Some(BasicConstraints { ca: true, path_len: Some(1) });
    let root = cert("root", "root", 1, 0, 1000, "rk", "rk", root_exts);
    let s_old = cert("s", "root", 2, 0, 1000, "sk_old", "rk", ca_exts());
    let s_new = cert("s", "s", 3, 0, 1000, "sk_new", "sk_old", ca_exts());
    let leaf = cert("leaf", "s", 4, 0, 1000, "lk", "sk_new", empty_exts());
    let store = TrustStore::new(vec![root]);
    let pool = vec![s_new, s_old];
    let r = verify_chain(&ConcatOps, &leaf, &pool, &store, &client_policy());
    let vc = r.expect("self-issued rollover should not count against the limit");
    assert_eq!(vc.len(), 4);
}
