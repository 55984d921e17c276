use pask::envelope::verify_ed25519;
use pask::fixtures::{engagement_request, evidence_bundle, site_config, ENGAGEMENT_ID};
use pask::site::{deterministic_uuid_v4, Ed25519SiteProducer, EvidenceBundle, EvidenceFile, SiteError};
use pask::digest::sha256_prefixed;

const KEY: [u8; 32] = [42u8; 32];
const NOW: &str = "2026-10-15T14:00:00Z";

fn producer() -> Ed25519SiteProducer {
    Ed25519SiteProducer::new(site_config(), KEY)
}

fn request() -> pask::site::EngagementRequest {
    engagement_request(evidence_bundle(b"first observation\n", b"second observation\n"))
}

#[test]
fn produces_verifiable_receipt() {
    let p = producer();
    let statement = p.produce(&request(), NOW).expect("produce");
    let payload = verify_ed25519(&statement, &p.verifying_key()).expect("verify");
    assert_eq!(payload.engagement_id(), ENGAGEMENT_ID);
    assert_eq!(payload.site_id(), "site:res-001");
    assert_eq!(payload.witness_key(), "key:tee:res-001-witness-01");
    assert_eq!(payload.chain_seq(), 0);
    assert!(payload.id.starts_with("uuid:"));
    assert_eq!(payload.ts, NOW);
}

#[test]
fn two_produces_return_identical_bytes() {
    let p = producer();
    assert_eq!(p.produce(&request(), NOW).unwrap(), p.produce(&request(), NOW).unwrap());
}

#[test]
fn evidence_engagement_id_mismatch_is_rejected() {
    let p = producer();
    let mut r = request();
    r.engagement_id = "eng:res-001:20261015-150000".to_owned();
    assert!(matches!(p.produce(&r, NOW), Err(SiteError::EvidenceMismatch)));
}

#[test]
fn empty_site_id_is_rejected() {
    let mut config = site_config();
    config.site_id = String::new();
    let p = Ed25519SiteProducer::new(config, KEY);
    match p.produce(&request(), NOW) {
        Err(SiteError::WireError(message)) => assert!(message.contains("required string must not be empty")),
        other => panic!("expected wire-format error, got {other:?}"),
    }
}

#[test]
fn sorted_files_produce_stable_digest() {
    let a = EvidenceFile { path: "b.txt".to_owned(), size_bytes: 1, digest: sha256_prefixed(b"b") };
    let b = EvidenceFile { path: "a.txt".to_owned(), size_bytes: 1, digest: sha256_prefixed(b"a") };
    let bundle = EvidenceBundle::new_sorted("eng", vec![a, b]);
    assert_eq!(bundle.files[0].path, "a.txt");
    assert_eq!(bundle.files[1].path, "b.txt");
    let c = EvidenceFile { path: "a.txt".to_owned(), size_bytes: 1, digest: sha256_prefixed(b"a") };
    let d = EvidenceFile { path: "b.txt".to_owned(), size_bytes: 1, digest: sha256_prefixed(b"b") };
    let again = EvidenceBundle::new_sorted("eng", vec![c, d]);
    assert_eq!(bundle.to_jcs().unwrap(), again.to_jcs().unwrap());
}

#[test]
fn evidence_digest_matches_jcs_sha256() {
    let bundle = evidence_bundle(b"first observation\n", b"second observation\n");
    let jcs = bundle.to_jcs().unwrap();
    let text = String::from_utf8(jcs.clone()).unwrap();
    assert!(text.starts_with("{\"engagementId\":\"eng:res-001:20261015-140000\",\"files\":[{\"digest\":"));
    let p = producer();
    let statement = p.produce(&request(), NOW).unwrap();
    let payload = verify_ed25519(&statement, &p.verifying_key()).unwrap();
    assert_eq!(payload.engagement_evidence_digest(), sha256_prefixed(&jcs));
    assert_eq!(payload.sealed_evidence_size_bytes(), jcs.len() as u64);
}

#[test]
fn deterministic_uuid_has_version_and_variant() {
    let id = deterministic_uuid_v4(b"eng:res-001:20261015-140000");
    assert_eq!(id.len(), 36);
    assert_eq!(id.as_bytes()[14], b'4');
    assert!(matches!(id.as_bytes()[19], b'8' | b'9' | b'a' | b'b'));
    assert_eq!(id, deterministic_uuid_v4(b"eng:res-001:20261015-140000"));
    assert_ne!(id, deterministic_uuid_v4(b"other"));
    let hex = sha256_prefixed(b"eng:res-001:20261015-140000");
    assert_eq!(&id[0..8], &hex[7..15]);
}
