use pask::attach::{attach_receipt, validate_receipt, AttachError};
use pask::chain::verify_chain;
use pask::digest::{lower_hex, sha256_prefixed, validate_sha256};
use pask::envelope::{produce_ed25519, verify_ed25519, CONTENT_TYPE};
use pask::error::Error;
use pask::json::canonicalize_json;
use pask::payload::{AckProvenance, IssuerAffiliation, Payload};
use pask::receipt::{attached_receipts, leaf_hash, verify_inclusion, AttachedReceipts, InclusionProof};
use pask::receipt_build::{build_receipt, TwoLeafTree};

const PAYLOAD: &str = r#"{
  "spec": "wilder.pser/0.4",
  "id": "uuid:00000000-0000-4000-8000-000000000001",
  "ts": "2026-10-15T14:00:00Z",
  "issuerAffiliation": "NOT_DISCLOSED",
  "site": {
    "id": "site:res-001",
    "class": "residential",
    "envelope": {
      "id": "env:res-001:2026-Q4",
      "digest": "sha256:0000000000000000000000000000000000000000000000000000000000000000",
      "geobounds": null,
      "temporal": { "starts": "2026-10-01T00:00:00Z", "ends": null }
    }
  },
  "actor": { "id": "actor:robot-alpha-01", "class": "AUTONOMOUS", "operator": "operator:wilder-robotics" },
  "engagement": {
    "id": "eng:res-001:20261015-140000",
    "window": { "start": "2026-10-15T13:30:00Z", "end": "2026-10-15T14:00:00Z" },
    "type": "patrol",
    "outcomeClass": "COMPLETED",
    "envelopeConformance": "WITHIN",
    "evidenceDigest": "sha256:1111111111111111111111111111111111111111111111111111111111111111"
  },
  "attestation": {
    "teeClass": "arm.cca",
    "measuredBoot": {
      "chain": "sha256:98a6efd412bb768ea7f090e8228401c11bc72a7caae44170395445c097d5ffa1",
      "components": [ { "name": "bl1", "digest": "sha256:2222222222222222222222222222222222222222222222222222222222222222" } ]
    },
    "platformEvidence": { "encoding": "opaque/1", "digest": "sha256:cccccccccccccccccccccccccccccccccccccccccccccccccccccccccccccccc" },
    "sealedEvidence": { "digest": "sha256:3333333333333333333333333333333333333333333333333333333333333333", "sizeBytes": 4096, "encoding": "opaque/1" },
    "witnessKey": "key:tee:res-001-witness-01",
    "validity": { "notBefore": "2026-10-15T13:00:00Z", "notAfter": "2026-10-15T15:00:00Z" }
  },
  "adapter": {
    "system": "example.ticketing",
    "endpoint": "endpoint:res-001",
    "postedAt": "2026-10-15T14:00:05Z",
    "ackDigest": "sha256:4444444444444444444444444444444444444444444444444444444444444444",
    "ackProvenance": "THIRD_PARTY",
    "mode": "WRITE_ONLY"
  },
  "chain": { "seq": 0, "prevHash": null, "hash": "sha256:5555555555555555555555555555555555555555555555555555555555555555" }
}"#;

const SECRET: [u8; 32] = [7u8; 32];
const TS_SECRET: [u8; 32] = [9u8; 32];

fn payload() -> Payload {
    Payload::from_json_for_production(PAYLOAD.as_bytes()).expect("production payload")
}

#[test]
fn sha256_prefixed_matches_known_digest() {
    assert_eq!(
        sha256_prefixed(b"abc"),
        "sha256:ba7816bf8f01cfea414140de5dae2223b00361a396177a9cb410ff61f20015ad"
    );
    assert_eq!(lower_hex(&[0x00, 0xab, 0xff]), "00abff");
}

#[test]
fn validate_sha256_reports_each_rule() {
    assert!(validate_sha256("sha256:ba7816bf8f01cfea414140de5dae2223b00361a396177a9cb410ff61f20015ad").is_ok());
    assert_eq!(validate_sha256("md5:00"), Err(Error::Validation("digest prefix must be sha256:")));
    assert_eq!(
        validate_sha256("sha256:xyz"),
        Err(Error::Validation("digest must contain 64 lowercase hexadecimal digits"))
    );
}

#[test]
fn jcs_rfc8785_vectors() {
    let numbers = r#"{"numbers":[333333333.33333329,1E30,4.50,2e-3,0.000000000000000000000000001]}"#;
    assert_eq!(
        canonicalize_json(numbers.as_bytes()).unwrap(),
        br#"{"numbers":[333333333.3333333,1e+30,4.5,0.002,1e-27]}"#.to_vec()
    );
    let literals = r#"{ "literals" : [ null, true, false ] }"#;
    assert_eq!(canonicalize_json(literals.as_bytes()).unwrap(), br#"{"literals":[null,true,false]}"#.to_vec());
    let order = "{\"\\u20ac\":\"Euro Sign\",\"\\r\":\"Carriage Return\",\"\\ufb33\":\"Hebrew Letter Dalet With Dagesh\",\"1\":\"One\",\"\\ud83d\\ude00\":\"Emoji: Grinning Face\",\"\\u0080\":\"Control\",\"\\u00f6\":\"Latin Small Letter O With Diaeresis\"}";
    let expected = "{\"\\r\":\"Carriage Return\",\"1\":\"One\",\"\u{0080}\":\"Control\",\"\u{00f6}\":\"Latin Small Letter O With Diaeresis\",\"\u{20ac}\":\"Euro Sign\",\"\u{1f600}\":\"Emoji: Grinning Face\",\"\u{fb33}\":\"Hebrew Letter Dalet With Dagesh\"}";
    assert_eq!(canonicalize_json(order.as_bytes()).unwrap(), expected.as_bytes().to_vec());
    assert!(matches!(canonicalize_json(b"{"), Err(Error::Json(_))));
}

#[test]
fn production_replaces_chain_hash_and_round_trips() {
    let p = payload();
    assert_ne!(p.chain_hash(), "sha256:5555555555555555555555555555555555555555555555555555555555555555");
    assert_eq!(p.chain_hash(), p.expected_chain_hash().unwrap());
    let jcs = p.to_jcs().unwrap();
    let again = Payload::from_json(&jcs).unwrap();
    assert_eq!(again.chain_hash(), p.chain_hash());
    assert_eq!(again.site_id(), "site:res-001");
    assert_eq!(again.engagement_type(), "patrol");
    assert_eq!(again.sealed_evidence_size_bytes(), 4096);
    assert!(again.adapter_is_write_only());
    assert!(again.issuer_affiliation().is_not_disclosed());
    assert_eq!(again.adapter_ack_provenance(), &AckProvenance::ThirdParty);
    assert_eq!(again.chain_prev_hash(), None);
    assert!(Payload::parse_canonical(&jcs).is_ok());
}

#[test]
fn supplied_chain_hash_is_checked_by_from_json() {
    assert_eq!(
        Payload::from_json(PAYLOAD.as_bytes()).err(),
        Some(Error::Validation("chain.hash does not match payload"))
    );
}

#[test]
fn other_revision_is_reported_before_member_shape() {
    let older = PAYLOAD.replace("wilder.pser/0.4", "wilder.pser/0.0").replace("\"issuerAffiliation\": \"NOT_DISCLOSED\",", "");
    assert_eq!(
        Payload::from_json(older.as_bytes()).err(),
        Some(Error::Validation("unsupported spec version"))
    );
}

#[test]
fn unknown_members_and_bad_enums_are_json_errors() {
    let extra = PAYLOAD.replace("\"teeClass\": \"arm.cca\",", "\"teeClass\": \"arm.cca\", \"bindingMode\": \"DIRECT_WITNESS\",");
    assert!(matches!(Payload::from_json_for_production(extra.as_bytes()), Err(Error::Json(_))));
    let robot = PAYLOAD.replace("AUTONOMOUS", "ROBOT");
    assert!(matches!(Payload::from_json_for_production(robot.as_bytes()), Err(Error::Json(_))));
    let mode = PAYLOAD.replace("WRITE_ONLY", "WRITE_READ");
    assert!(matches!(Payload::from_json_for_production(mode.as_bytes()), Err(Error::Json(_))));
}

#[test]
fn profile_rules_are_enforced() {
    let reversed = PAYLOAD.replace("\"end\": \"2026-10-15T14:00:00Z\"", "\"end\": \"2026-10-15T13:00:00Z\"");
    assert_eq!(
        Payload::from_json_for_production(reversed.as_bytes()).err(),
        Some(Error::Validation("engagement window end precedes its start"))
    );
    let bad_digest = PAYLOAD.replace("sha256:1111111111111111111111111111111111111111111111111111111111111111", "sha256:xyz");
    assert_eq!(
        Payload::from_json_for_production(bad_digest.as_bytes()).err(),
        Some(Error::Validation("digest must contain 64 lowercase hexadecimal digits"))
    );
    let local = PAYLOAD.replace("\"ts\": \"2026-10-15T14:00:00Z\"", "\"ts\": \"2026-10-15T14:00:00+01:00\"");
    assert_eq!(
        Payload::from_json_for_production(local.as_bytes()).err(),
        Some(Error::Validation("timestamp must use UTC Z notation"))
    );
    let instant = PAYLOAD.replace("\"notAfter\": \"2026-10-15T15:00:00Z\"", "\"notAfter\": \"2026-10-15T13:00:00Z\"");
    assert_eq!(
        Payload::from_json_for_production(instant.as_bytes()).err(),
        Some(Error::Validation("attestation validity notAfter must be strictly later than notBefore"))
    );
    let empty = PAYLOAD.replace("\"id\": \"site:res-001\"", "\"id\": \"\"");
    assert_eq!(
        Payload::from_json_for_production(empty.as_bytes()).err(),
        Some(Error::Validation("required string must not be empty"))
    );
    let seq0 = PAYLOAD.replace("\"prevHash\": null", "\"prevHash\": \"sha256:5555555555555555555555555555555555555555555555555555555555555555\"");
    assert_eq!(
        Payload::from_json_for_production(seq0.as_bytes()).err(),
        Some(Error::Validation("sequence zero must have null prevHash"))
    );
}

#[test]
fn unrecognized_wire_values_are_preserved() {
    let odd = PAYLOAD.replace("THIRD_PARTY", "SOMETHING_NEW").replace("NOT_DISCLOSED", "PARTLY");
    let p = Payload::from_json_for_production(odd.as_bytes()).unwrap();
    assert_eq!(p.adapter_ack_provenance(), &AckProvenance::Unrecognized("SOMETHING_NEW".to_owned()));
    assert!(p.adapter_ack_provenance().is_unrecognized());
    assert_eq!(p.adapter_ack_provenance().as_wire_str(), "SOMETHING_NEW");
    assert!(p.issuer_affiliation().is_unrecognized());
    assert!(!p.issuer_affiliation().is_not_disclosed());
    assert_eq!(IssuerAffiliation::from_wire("INDEPENDENT"), IssuerAffiliation::Independent);
    assert_eq!(AckProvenance::from_wire("NONE"), AckProvenance::NoAcknowledgement);
}

#[test]
fn statement_round_trips_through_verify() {
    let p = payload();
    let statement = produce_ed25519(&p, "did:wilder:example.test", &SECRET).unwrap();
    let public = ed25519_public_key(&SECRET);
    let verified = verify_ed25519(&statement, &public).unwrap();
    assert_eq!(verified.chain_hash(), p.chain_hash());
    let other = ed25519_public_key(&[8u8; 32]);
    assert_eq!(verify_ed25519(&statement, &other).err(), Some(Error::Signature));
    assert_eq!(produce_ed25519(&p, "", &SECRET).err(), Some(Error::Header("CWT iss must not be empty")));
    assert!(CONTENT_TYPE.ends_with("wilder.pser/0.5"));
}

#[test]
fn tampered_statement_is_rejected() {
    let p = payload();
    let mut statement = produce_ed25519(&p, "issuer", &SECRET).unwrap();
    let public = ed25519_public_key(&SECRET);
    let last = statement.len() - 1;
    statement[last] ^= 1;
    assert_eq!(verify_ed25519(&statement, &public).err(), Some(Error::Signature));
    let mut trailing = produce_ed25519(&p, "issuer", &SECRET).unwrap();
    trailing.push(0);
    assert_eq!(verify_ed25519(&trailing, &public).err(), Some(Error::Cose("trailing bytes after COSE_Sign1")));
    assert_eq!(verify_ed25519(b"", &public).err(), Some(Error::Cose("failed to parse COSE_Sign1 CBOR")));
}

#[test]
fn two_leaf_tree_proof_reconstructs_root() {
    let tree = TwoLeafTree::new(b"entry");
    let proof = InclusionProof { tree_size: 2, leaf_index: 0, inclusion_path: tree.inclusion_proof() };
    assert_eq!(proof.reconstruct_root(leaf_hash(b"entry")).unwrap(), tree.root());
    assert_ne!(proof.reconstruct_root(leaf_hash(b"other")).unwrap(), tree.root());
}

#[test]
fn built_receipt_verifies_inclusion_and_attaches() {
    let p = payload();
    let statement = produce_ed25519(&p, "issuer", &SECRET).unwrap();
    let entry = b"candidate-entry".to_vec();
    let tree = TwoLeafTree::new(&entry);
    let receipt = build_receipt(&tree, &TS_SECRET).unwrap();
    assert_eq!(validate_receipt(&receipt), Ok(()));
    let ts_public = ed25519_public_key(&TS_SECRET);
    let verified = verify_inclusion(&receipt, &entry, &ts_public).unwrap();
    assert_eq!(verified.root, tree.root());
    assert_eq!(verified.tree_size, 2);
    assert_eq!(verified.leaf_index, 0);
    assert!(verify_inclusion(&receipt, b"other entry", &ts_public).is_err());

    let attached = attach_receipt(&statement, &receipt).unwrap();
    assert_eq!(attached[0], 0xd2);
    match attached_receipts(&attached).unwrap() {
        AttachedReceipts::Present(list) => {
            assert_eq!(list.len(), 1);
            assert_eq!(list[0], receipt);
        }
        other => panic!("expected one attached receipt, got {other:?}"),
    }
    let twice = attach_receipt(&attached, &receipt).unwrap();
    match attached_receipts(&twice).unwrap() {
        AttachedReceipts::Present(list) => assert_eq!(list.len(), 2),
        other => panic!("expected two attached receipts, got {other:?}"),
    }
    let public = ed25519_public_key(&SECRET);
    let read = verify_ed25519(&twice, &public).unwrap();
    assert_eq!(read.to_jcs().unwrap(), p.to_jcs().unwrap());
}

#[test]
fn attach_rejects_malformed_inputs() {
    assert_eq!(attach_receipt(b"not cose", b"x"), Err(AttachError::NotCoseSign1));
    let p = payload();
    let statement = produce_ed25519(&p, "issuer", &SECRET).unwrap();
    assert_eq!(attach_receipt(&statement, b"not cbor"), Err(AttachError::ReceiptNotCbor));
    assert_eq!(attach_receipt(&statement, &[0x80, 0x00]), Err(AttachError::ReceiptTrailingBytes));
    assert_eq!(attach_receipt(&statement, &[0xff]), Err(AttachError::ReceiptNotCbor));
    assert_eq!(attach_receipt(&statement, &[0x80]), Err(AttachError::ReceiptNotTaggedSign1));
    let mut trailing = statement.clone();
    trailing.push(0);
    assert_eq!(attach_receipt(&trailing, &[0x80]), Err(AttachError::TrailingBytes));
    assert_eq!(attach_receipt(&[0x83, 0x01, 0x02, 0x03], &[0x80]), Err(AttachError::NotFourElements));
}

#[test]
fn chain_checks_head_and_links() {
    let p = payload();
    let report = verify_chain(std::slice::from_ref(&p)).unwrap();
    assert!(report.affiliation_is_uniform());
    assert!(report.affiliation_changes().is_empty());
    assert_eq!(verify_chain(&[]).err(), Some(Error::Validation("chain must carry at least one receipt")));
}

#[test]
fn chain_reports_affiliation_change_without_rejecting() {
    let head = payload();
    let next_text = PAYLOAD
        .replace("\"seq\": 0, \"prevHash\": null", &format!("\"seq\": 1, \"prevHash\": \"{}\"", head.chain_hash()))
        .replace("NOT_DISCLOSED", "AFFILIATED");
    let next = Payload::from_json_for_production(next_text.as_bytes()).unwrap();
    let report = verify_chain(&[head, next]).unwrap();
    assert!(!report.affiliation_is_uniform());
    let change = &report.affiliation_changes()[0];
    assert_eq!(change.at_seq, 1);
    assert_eq!(change.from, IssuerAffiliation::NotDisclosed);
    assert_eq!(change.to, IssuerAffiliation::Affiliated);
}

#[test]
fn chain_rejects_gap_and_broken_link() {
    let head = payload();
    let gap_text = PAYLOAD.replace("\"seq\": 0, \"prevHash\": null", &format!("\"seq\": 2, \"prevHash\": \"{}\"", head.chain_hash()));
    let gap = Payload::from_json_for_production(gap_text.as_bytes()).unwrap();
    let head2 = payload();
    assert_eq!(verify_chain(&[head2, gap]).err(), Some(Error::Validation("chain.seq is not contiguous")));
    let bad_text = PAYLOAD.replace(
        "\"seq\": 0, \"prevHash\": null",
        "\"seq\": 1, \"prevHash\": \"sha256:6666666666666666666666666666666666666666666666666666666666666666\"",
    );
    let bad = Payload::from_json_for_production(bad_text.as_bytes()).unwrap();
    assert_eq!(
        verify_chain(&[payload(), bad]).err(),
        Some(Error::Validation("chain.prevHash does not match the preceding receipt"))
    );
}

fn ed25519_public_key(secret: &[u8; 32]) -> [u8; 32] {
    ed25519_dalek::SigningKey::from_bytes(secret).verifying_key().to_bytes()
}

fn replace_once(bytes: &[u8], from: &[u8], to: &[u8]) -> Vec<u8> {
    let at = bytes.windows(from.len()).position(|w| w == from).expect("pattern present");
    let mut out = bytes.to_vec();
    out[at..at + from.len()].copy_from_slice(to);
    out
}

#[test]
fn profile_06_content_type_is_read_and_checked_against_the_payload() {
    let p = payload();
    let statement = produce_ed25519(&p, "issuer", &SECRET).unwrap();
    let public = ed25519_public_key(&SECRET);
    // The protected content type now names the 0.6 profile: the statement
    // parses, and the content type does not match the payload's profile.
    let changed = replace_once(&statement, b"application/pser+json; profile=wilder.pser/0.5",
        b"application/pser+json; profile=wilder.pser/0.6");
    assert_eq!(
        verify_ed25519(&changed, &public).err(),
        Some(Error::Header("protected content_type does not match payload spec version"))
    );
    // A content type with no `/` at all is no `type/subtype`, and the
    // structure is refused.
    for to in [&b"application-pser+json; profile=wilder.pser-0.6"[..], &b"application-pser+json; profile=wilder.pser-0.5"[..]] {
        let hyphenated = replace_once(&statement, b"application/pser+json; profile=wilder.pser/0.5", to);
        assert_eq!(verify_ed25519(&hyphenated, &public).err(), Some(Error::Cose("failed to parse COSE_Sign1 structure")));
    }
}

/// `MTH` of RFC 9162 over leaf hashes, written out for a test.
fn mth_of(leaves: &[[u8; 32]]) -> [u8; 32] {
    if leaves.len() == 1 {
        return leaves[0];
    }
    let mut k = 1;
    while k * 2 < leaves.len() {
        k *= 2;
    }
    pask::receipt::node_hash(&mth_of(&leaves[..k]), &mth_of(&leaves[k..]))
}

/// `PATH(m, D)` of RFC 9162 over leaf hashes, written out for a test.
fn path_of(m: usize, leaves: &[[u8; 32]]) -> Vec<[u8; 32]> {
    if leaves.len() <= 1 {
        return Vec::new();
    }
    let mut k = 1;
    while k * 2 < leaves.len() {
        k *= 2;
    }
    let mut path = if m < k { path_of(m, &leaves[..k]) } else { path_of(m - k, &leaves[k..]) };
    path.push(if m < k { mth_of(&leaves[k..]) } else { mth_of(&leaves[..k]) });
    path
}

#[test]
fn every_audit_path_of_a_five_entry_log_reconstructs_its_root() {
    let entries: Vec<Vec<u8>> = (0u8..5).map(|i| vec![i; 3]).collect();
    let leaves: Vec<[u8; 32]> = entries.iter().map(|e| leaf_hash(e)).collect();
    let root = mth_of(&leaves);
    for m in 0..5 {
        let path = path_of(m, &leaves);
        let proof = InclusionProof { tree_size: 5, leaf_index: m as u64, inclusion_path: path.clone() };
        assert_eq!(proof.reconstruct_root(leaves[m]).unwrap(), root);
        // One hash too few or too many is refused.
        let short = InclusionProof { tree_size: 5, leaf_index: m as u64, inclusion_path: path[..path.len() - 1].to_vec() };
        assert!(short.reconstruct_root(leaves[m]).is_err());
        let mut longer = path.clone();
        longer.push([0u8; 32]);
        let long = InclusionProof { tree_size: 5, leaf_index: m as u64, inclusion_path: longer };
        assert!(long.reconstruct_root(leaves[m]).is_err());
    }
}

#[test]
fn strings_are_written_with_the_json_escapes() {
    let input = "\"\\u0001\\\"\\\\\\t/\\u00e9\\u001f\\u007f\"";
    let expected = "\"\\u0001\\\"\\\\\\t/\u{e9}\\u001f\u{7f}\"";
    assert_eq!(canonicalize_json(input.as_bytes()).unwrap(), expected.as_bytes());
}
