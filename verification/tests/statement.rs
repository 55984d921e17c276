use pask::attach::attach_receipt;
use pask::entry::derive_candidate_entry;
use pask::envelope::produce_ed25519;
use pask::payload::Payload;
use pask::receipt_build::{build_receipt, TwoLeafTree};
use pask::receipt_inspection::{InspectionPolicy, InspectionStatus, inspect_scitt_receipt};
use pask::receipt_verification::{
    verify_scitt_receipt, BindingProvenance, ReceiptVerificationPolicy, RotationPolicy, TrustInputOrigin, TsKeyAssociation,
    TsPublicKey, TsTrustContext,
};
use pask::scrapi::{next_poll_action, normalize_base_url, txid_from_entry_path, PollAction};
use pask::transparent_statement::{
    inspect_transparent_statement, verify_transparent_statement, ReceiptContainerState, StatementApplicationPolicy,
    StatementVerificationInputs, SubjectPolicy, TransparentStatementPolicy,
};

const PAYLOAD: &str = r#"{"spec":"wilder.pser/0.4","id":"uuid:1","ts":"2026-10-15T14:00:00Z","issuerAffiliation":"INDEPENDENT","site":{"id":"site:res-001","class":"residential","envelope":{"id":"env:1","digest":"sha256:0000000000000000000000000000000000000000000000000000000000000000","geobounds":null,"temporal":{"starts":null,"ends":null}}},"actor":{"id":"actor:1","class":"HUMAN","operator":"op"},"engagement":{"id":"eng:1","window":{"start":"2026-10-15T13:30:00Z","end":"2026-10-15T14:00:00Z"},"type":"patrol","outcomeClass":"COMPLETED","envelopeConformance":"WITHIN","evidenceDigest":"sha256:1111111111111111111111111111111111111111111111111111111111111111"},"attestation":{"teeClass":"arm.cca","measuredBoot":{"chain":"sha256:2222222222222222222222222222222222222222222222222222222222222222","components":[]},"platformEvidence":{"encoding":"opaque/1","digest":"sha256:3333333333333333333333333333333333333333333333333333333333333333"},"sealedEvidence":{"digest":"sha256:4444444444444444444444444444444444444444444444444444444444444444","sizeBytes":1,"encoding":"opaque/1"},"witnessKey":"key:1","validity":{"notBefore":"2026-10-15T13:00:00Z","notAfter":"2026-10-15T15:00:00Z"}},"adapter":{"system":"sys","endpoint":"ep","postedAt":"2026-10-15T14:00:05Z","ackDigest":"sha256:5555555555555555555555555555555555555555555555555555555555555555","ackProvenance":"NONE","mode":"WRITE_ONLY"},"chain":{"seq":0,"prevHash":null,"hash":"sha256:0000000000000000000000000000000000000000000000000000000000000000"}}"#;

fn transparent_statement() -> (Vec<u8>, Vec<u8>) {
    let payload = Payload::from_json_for_production(PAYLOAD.as_bytes()).unwrap();
    let statement = produce_ed25519(&payload, "did:wilder:example.test", &[1u8; 32]).unwrap();
    let tree = TwoLeafTree::new(b"entry");
    let receipt = build_receipt(&tree, &[2u8; 32]).unwrap();
    (attach_receipt(&statement, &receipt).unwrap(), receipt)
}

#[test]
fn outer_statement_structure_and_container_are_read() {
    let (statement, _) = transparent_statement();
    let report = inspect_transparent_statement(&statement, &TransparentStatementPolicy::default());
    assert_eq!(report.structure.status, InspectionStatus::Passed);
    assert_eq!(report.container, ReceiptContainerState::Present);
    assert_eq!(report.receipts.len(), 1);
    assert_eq!(report.algorithm, Some(-8));
    assert_eq!(report.support.status, InspectionStatus::Passed);
    assert!(report.claims.is_none());
    let bad = TransparentStatementPolicy { max_receipts: 0, ..TransparentStatementPolicy::default() };
    let refused = inspect_transparent_statement(&statement, &bad);
    assert_eq!(refused.structure.code, "outer_policy_limit");
    assert_eq!(refused.selected_policy.code, "invalid_outer_limits");
}

#[test]
fn candidate_entry_is_derived_from_the_statement() {
    let (statement, _) = transparent_statement();
    let first = derive_candidate_entry(&statement).unwrap();
    let again = derive_candidate_entry(&statement).unwrap();
    assert_eq!(first, again);
    assert!(derive_candidate_entry(b"nope").is_err());
}

#[test]
fn mock_receipt_lacks_the_required_claims() {
    let (_, receipt) = transparent_statement();
    let report = inspect_scitt_receipt(&receipt, &InspectionPolicy::default());
    assert_ne!(report.required_claims.status, InspectionStatus::Passed);
}

#[test]
fn local_simulation_never_reaches_registration() {
    let (statement, receipt) = transparent_statement();
    let key = ed25519_public_key(&[2u8; 32]);
    let rows = [TsKeyAssociation {
        service_identity: "ts",
        public_key: TsPublicKey::Ed25519(key),
        algorithm: -8,
        provenance: BindingProvenance::CallerAuthenticated { authority: "a", evidence_ref: "e" },
        kid_hint: None,
        valid_from: Some(0),
        valid_until: Some(i64::MAX),
        explicitly_distrusted: false,
    }];
    let identities = ["ts"];
    let context = TsTrustContext {
        accepted_ts_identities: &identities,
        associations: &rows,
        evaluation_time: Some(1),
        rotation_policy: Some(RotationPolicy::ValidAtEvaluationTimeV1),
        provisioned_by: Some("harness"),
        origin: TrustInputOrigin::LocalSimulation,
    };
    let report = verify_scitt_receipt(&receipt, &statement, &context, &ReceiptVerificationPolicy::default());
    assert_ne!(report.acceptable_for_registration.status, InspectionStatus::Passed);
    let inputs = StatementVerificationInputs {
        issuer: None,
        services: &context,
        expected_digest: None,
        subject: SubjectPolicy::Unspecified,
        application: StatementApplicationPolicy::Unspecified,
    };
    let verified = verify_transparent_statement(&statement, &inputs, &TransparentStatementPolicy::default());
    assert_ne!(verified.registration_evidence.status, InspectionStatus::Passed);
    assert_eq!(verified.receipts.len(), 1);
    assert_eq!(verified.receipts[0].encoded_receipt, receipt);
    assert_eq!(verified.application_policy.code, "application_policy_absent");
    assert_eq!(verified.hardware_appraisal.code, "hardware_not_implemented");
    assert_eq!(verified.issuer_signature.code, "issuer_key_absent");
}

#[test]
fn scrapi_decisions() {
    assert_eq!(normalize_base_url("http://127.0.0.1:8000//"), "http://127.0.0.1:8000");
    assert_eq!(txid_from_entry_path("/entries", "/entries/2.3"), Some("2.3".to_owned()));
    assert_eq!(txid_from_entry_path("/entries", "/entries/2.3/statement"), None);
    assert_eq!(txid_from_entry_path("/entries", "/operations/2.3"), None);
    assert_eq!(txid_from_entry_path("/entries", "/entries/"), None);
    assert_eq!(next_poll_action(200, None, 30_000), PollAction::Receipt);
    assert_eq!(next_poll_action(302, None, 30_000), PollAction::Wait(1_000));
    assert_eq!(next_poll_action(302, Some(0), 30_000), PollAction::Wait(10));
    assert_eq!(next_poll_action(302, Some(3600), 30_000), PollAction::Timeout);
    assert_eq!(next_poll_action(302, Some(u64::MAX), u64::MAX), PollAction::Timeout);
    assert_eq!(next_poll_action(202, None, 30_000), PollAction::Unexpected);
}

fn ed25519_public_key(secret: &[u8; 32]) -> [u8; 32] {
    ed25519_dalek::SigningKey::from_bytes(secret).verifying_key().to_bytes()
}
