//! The RES-001 reference fixture: illustrative, deterministic values for a
//! site that exists and a witness device that does not. `arm.cca` is a
//! syntactically valid registry value, not a hardware disclosure.
use vstd::prelude::*;
use crate::site::{SiteConfig, EvidenceBundle, EvidenceFile, EngagementRequest, files_view, sorted_by_path};
use crate::payload::{IssuerAffiliation, AckProvenance};
use crate::digest::{sha256_prefixed, sha256_prefix, hex_text, sha256_spec};

verus! {

/// RES-001 site identifier.
pub const SITE_ID: &'static str = "site:res-001";
/// RES-001 engagement identifier.
pub const ENGAGEMENT_ID: &'static str = "eng:res-001:20261015-140000";
/// Path of the first observation file.
pub const OBSERVATION_01_PATH: &'static str = "files/observation-01.txt";
/// Path of the second observation file.
pub const OBSERVATION_02_PATH: &'static str = "files/observation-02.txt";

/// Returns the stable RES-001 site configuration.
pub fn site_config() -> (c: SiteConfig)
    ensures
        c.site_id@ == SITE_ID@,
        c.issuer_affiliation is NotDisclosed,
        c.attestation_measured_boot_components@.len() == 2,
        c.attestation_measured_boot_components@[0].0@ == "bootloader"@,
        c.attestation_measured_boot_components@[0].1@ == "sha256:1111111111111111111111111111111111111111111111111111111111111111"@,
        c.attestation_measured_boot_components@[1].0@ == "kernel"@,
        c.attestation_measured_boot_components@[1].1@ == "sha256:2222222222222222222222222222222222222222222222222222222222222222"@,
        c.site_class@ == "residential"@,
        c.envelope_id@ == "env:res-001:2026-Q4"@,
        c.envelope_digest@ == "sha256:0000000000000000000000000000000000000000000000000000000000000000"@,
        c.envelope_temporal_starts matches Some(t) && t@ == "2026-10-01T00:00:00Z"@,
        c.envelope_temporal_ends is None,
        c.envelope_geobounds is None,
        c.actor_id@ == "actor:robot-alpha-01"@,
        c.actor_class@ == "AUTONOMOUS"@,
        c.actor_operator@ == "operator:wilder-robotics"@,
        c.attestation_tee_class@ == "arm.cca"@,
        c.attestation_platform_evidence_encoding@ == "opaque/1"@,
        c.attestation_platform_evidence_digest@ == "sha256:3333333333333333333333333333333333333333333333333333333333333333"@,
        c.attestation_measured_boot_chain@ == "sha256:aa49a431481bba8610ab19c319ffe44a19412c5629cf0e2bedb5f9b40ba7c08e"@,
        c.attestation_witness_key@ == "key:tee:res-001-witness-01"@,
        c.attestation_validity_not_before@ == "2026-10-15T13:00:00Z"@,
        c.attestation_validity_not_after@ == "2026-10-15T15:00:00Z"@,
        c.adapter_system@ == "buildium"@,
        c.adapter_endpoint@ == "rental-42"@,
{
    let mut components: Vec<(String, String)> = Vec::new();
    components.push(("bootloader".to_owned(), "sha256:1111111111111111111111111111111111111111111111111111111111111111".to_owned()));
    components.push(("kernel".to_owned(), "sha256:2222222222222222222222222222222222222222222222222222222222222222".to_owned()));
    SiteConfig {
        site_id: SITE_ID.to_owned(),
        site_class: "residential".to_owned(),
        envelope_id: "env:res-001:2026-Q4".to_owned(),
        envelope_digest: "sha256:0000000000000000000000000000000000000000000000000000000000000000".to_owned(),
        envelope_temporal_starts: Some("2026-10-01T00:00:00Z".to_owned()),
        envelope_temporal_ends: None,
        envelope_geobounds: None,
        issuer_affiliation: IssuerAffiliation::NotDisclosed,
        actor_id: "actor:robot-alpha-01".to_owned(),
        actor_class: "AUTONOMOUS".to_owned(),
        actor_operator: "operator:wilder-robotics".to_owned(),
        attestation_tee_class: "arm.cca".to_owned(),
        attestation_platform_evidence_encoding: "opaque/1".to_owned(),
        attestation_platform_evidence_digest: "sha256:3333333333333333333333333333333333333333333333333333333333333333".to_owned(),
        attestation_measured_boot_chain: "sha256:aa49a431481bba8610ab19c319ffe44a19412c5629cf0e2bedb5f9b40ba7c08e".to_owned(),
        attestation_measured_boot_components: components,
        attestation_witness_key: "key:tee:res-001-witness-01".to_owned(),
        attestation_validity_not_before: "2026-10-15T13:00:00Z".to_owned(),
        attestation_validity_not_after: "2026-10-15T15:00:00Z".to_owned(),
        adapter_system: "buildium".to_owned(),
        adapter_endpoint: "rental-42".to_owned(),
    }
}

/// Returns the sorted two-file RES-001 evidence bundle over the contents of
/// the two observation files.
pub fn evidence_bundle(observation_01: &[u8], observation_02: &[u8]) -> (b: EvidenceBundle)
    ensures
        b.engagement_id@ == ENGAGEMENT_ID@,
        b.files@.len() == 2,
        sorted_by_path(files_view(b.files@)),
        files_view(b.files@).to_multiset() == seq![
            (OBSERVATION_02_PATH@, observation_02@.len() as u64, sha256_prefix() + hex_text(sha256_spec(observation_02@))),
            (OBSERVATION_01_PATH@, observation_01@.len() as u64, sha256_prefix() + hex_text(sha256_spec(observation_01@))),
        ].to_multiset(),
{
    let mut files: Vec<EvidenceFile> = Vec::new();
    files.push(EvidenceFile {
        path: OBSERVATION_02_PATH.to_owned(),
        size_bytes: observation_02.len() as u64,
        digest: sha256_prefixed(observation_02),
    });
    files.push(EvidenceFile {
        path: OBSERVATION_01_PATH.to_owned(),
        size_bytes: observation_01.len() as u64,
        digest: sha256_prefixed(observation_01),
    });
    proof {
        assert(files_view(files@) =~= seq![
            (OBSERVATION_02_PATH@, observation_02@.len() as u64, sha256_prefix() + hex_text(sha256_spec(observation_02@))),
            (OBSERVATION_01_PATH@, observation_01@.len() as u64, sha256_prefix() + hex_text(sha256_spec(observation_01@))),
        ]);
    }
    let ghost input = files@;
    let b = EvidenceBundle::new_sorted(ENGAGEMENT_ID, files);
    proof {
        vstd::seq_lib::to_multiset_len(files_view(b.files@));
        vstd::seq_lib::to_multiset_len(files_view(input));
        assert(files_view(b.files@).len() == 2);
    }
    b
}

/// Returns an RES-001 engagement request containing `evidence`.
pub fn engagement_request(evidence: EvidenceBundle) -> (r: EngagementRequest)
    ensures
        r.engagement_id@ == ENGAGEMENT_ID@,
        r.evidence == evidence,
        r.adapter_ack_provenance is ThirdParty,
        r.chain_seq == 0,
        r.chain_prev_hash is None,
        r.engagement_type@ == "patrol"@,
        r.window_start@ == "2026-10-15T13:30:00Z"@,
        r.window_end@ == "2026-10-15T14:00:00Z"@,
        r.outcome_class@ == "COMPLETED"@,
        r.envelope_conformance@ == "WITHIN"@,
        r.adapter_ack_digest@ == "sha256:4444444444444444444444444444444444444444444444444444444444444444"@,
        r.adapter_posted_at@ == "2026-10-15T14:00:05Z"@,
{
    EngagementRequest {
        engagement_id: ENGAGEMENT_ID.to_owned(),
        engagement_type: "patrol".to_owned(),
        window_start: "2026-10-15T13:30:00Z".to_owned(),
        window_end: "2026-10-15T14:00:00Z".to_owned(),
        outcome_class: "COMPLETED".to_owned(),
        envelope_conformance: "WITHIN".to_owned(),
        evidence,
        adapter_ack_digest: "sha256:4444444444444444444444444444444444444444444444444444444444444444".to_owned(),
        adapter_ack_provenance: AckProvenance::ThirdParty,
        adapter_posted_at: "2026-10-15T14:00:05Z".to_owned(),
        chain_seq: 0,
        chain_prev_hash: None,
    }
}

} // verus!
