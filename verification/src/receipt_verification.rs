//! Bounded offline coordination of one Receipt against a candidate entry
//! derived from exact statement bytes and caller-provisioned Transparency
//! Service keys. Only caller-supplied keys are tried; an issuer string or
//! kid match cannot introduce an authorized key.
use vstd::prelude::*;
use vstd::string::StringSliceAdditionalSpecFns;
use crate::cbor::{CborValue, CborV, cbor_write, cbor_written, view_items, view_entries, lemma_view_items, lemma_view_entries};
use crate::crypto::{ed25519_strictly_accepts, ed25519_verify_strict};
use crate::digest::{sha256, sha256_spec};
use crate::entry::{candidate_from_statement, derive_candidate_entry};
use crate::receipt::{InclusionProof, Receipt, ReceiptModel, ProofModel, receipt_from_bytes, reconstructed_root, leaf_hash, leaf_hash_spec, sig_structure, encode_sig_structure};
use crate::receipt_cbor::{Budget, Role, scan_accepts};
use crate::receipt_inspection::{EnvelopeReport, InspectionFinding, InspectionLimits, InspectionPolicy, InspectionStatus, inspect_scitt_receipt, finding_is, opt_bytes};
use crate::text::str_eq;

verus! {

/// The origin of a trust configuration: this API does not authenticate an
/// external configuration transport.
#[derive(Debug, Clone, Copy, PartialEq, Eq, Structural)]
pub enum TrustInputOrigin {
    /// A local test or harness simulates authenticated provisioning.
    LocalSimulation,
    /// The caller asserts its configuration came from an independently
    /// authenticated channel.
    CallerAuthenticatedExternal,
}

/// Caller assertions binding a row's service identity, algorithm and key.
#[derive(Debug, Clone, Copy, PartialEq, Eq)]
pub enum BindingProvenance<'a> {
    Missing,
    /// Discovery, including an issuer/key pair copied from a receipt.
    Unauthenticated { origin: &'a str },
    CallerAuthenticated { authority: &'a str, evidence_ref: &'a str },
}

/// A Transparency Service public key: Ed25519, or an unsupported type kept
/// as supplied.
#[derive(Debug, Clone, Copy, PartialEq, Eq)]
pub enum TsPublicKey<'a> {
    Ed25519([u8; 32]),
    Unsupported { key_type: &'a str, bytes: &'a [u8] },
}

/// An independently provisioned association, not an identity extracted
/// from a Receipt.
#[derive(Debug, Clone, Copy, PartialEq, Eq)]
pub struct TsKeyAssociation<'a> {
    pub service_identity: &'a str,
    pub public_key: TsPublicKey<'a>,
    pub algorithm: i64,
    pub provenance: BindingProvenance<'a>,
    /// Nonunique hint only.
    pub kid_hint: Option<&'a [u8]>,
    /// Unix seconds, inclusive start and exclusive end.
    pub valid_from: Option<i64>,
    pub valid_until: Option<i64>,
    /// Key-wide veto across every row for the same public key.
    pub explicitly_distrusted: bool,
}

/// The only implemented rotation convention.
#[derive(Debug, Clone, Copy, PartialEq, Eq, Structural)]
pub enum RotationPolicy {
    ValidAtEvaluationTimeV1,
}

/// Borrowed offline trust input: no network, live clock or hidden defaults.
#[derive(Debug)]
pub struct TsTrustContext<'a> {
    pub accepted_ts_identities: &'a [&'a str],
    pub associations: &'a [TsKeyAssociation<'a>],
    pub evaluation_time: Option<i64>,
    pub rotation_policy: Option<RotationPolicy>,
    pub provisioned_by: Option<&'a str>,
    pub origin: TrustInputOrigin,
}

/// Tightenable hard ceilings.
#[derive(Debug, Clone, Copy, PartialEq, Eq)]
pub struct VerificationLimits {
    pub max_statement_bytes: usize,
    pub max_statement_cbor_items: usize,
    pub max_statement_cbor_nesting: usize,
    pub max_statement_map_entries: usize,
    pub max_associations: usize,
    pub max_accepted_identities: usize,
    pub max_candidate_keys: usize,
    pub max_signature_attempts: usize,
    pub max_trust_field_bytes: usize,
}

impl VerificationLimits {
    /// The default hard ceilings.
    pub open spec fn defaults() -> VerificationLimits {
        VerificationLimits {
            max_statement_bytes: 1_048_576,
            max_statement_cbor_items: 4_096,
            max_statement_cbor_nesting: 16,
            max_statement_map_entries: 64,
            max_associations: 64,
            max_accepted_identities: 64,
            max_candidate_keys: 16,
            max_signature_attempts: 256,
            max_trust_field_bytes: 8_192,
        }
    }
}

impl Default for VerificationLimits {
    fn default() -> (r: Self)
        ensures
            r == VerificationLimits::defaults(),
    {
        VerificationLimits {
            max_statement_bytes: 1_048_576,
            max_statement_cbor_items: 4_096,
            max_statement_cbor_nesting: 16,
            max_statement_map_entries: 64,
            max_associations: 64,
            max_accepted_identities: 64,
            max_candidate_keys: 16,
            max_signature_attempts: 256,
            max_trust_field_bytes: 8_192,
        }
    }
}

/// Whether every limit is positive and within its default hard ceiling.
pub open spec fn verification_limits_valid(l: VerificationLimits) -> bool {
    let d = VerificationLimits::defaults();
    &&& 0 < l.max_statement_bytes <= d.max_statement_bytes
    &&& 0 < l.max_statement_cbor_items <= d.max_statement_cbor_items
    &&& 0 < l.max_statement_cbor_nesting <= d.max_statement_cbor_nesting
    &&& 0 < l.max_statement_map_entries <= d.max_statement_map_entries
    &&& 0 < l.max_associations <= d.max_associations
    &&& 0 < l.max_accepted_identities <= d.max_accepted_identities
    &&& 0 < l.max_candidate_keys <= d.max_candidate_keys
    &&& 0 < l.max_signature_attempts <= d.max_signature_attempts
    &&& 0 < l.max_trust_field_bytes <= d.max_trust_field_bytes
}

impl VerificationLimits {
    /// Whether the limits are usable.
    pub fn valid(&self) -> (r: bool)
        ensures
            r == verification_limits_valid(*self),
    {
        let d = VerificationLimits::default();
        self.max_statement_bytes > 0 && self.max_statement_bytes <= d.max_statement_bytes
            && self.max_statement_cbor_items > 0 && self.max_statement_cbor_items <= d.max_statement_cbor_items
            && self.max_statement_cbor_nesting > 0 && self.max_statement_cbor_nesting <= d.max_statement_cbor_nesting
            && self.max_statement_map_entries > 0 && self.max_statement_map_entries <= d.max_statement_map_entries
            && self.max_associations > 0 && self.max_associations <= d.max_associations
            && self.max_accepted_identities > 0 && self.max_accepted_identities <= d.max_accepted_identities
            && self.max_candidate_keys > 0 && self.max_candidate_keys <= d.max_candidate_keys
            && self.max_signature_attempts > 0 && self.max_signature_attempts <= d.max_signature_attempts
            && self.max_trust_field_bytes > 0 && self.max_trust_field_bytes <= d.max_trust_field_bytes
    }
}

/// Envelope inspection policy and receipt-verification limits.
#[derive(Debug, Clone, Copy, PartialEq, Eq)]
pub struct ReceiptVerificationPolicy {
    pub envelope: InspectionPolicy,
    pub limits: VerificationLimits,
}

impl Default for ReceiptVerificationPolicy {
    fn default() -> (r: Self)
        ensures
            r.envelope.strict_cross_map == false,
            r.envelope.limits == InspectionLimits::defaults(),
            r.limits == VerificationLimits::defaults(),
    {
        ReceiptVerificationPolicy { envelope: InspectionPolicy::default(), limits: VerificationLimits::default() }
    }
}

/// The identifier of the receipt-verification policy.
pub const RECEIPT_VERIFICATION_POLICY_ID: &'static str = "pask71-offline-service-association/1";

/// The actual verifying key, with the rows that name it.
#[derive(Debug, Clone)]
pub struct VerifyingKeyEvidence {
    pub public_key: [u8; 32],
    pub sha256: [u8; 32],
    pub association_indices: Vec<usize>,
    pub kid_hint_match_indices: Vec<usize>,
}

/// The findings for one inclusion proof. Root reconstruction alone is not
/// inclusion authentication.
#[derive(Debug, Clone)]
pub struct ProofVerification {
    pub proof_index: usize,
    pub reconstructed_root: Option<[u8; 32]>,
    pub root_reconstruction: InspectionFinding,
    pub attached_root_equality: InspectionFinding,
    pub ts_signature: InspectionFinding,
    pub inclusion: InspectionFinding,
    /// Indices into the report's candidate keys.
    pub verifying_key_indices: Vec<usize>,
}

fn finding(status: InspectionStatus, code: &'static str, detail: &'static str) -> (f: InspectionFinding)
    ensures
        f.status == status,
        f.code == code,
        f.detail == detail,
{
    InspectionFinding {
        status,
        code,
        detail,
        evidence_refs: vec!["encoded_receipt", "statement_bytes", "trust_context", "policy"],
    }
}

fn skipped() -> (f: InspectionFinding)
    ensures
        finding_is(f, InspectionStatus::NotEvaluated, "prerequisite_not_established"),
{
    finding(InspectionStatus::NotEvaluated, "prerequisite_not_established", "A dependent check was not run.")
}

fn unestablished(code: &'static str) -> (f: InspectionFinding)
    ensures
        finding_is(f, InspectionStatus::Unestablished, code),
{
    finding(InspectionStatus::Unestablished, code, "Required independent evidence is absent; not acceptance.")
}

fn failed(code: &'static str) -> (f: InspectionFinding)
    ensures
        finding_is(f, InspectionStatus::Failed, code),
{
    finding(InspectionStatus::Failed, code, "Failed only the named dimension.")
}

fn passed(code: &'static str) -> (f: InspectionFinding)
    ensures
        finding_is(f, InspectionStatus::Passed, code),
{
    finding(InspectionStatus::Passed, code, "Passed only the named dimension under the explicit supplied inputs.")
}

/// The combined status of per-proof findings: any failure fails; all
/// passed (and at least one) passes; all not evaluated is not evaluated;
/// anything else is unestablished.
pub open spec fn aggregate_status(statuses: Seq<InspectionStatus>) -> InspectionStatus {
    if statuses.contains(InspectionStatus::Failed) {
        InspectionStatus::Failed
    } else if statuses.len() > 0 && forall|i: int| 0 <= i < statuses.len() ==> statuses[i] == InspectionStatus::Passed {
        InspectionStatus::Passed
    } else if forall|i: int| 0 <= i < statuses.len() ==> statuses[i] == InspectionStatus::NotEvaluated {
        InspectionStatus::NotEvaluated
    } else {
        InspectionStatus::Unestablished
    }
}

/// The code of the combined finding.
pub open spec fn aggregate_code(statuses: Seq<InspectionStatus>, code: &'static str) -> &'static str {
    if aggregate_status(statuses) == InspectionStatus::NotEvaluated { "prerequisite_not_established" } else { code }
}

fn aggregate(statuses: &Vec<InspectionStatus>, code: &'static str) -> (f: InspectionFinding)
    ensures
        finding_is(f, aggregate_status(statuses@), aggregate_code(statuses@, code)),
{
    let mut any_failed = false;
    let mut all_passed = true;
    let mut all_skipped = true;
    let mut i: usize = 0;
    while i < statuses.len()
        invariant
            i <= statuses@.len(),
            any_failed == (exists|k: int| 0 <= k < i && statuses@[k] == InspectionStatus::Failed),
            all_passed == (forall|k: int| 0 <= k < i ==> statuses@[k] == InspectionStatus::Passed),
            all_skipped == (forall|k: int| 0 <= k < i ==> statuses@[k] == InspectionStatus::NotEvaluated),
        decreases statuses@.len() - i,
    {
        let st = statuses[i];
        if st == InspectionStatus::Failed {
            any_failed = true;
        }
        if st != InspectionStatus::Passed {
            all_passed = false;
        }
        if st != InspectionStatus::NotEvaluated {
            all_skipped = false;
        }
        i = i + 1;
    }
    proof {
        if any_failed {
            let k = choose|k: int| 0 <= k < statuses@.len() && statuses@[k] == InspectionStatus::Failed;
            assert(statuses@.contains(InspectionStatus::Failed));
        } else {
            assert(!statuses@.contains(InspectionStatus::Failed));
        }
    }
    if any_failed {
        return failed(code);
    }
    if all_passed && statuses.len() > 0 {
        return passed(code);
    }
    if all_skipped {
        return skipped();
    }
    unestablished(code)
}


/// Whether a caller-supplied text field is within the byte limit.
pub open spec fn field_bounded(s: &str, l: VerificationLimits) -> bool {
    s.len() <= l.max_trust_field_bytes
}

/// Whether a provenance's text fields are within the byte limit.
pub open spec fn provenance_bounded(p: BindingProvenance, l: VerificationLimits) -> bool {
    match p {
        BindingProvenance::Missing => true,
        BindingProvenance::Unauthenticated { origin } => field_bounded(origin, l),
        BindingProvenance::CallerAuthenticated { authority, evidence_ref } => field_bounded(authority, l) && field_bounded(evidence_ref, l),
    }
}

/// Whether an association's fields are within the byte limit.
pub open spec fn association_bounded(a: TsKeyAssociation, l: VerificationLimits) -> bool {
    &&& field_bounded(a.service_identity, l)
    &&& (a.kid_hint matches Some(b) ==> b@.len() <= l.max_trust_field_bytes)
    &&& match a.public_key {
        TsPublicKey::Ed25519(_) => true,
        TsPublicKey::Unsupported { key_type, bytes } => field_bounded(key_type, l) && bytes@.len() <= l.max_trust_field_bytes,
    }
    &&& provenance_bounded(a.provenance, l)
}

/// Whether a trust context is within the configured limits.
pub open spec fn context_bounded(c: TsTrustContext, l: VerificationLimits) -> bool {
    &&& c.associations@.len() <= l.max_associations
    &&& c.accepted_ts_identities@.len() <= l.max_accepted_identities
    &&& forall|i: int| 0 <= i < c.accepted_ts_identities@.len() ==> field_bounded(#[trigger] c.accepted_ts_identities@[i], l)
    &&& (c.provisioned_by matches Some(s) ==> field_bounded(s, l))
    &&& forall|i: int| 0 <= i < c.associations@.len() ==> association_bounded(#[trigger] c.associations@[i], l)
}

fn provenance_within(p: &BindingProvenance, l: &VerificationLimits) -> (r: bool)
    ensures
        r == provenance_bounded(*p, *l),
{
    match p {
        BindingProvenance::Missing => true,
        BindingProvenance::Unauthenticated { origin } => origin.len() <= l.max_trust_field_bytes,
        BindingProvenance::CallerAuthenticated { authority, evidence_ref } =>
            authority.len() <= l.max_trust_field_bytes && evidence_ref.len() <= l.max_trust_field_bytes,
    }
}

fn association_within(a: &TsKeyAssociation, l: &VerificationLimits) -> (r: bool)
    ensures
        r == association_bounded(*a, *l),
{
    let kid_ok = match a.kid_hint {
        Some(b) => b.len() <= l.max_trust_field_bytes,
        None => true,
    };
    let key_ok = match a.public_key {
        TsPublicKey::Ed25519(_) => true,
        TsPublicKey::Unsupported { key_type, bytes } =>
            key_type.len() <= l.max_trust_field_bytes && bytes.len() <= l.max_trust_field_bytes,
    };
    a.service_identity.len() <= l.max_trust_field_bytes && kid_ok && key_ok && provenance_within(&a.provenance, l)
}

fn bounded_context(c: &TsTrustContext, l: &VerificationLimits) -> (r: bool)
    ensures
        r == context_bounded(*c, *l),
{
    if c.associations.len() > l.max_associations || c.accepted_ts_identities.len() > l.max_accepted_identities {
        return false;
    }
    let mut i: usize = 0;
    while i < c.accepted_ts_identities.len()
        invariant
            i <= c.accepted_ts_identities@.len(),
            forall|k: int| 0 <= k < i ==> field_bounded(#[trigger] c.accepted_ts_identities@[k], *l),
        decreases c.accepted_ts_identities@.len() - i,
    {
        if c.accepted_ts_identities[i].len() > l.max_trust_field_bytes {
            return false;
        }
        i = i + 1;
    }
    match c.provisioned_by {
        Some(s) => {
            if s.len() > l.max_trust_field_bytes {
                return false;
            }
        }
        None => {}
    }
    let mut j: usize = 0;
    while j < c.associations.len()
        invariant
            j <= c.associations@.len(),
            forall|k: int| 0 <= k < j ==> association_bounded(#[trigger] c.associations@[k], *l),
        decreases c.associations@.len() - j,
    {
        if !association_within(&c.associations[j], l) {
            return false;
        }
        j = j + 1;
    }
    true
}


/// Independent findings over one Receipt, with the original inputs
/// borrowed and signed bytes preserved.
pub struct ReceiptVerificationReport<'a> {
    pub statement_bytes: &'a [u8],
    pub envelope: EnvelopeReport<'a>,
    pub trust_context: &'a TsTrustContext<'a>,
    pub policy: ReceiptVerificationPolicy,
    pub policy_id: &'static str,
    pub candidate_entry: Option<Vec<u8>>,
    pub candidate_derivation: InspectionFinding,
    pub selected_policy: InspectionFinding,
    pub candidate_keys: Vec<VerifyingKeyEvidence>,
    /// One finding per configured association, including skipped routes.
    pub key_configuration: Vec<InspectionFinding>,
    pub proofs: Vec<ProofVerification>,
    pub signature_attempts: usize,
    pub ts_signature: InspectionFinding,
    pub inclusion: InspectionFinding,
    pub ts_key_association: InspectionFinding,
    pub ts_identity_trust: InspectionFinding,
    pub subject_policy: InspectionFinding,
    pub issuer_signature: InspectionFinding,
    pub application_policy: InspectionFinding,
    pub hardware_appraisal: InspectionFinding,
    pub acceptable_for_registration: InspectionFinding,
}

/// Whether an association row carries the Ed25519 public key `key`.
pub open spec fn row_has_key(a: TsKeyAssociation, key: [u8; 32]) -> bool {
    a.public_key matches TsPublicKey::Ed25519(k) && k == key
}

/// Whether a row associates `key` with the claimed service identity under
/// EdDSA.
pub open spec fn row_matches(a: TsKeyAssociation, key: [u8; 32], issuer: Seq<char>) -> bool {
    row_has_key(a, key) && a.algorithm == -8 && a.service_identity@ == issuer
}

/// Whether a row carries a caller-authenticated binding with nonempty
/// authority and evidence reference.
pub open spec fn row_authenticated(a: TsKeyAssociation) -> bool {
    a.provenance matches BindingProvenance::CallerAuthenticated { authority, evidence_ref }
        && authority@.len() > 0 && evidence_ref@.len() > 0
}

/// Whether a row's validity window is present, nonempty and contains `now`.
pub open spec fn row_current(a: TsKeyAssociation, now: i64) -> bool {
    a.valid_from matches Some(from) && a.valid_until matches Some(until) && from < until && from <= now && now < until
}

/// The findings a verifying key earns against a trust context and the
/// claimed issuer: (key association, identity trust, registration), each
/// as (status, code).
pub open spec fn association_outcome(c: TsTrustContext, key: [u8; 32], issuer: Seq<char>) -> ((InspectionStatus, &'static str), (InspectionStatus, &'static str), (InspectionStatus, &'static str)) {
    let rows = c.associations@;
    let unset_reg = (InspectionStatus::Unestablished, "registration_prerequisites_not_established");
    let unset_trust = (InspectionStatus::Unestablished, "trust_not_established");
    let bound = (InspectionStatus::Passed, "actual_key_has_caller_authenticated_service_binding");
    if exists|i: int| 0 <= i < rows.len() && row_has_key(#[trigger] rows[i], key) && rows[i].explicitly_distrusted {
        ((InspectionStatus::Failed, "actual_key_explicitly_distrusted"), (InspectionStatus::Failed, "actual_key_explicitly_distrusted"), unset_reg)
    } else if !exists|i: int| 0 <= i < rows.len() && row_matches(#[trigger] rows[i], key, issuer) {
        ((InspectionStatus::Failed, "actual_key_not_associated_with_claimed_service"), (InspectionStatus::Failed, "unauthorized_verifying_key"), unset_reg)
    } else if !(exists|i: int| 0 <= i < rows.len() && row_matches(#[trigger] rows[i], key, issuer) && row_authenticated(rows[i]))
        || !(c.provisioned_by matches Some(p) && p@.len() > 0) {
        ((InspectionStatus::Unestablished, "authenticated_binding_evidence_missing"), unset_trust, unset_reg)
    } else if !exists|i: int| 0 <= i < c.accepted_ts_identities@.len() && (#[trigger] c.accepted_ts_identities@[i])@ == issuer {
        (bound, (InspectionStatus::Failed, "service_identity_not_accepted"), unset_reg)
    } else if c.evaluation_time is None || c.rotation_policy is None {
        (bound, (InspectionStatus::Unestablished, "evaluation_time_or_rotation_policy_missing"), unset_reg)
    } else if !exists|i: int| 0 <= i < rows.len() && row_matches(#[trigger] rows[i], key, issuer) && row_authenticated(rows[i])
        && row_current(rows[i], c.evaluation_time.unwrap()) {
        if exists|i: int| 0 <= i < rows.len() && row_matches(#[trigger] rows[i], key, issuer) && row_authenticated(rows[i])
            && (rows[i].valid_from is None || rows[i].valid_until is None) {
            (bound, (InspectionStatus::Unestablished, "key_validity_evidence_missing"), unset_reg)
        } else {
            (bound, (InspectionStatus::Failed, "no_current_authorized_key_window"), unset_reg)
        }
    } else if c.origin == TrustInputOrigin::LocalSimulation {
        (bound, (InspectionStatus::Passed, "local_simulation_conditional_trust_only"),
            (InspectionStatus::Unestablished, "simulation_is_not_real_registration_evidence"))
    } else {
        (bound, (InspectionStatus::Passed, "trusted_under_caller_authenticated_offline_configuration"),
            (InspectionStatus::Passed, "single_receipt_registration_evidence_only_not_application_acceptance"))
    }
}

/// The trust evidence a registration acceptance rests on: an externally
/// authenticated configuration, no distrust of the key, a matching
/// caller-authenticated binding current at the evaluation time, provisioning
/// recorded, and the claimed service identity accepted.
pub open spec fn registration_evidence(c: TsTrustContext, key: [u8; 32], issuer: Seq<char>) -> bool {
    let rows = c.associations@;
    &&& c.origin == TrustInputOrigin::CallerAuthenticatedExternal
    &&& !exists|i: int| 0 <= i < rows.len() && row_has_key(#[trigger] rows[i], key) && rows[i].explicitly_distrusted
    &&& c.evaluation_time is Some && c.rotation_policy is Some
    &&& exists|i: int| 0 <= i < rows.len() && row_matches(#[trigger] rows[i], key, issuer) && row_authenticated(rows[i])
        && row_current(rows[i], c.evaluation_time.unwrap())
    &&& c.provisioned_by matches Some(p) && p@.len() > 0
    &&& exists|i: int| 0 <= i < c.accepted_ts_identities@.len() && (#[trigger] c.accepted_ts_identities@[i])@ == issuer
}

/// A verifying key earns registration acceptance only with the full trust
/// evidence, and never under a locally simulated configuration.
pub proof fn lemma_registration_needs_evidence(c: TsTrustContext, key: [u8; 32], issuer: Seq<char>)
    ensures
        association_outcome(c, key, issuer).2.0 == InspectionStatus::Passed ==> registration_evidence(c, key, issuer),
        c.origin == TrustInputOrigin::LocalSimulation ==> association_outcome(c, key, issuer).2.0 != InspectionStatus::Passed,
{
}

/// Whether a finding has the status and code of a pair.
pub open spec fn finding_pair(f: InspectionFinding, p: (InspectionStatus, &'static str)) -> bool {
    f.status == p.0 && f.code == p.1
}

fn row_has_key_exec(a: &TsKeyAssociation, key: &[u8; 32]) -> (r: bool)
    ensures
        r == row_has_key(*a, *key),
{
    match a.public_key {
        TsPublicKey::Ed25519(k) => {
            let e = crate::cbor::bytes_eq(&k, key);
            proof {
                if e {
                    assert(k =~= *key);
                }
            }
            e
        }
        _ => false,
    }
}

fn row_authenticated_exec(a: &TsKeyAssociation) -> (r: bool)
    ensures
        r == row_authenticated(*a),
{
    match a.provenance {
        BindingProvenance::CallerAuthenticated { authority, evidence_ref } => !authority.is_empty() && !evidence_ref.is_empty(),
        _ => false,
    }
}

/// The findings for the single actual verifying key `key`, checked against
/// the caller's trust context and the Receipt's claimed issuer.
fn associate(c: &TsTrustContext, key: &[u8; 32], issuer: &str) -> (r: (InspectionFinding, InspectionFinding, InspectionFinding))
    ensures
        finding_pair(r.0, association_outcome(*c, *key, issuer@).0),
        finding_pair(r.1, association_outcome(*c, *key, issuer@).1),
        finding_pair(r.2, association_outcome(*c, *key, issuer@).2),
{
    let rows = c.associations;
    let ghost rv = rows@;
    let ghost iss = issuer@;
    // Key-wide distrust wins, whatever the row's issuer, kid, algorithm or window.
    let mut i: usize = 0;
    while i < rows.len()
        invariant
            i <= rv.len(),
            rv == rows@,
            rv == c.associations@,
            iss == issuer@,
            forall|k: int| 0 <= k < i ==> !(row_has_key(#[trigger] rv[k], *key) && rv[k].explicitly_distrusted),
        decreases rv.len() - i,
    {
        if row_has_key_exec(&rows[i], key) && rows[i].explicitly_distrusted {
            assert(row_has_key(rv[i as int], *key) && rv[i as int].explicitly_distrusted);
            return (failed("actual_key_explicitly_distrusted"), failed("actual_key_explicitly_distrusted"),
                unestablished("registration_prerequisites_not_established"));
        }
        i = i + 1;
    }
    let mut any_match = false;
    let mut any_authenticated = false;
    let mut missing_window = false;
    let mut any_current = false;
    let now: Option<i64> = c.evaluation_time;
    let mut j: usize = 0;
    while j < rows.len()
        invariant
            j <= rv.len(),
            rv == rows@,
            iss == issuer@,
            now == c.evaluation_time,
            any_match == exists|k: int| 0 <= k < j && row_matches(#[trigger] rv[k], *key, iss),
            any_authenticated == exists|k: int| 0 <= k < j && row_matches(#[trigger] rv[k], *key, iss) && row_authenticated(rv[k]),
            missing_window == exists|k: int| 0 <= k < j && row_matches(#[trigger] rv[k], *key, iss) && row_authenticated(rv[k])
                && (rv[k].valid_from is None || rv[k].valid_until is None),
            now matches Some(t) ==> any_current == exists|k: int| 0 <= k < j && row_matches(#[trigger] rv[k], *key, iss)
                && row_authenticated(rv[k]) && row_current(rv[k], t),
        decreases rv.len() - j,
    {
        let a = &rows[j];
        let m = row_has_key_exec(a, key) && a.algorithm == -8 && str_eq(a.service_identity, issuer);
        assert(m == row_matches(rv[j as int], *key, iss));
        if m {
            any_match = true;
            if row_authenticated_exec(a) {
                any_authenticated = true;
                match (a.valid_from, a.valid_until) {
                    (Some(from), Some(until)) => {
                        match now {
                            Some(t) => {
                                if from < until && from <= t && t < until {
                                    any_current = true;
                                }
                            }
                            None => {}
                        }
                    }
                    _ => {
                        missing_window = true;
                    }
                }
            }
        }
        j = j + 1;
    }
    if !any_match {
        return (failed("actual_key_not_associated_with_claimed_service"), failed("unauthorized_verifying_key"),
            unestablished("registration_prerequisites_not_established"));
    }
    let provisioned = match c.provisioned_by {
        Some(p) => !p.is_empty(),
        None => false,
    };
    if !any_authenticated || !provisioned {
        return (unestablished("authenticated_binding_evidence_missing"), unestablished("trust_not_established"),
            unestablished("registration_prerequisites_not_established"));
    }
    let bound = passed("actual_key_has_caller_authenticated_service_binding");
    let mut accepted = false;
    let mut k: usize = 0;
    while k < c.accepted_ts_identities.len()
        invariant
            k <= c.accepted_ts_identities@.len(),
            iss == issuer@,
            accepted == exists|m: int| 0 <= m < k && (#[trigger] c.accepted_ts_identities@[m])@ == iss,
        decreases c.accepted_ts_identities@.len() - k,
    {
        if str_eq(c.accepted_ts_identities[k], issuer) {
            accepted = true;
        }
        k = k + 1;
    }
    if !accepted {
        return (bound, failed("service_identity_not_accepted"), unestablished("registration_prerequisites_not_established"));
    }
    if c.evaluation_time.is_none() || c.rotation_policy.is_none() {
        return (bound, unestablished("evaluation_time_or_rotation_policy_missing"),
            unestablished("registration_prerequisites_not_established"));
    }
    if !any_current {
        if missing_window {
            return (bound, unestablished("key_validity_evidence_missing"), unestablished("registration_prerequisites_not_established"));
        }
        return (bound, failed("no_current_authorized_key_window"), unestablished("registration_prerequisites_not_established"));
    }
    match c.origin {
        TrustInputOrigin::LocalSimulation => (bound, passed("local_simulation_conditional_trust_only"),
            unestablished("simulation_is_not_real_registration_evidence")),
        TrustInputOrigin::CallerAuthenticatedExternal => (bound,
            passed("trusted_under_caller_authenticated_offline_configuration"),
            passed("single_receipt_registration_evidence_only_not_application_acceptance")),
    }
}


/// The Ed25519 key a row offers for signature attempts: an Ed25519 key
/// configured for EdDSA.
pub open spec fn usable_key(a: TsKeyAssociation) -> Option<[u8; 32]> {
    match a.public_key {
        TsPublicKey::Ed25519(k) => if a.algorithm == -8 { Some(k) } else { None },
        _ => None,
    }
}

/// The distinct usable keys of `rows`, in order of first appearance.
pub open spec fn key_list(rows: Seq<TsKeyAssociation>) -> Seq<[u8; 32]>
    decreases rows.len(),
{
    if rows.len() == 0 {
        Seq::empty()
    } else {
        let prev = key_list(rows.drop_last());
        match usable_key(rows.last()) {
            Some(k) => if prev.contains(k) { prev } else { prev.push(k) },
            None => prev,
        }
    }
}

/// The index of the first row whose key would exceed `max` distinct keys.
pub open spec fn key_limit_row(rows: Seq<TsKeyAssociation>, max: int) -> Option<int>
    decreases rows.len(),
{
    if rows.len() == 0 {
        None
    } else {
        match key_limit_row(rows.drop_last(), max) {
            Some(i) => Some(i),
            None => {
                let prev = key_list(rows.drop_last());
                if usable_key(rows.last()) matches Some(k) && !prev.contains(k) && prev.len() == max {
                    Some(rows.len() - 1)
                } else {
                    None
                }
            },
        }
    }
}

/// The finding a configured row earns for its key type and algorithm.
pub open spec fn config_finding(a: TsKeyAssociation) -> (InspectionStatus, &'static str) {
    match a.public_key {
        TsPublicKey::Unsupported { .. } => (InspectionStatus::Unsupported, "key_type_not_supported"),
        TsPublicKey::Ed25519(_) => if a.algorithm != -8 {
            (InspectionStatus::Failed, "configured_algorithm_key_mismatch")
        } else {
            (InspectionStatus::Passed, "configured_ed25519_algorithm_key_agreement")
        },
    }
}

/// The bytes of an optional kid hint.
pub open spec fn kid_view(k: Option<&[u8]>) -> Option<Seq<u8>> {
    match k {
        Some(b) => Some(b@),
        None => None,
    }
}

/// The indices of the rows of `rows` that offer `key`, in order; with
/// `kid` present, only those whose kid hint equals it.
pub open spec fn key_rows(rows: Seq<TsKeyAssociation>, key: [u8; 32], kid: Option<Option<Seq<u8>>>) -> Seq<int>
    decreases rows.len(),
{
    if rows.len() == 0 {
        Seq::empty()
    } else {
        let prev = key_rows(rows.drop_last(), key, kid);
        let hit = usable_key(rows.last()) == Some(key) && match kid {
            None => true,
            Some(k) => k is Some && k == kid_view(rows.last().kid_hint),
        };
        if hit { prev.push(rows.len() - 1) } else { prev }
    }
}

/// The indices (into `keys`) of the keys under which `signature` over
/// `message` verifies strictly, in order.
pub open spec fn accepting_keys(keys: Seq<[u8; 32]>, message: Seq<u8>, signature: Seq<u8>) -> Seq<int>
    decreases keys.len(),
{
    if keys.len() == 0 {
        Seq::empty()
    } else {
        let prev = accepting_keys(keys.drop_last(), message, signature);
        if ed25519_strictly_accepts(keys.last()@, message, signature) { prev.push(keys.len() - 1) } else { prev }
    }
}

/// The findings for one inclusion proof.
pub struct ProofOutcome {
    pub root: Option<Seq<u8>>,
    pub root_reconstruction: (InspectionStatus, &'static str),
    pub attached_root_equality: (InspectionStatus, &'static str),
    pub ts_signature: (InspectionStatus, &'static str),
    pub inclusion: (InspectionStatus, &'static str),
    pub verifying: Seq<int>,
    /// Signature attempts made for this proof.
    pub attempts: int,
    /// The `Sig_structure` could not be encoded.
    pub encoding_failed: bool,
}

/// The findings RFC 9942 verification gives one proof of a Receipt, for the
/// candidate leaf, the Receipt's payload, the exact protected bytes and
/// signature of the inspected envelope, and the candidate keys.
pub open spec fn proof_outcome(p: ProofModel, leaf: Seq<u8>, payload: Option<Seq<u8>>, protected: Seq<u8>, signature: Seq<u8>, keys: Seq<[u8; 32]>) -> ProofOutcome {
    let skip = (InspectionStatus::NotEvaluated, "prerequisite_not_established");
    let unauth = (InspectionStatus::Unestablished, "root_not_authenticated");
    match reconstructed_root(p.leaf_index, p.tree_size, leaf, p.path) {
        Err(_) => ProofOutcome {
            root: None,
            root_reconstruction: (InspectionStatus::Failed, "invalid_merkle_path"),
            attached_root_equality: skip,
            ts_signature: skip,
            inclusion: (InspectionStatus::Failed, "invalid_merkle_path"),
            verifying: Seq::empty(),
            attempts: 0,
            encoding_failed: false,
        },
        Ok(root) => {
            let rr = (InspectionStatus::Passed, "root_reconstructed_not_authenticated");
            if payload matches Some(b) && b != root {
                ProofOutcome {
                    root: Some(root),
                    root_reconstruction: rr,
                    attached_root_equality: (InspectionStatus::Failed, "attached_root_mismatch"),
                    ts_signature: skip,
                    inclusion: (InspectionStatus::Failed, "attached_root_mismatch"),
                    verifying: Seq::empty(),
                    attempts: 0,
                    encoding_failed: false,
                }
            } else {
                let attached = if payload is Some {
                    (InspectionStatus::Passed, "attached_root_equal_not_authenticated")
                } else {
                    (InspectionStatus::NotEvaluated, "detached_payload")
                };
                if signature.len() != 64 {
                    ProofOutcome {
                        root: Some(root),
                        root_reconstruction: rr,
                        attached_root_equality: attached,
                        ts_signature: (InspectionStatus::Failed, "invalid_ed25519_signature_length"),
                        inclusion: unauth,
                        verifying: Seq::empty(),
                        attempts: 0,
                        encoding_failed: false,
                    }
                } else {
                    match cbor_written(sig_structure(protected, root)) {
                        None => ProofOutcome {
                            root: Some(root),
                            root_reconstruction: rr,
                            attached_root_equality: attached,
                            ts_signature: skip,
                            inclusion: unauth,
                            verifying: Seq::empty(),
                            attempts: 0,
                            encoding_failed: true,
                        },
                        Some(message) => {
                            let v = accepting_keys(keys, message, signature);
                            ProofOutcome {
                                root: Some(root),
                                root_reconstruction: rr,
                                attached_root_equality: attached,
                                ts_signature: if v.len() > 0 {
                                    (InspectionStatus::Passed, "signature_under_actual_supplied_key")
                                } else if keys.len() == 0 {
                                    (InspectionStatus::Unestablished, "no_algorithm_compatible_candidate_key")
                                } else {
                                    (InspectionStatus::Failed, "signature_did_not_verify")
                                },
                                inclusion: if v.len() > 0 {
                                    (InspectionStatus::Passed, "candidate_included_in_signature_authenticated_root")
                                } else {
                                    unauth
                                },
                                verifying: v,
                                attempts: keys.len() as int,
                                encoding_failed: false,
                            }
                        },
                    }
                }
            }
        },
    }
}

/// Whether a proof's findings are those of an outcome.
pub open spec fn proof_matches(p: ProofVerification, index: int, o: ProofOutcome) -> bool {
    &&& p.proof_index == index
    &&& (match p.reconstructed_root { Some(r) => Some(r@), None => None::<Seq<u8>> }) == o.root
    &&& finding_pair(p.root_reconstruction, o.root_reconstruction)
    &&& finding_pair(p.attached_root_equality, o.attached_root_equality)
    &&& finding_pair(p.ts_signature, o.ts_signature)
    &&& finding_pair(p.inclusion, o.inclusion)
    &&& Seq::new(p.verifying_key_indices@.len(), |i: int| p.verifying_key_indices@[i] as int) == o.verifying
}

/// The first `kid` (4) header whose value is a byte string, among the
/// effective headers.
pub open spec fn kid_of(headers: Seq<(CborV, CborV)>) -> Option<Seq<u8>>
    decreases headers.len(),
{
    if headers.len() == 0 {
        None
    } else if headers[0].0 == CborV::Integer(4) && headers[0].1 is Bytes {
        Some(crate::receipt::bytes_of(headers[0].1))
    } else {
        kid_of(headers.drop_first())
    }
}


fn kid_exec(headers: &[(CborValue, CborValue)]) -> (r: Option<&[u8]>)
    ensures
        kid_view(r) == kid_of(view_entries(headers@)),
{
    let ghost hv = view_entries(headers@);
    proof { lemma_view_entries(headers@); }
    assert(hv.subrange(0, hv.len() as int) =~= hv);
    let mut i: usize = 0;
    while i < headers.len()
        invariant
            i <= headers@.len(),
            hv == view_entries(headers@),
            hv.len() == headers@.len(),
            forall|k: int| 0 <= k < headers@.len() ==> #[trigger] hv[k] == (headers@[k].0@, headers@[k].1@),
            kid_of(hv) == kid_of(hv.subrange(i as int, hv.len() as int)),
        decreases headers@.len() - i,
    {
        let ghost rest = hv.subrange(i as int, hv.len() as int);
        proof {
            assert(rest[0] == hv[i as int]);
            assert(rest.drop_first() =~= hv.subrange(i + 1, hv.len() as int));
        }
        assert(hv[i as int] == (headers@[i as int].0@, headers@[i as int].1@));
        let is_four = match &headers[i].0 {
            CborValue::Integer(n) => *n == 4,
            _ => false,
        };
        if is_four {
            match &headers[i].1 {
                CborValue::Bytes(b) => return Some(b.as_slice()),
                _ => {}
            }
        }
        i = i + 1;
    }
    assert(hv.subrange(i as int, hv.len() as int) =~= Seq::<(CborV, CborV)>::empty());
    None
}

proof fn lemma_limit_prefix(rows: Seq<TsKeyAssociation>, k: int, max: int)
    requires
        0 <= k <= rows.len(),
        key_limit_row(rows.take(k), max) is Some,
    ensures
        key_limit_row(rows, max) == key_limit_row(rows.take(k), max),
    decreases rows.len(),
{
    if k == rows.len() {
        assert(rows.take(k) =~= rows);
    } else {
        assert(rows.drop_last().take(k) =~= rows.take(k));
        lemma_limit_prefix(rows.drop_last(), k, max);
    }
}

fn usable_key_exec(a: &TsKeyAssociation) -> (r: Option<[u8; 32]>)
    ensures
        r == usable_key(*a),
{
    match a.public_key {
        TsPublicKey::Ed25519(k) => if a.algorithm == -8 { Some(k) } else { None },
        _ => None,
    }
}

fn contains_key(keys: &Vec<[u8; 32]>, key: &[u8; 32]) -> (r: bool)
    ensures
        r == keys@.contains(*key),
{
    let mut i: usize = 0;
    while i < keys.len()
        invariant
            i <= keys@.len(),
            forall|k: int| 0 <= k < i ==> keys@[k] != *key,
        decreases keys@.len() - i,
    {
        if crate::cbor::bytes_eq(&keys[i], key) {
            assert(keys@[i as int] =~= *key);
            return true;
        }
        assert(keys@[i as int]@ != key@);
        i = i + 1;
    }
    false
}

/// The distinct candidate keys, the per-row configuration findings, and
/// the row at which the candidate-key limit stopped the scan.
fn collect_keys(rows: &[TsKeyAssociation], max: usize) -> (r: (Vec<[u8; 32]>, Vec<InspectionFinding>, Option<usize>))
    ensures
        ({
            let (keys, config, stop) = r;
            let n = match stop { Some(i) => i as int, None => rows@.len() as int };
            &&& (match stop { Some(i) => Some(i as int), None => None::<int> }) == key_limit_row(rows@, max as int)
            &&& 0 <= n <= rows@.len()
            &&& keys@ == key_list(rows@.take(n))
            &&& keys@.len() <= max
            &&& config@.len() == (if stop is Some { n + 1 } else { n })
            &&& forall|i: int| 0 <= i < config@.len() ==> finding_pair(#[trigger] config@[i], config_finding(rows@[i]))
        }),
{
    let ghost rv = rows@;
    let mut keys: Vec<[u8; 32]> = Vec::new();
    let mut config: Vec<InspectionFinding> = Vec::new();
    assert(rv.take(0) =~= Seq::<TsKeyAssociation>::empty());
    let mut i: usize = 0;
    while i < rows.len()
        invariant
            i <= rv.len(),
            rv == rows@,
            keys@ == key_list(rv.take(i as int)),
            keys@.len() <= max,
            key_limit_row(rv.take(i as int), max as int) is None,
            config@.len() == i,
            forall|k: int| 0 <= k < i ==> finding_pair(#[trigger] config@[k], config_finding(rv[k])),
        decreases rv.len() - i,
    {
        let a = &rows[i];
        let ghost next = rv.take(i + 1);
        assert(next.drop_last() =~= rv.take(i as int));
        assert(next.last() == rv[i as int]);
        match a.public_key {
            TsPublicKey::Unsupported { .. } => {
                config.push(finding(InspectionStatus::Unsupported, "key_type_not_supported",
                    "This row is not used for signature attempts; no key-type coercion."));
            }
            TsPublicKey::Ed25519(_) => {
                if a.algorithm != -8 {
                    config.push(failed("configured_algorithm_key_mismatch"));
                } else {
                    config.push(passed("configured_ed25519_algorithm_key_agreement"));
                }
            }
        }
        match usable_key_exec(a) {
            Some(k) => {
                if !contains_key(&keys, &k) {
                    if keys.len() == max {
                        proof {
                            assert(key_limit_row(next, max as int) == Some(i as int));
                            lemma_limit_prefix(rv, i + 1, max as int);
                        }
                        return (keys, config, Some(i));
                    }
                    keys.push(k);
                }
            }
            None => {}
        }
        i = i + 1;
    }
    assert(rv.take(i as int) =~= rv);
    (keys, config, None)
}


fn kid_equal(a: Option<&[u8]>, b: Option<&[u8]>) -> (r: bool)
    ensures
        r == (kid_view(a) == kid_view(b)),
{
    match (a, b) {
        (Some(x), Some(y)) => crate::cbor::bytes_eq(x, y),
        (None, None) => true,
        _ => false,
    }
}

/// The rows among the first `n` that offer `key`, and those among them
/// whose kid hint equals the envelope's kid.
fn rows_for_key(rows: &[TsKeyAssociation], n: usize, key: &[u8; 32], kid: Option<&[u8]>) -> (r: (Vec<usize>, Vec<usize>))
    requires
        n <= rows@.len(),
    ensures
        Seq::new(r.0@.len(), |i: int| r.0@[i] as int) == key_rows(rows@.take(n as int), *key, None),
        Seq::new(r.1@.len(), |i: int| r.1@[i] as int) == key_rows(rows@.take(n as int), *key, Some(kid_view(kid))),
{
    let ghost rv = rows@;
    let mut all: Vec<usize> = Vec::new();
    let mut kids: Vec<usize> = Vec::new();
    assert(rv.take(0) =~= Seq::<TsKeyAssociation>::empty());
    let mut i: usize = 0;
    while i < n
        invariant
            i <= n <= rv.len(),
            rv == rows@,
            Seq::new(all@.len(), |k: int| all@[k] as int) == key_rows(rv.take(i as int), *key, None),
            Seq::new(kids@.len(), |k: int| kids@[k] as int) == key_rows(rv.take(i as int), *key, Some(kid_view(kid))),
        decreases n - i,
    {
        let ghost next = rv.take(i + 1);
        assert(next.drop_last() =~= rv.take(i as int));
        assert(next.last() == rv[i as int]);
        let hit = match usable_key_exec(&rows[i]) {
            Some(k) => crate::cbor::bytes_eq(&k, key),
            None => false,
        };
        proof {
            if hit {
                assert(usable_key(rv[i as int]).unwrap() =~= *key);
            }
        }
        assert(hit == (usable_key(rv[i as int]) == Some(*key)));
        if hit {
            let ghost before = all@;
            all.push(i);
            assert(Seq::new(all@.len(), |k: int| all@[k] as int) =~= Seq::new(before.len(), |k: int| before[k] as int).push(i as int));
            if kid.is_some() && kid_equal(kid, rows[i].kid_hint) {
                let ghost kb = kids@;
                kids.push(i);
                assert(Seq::new(kids@.len(), |k: int| kids@[k] as int) =~= Seq::new(kb.len(), |k: int| kb[k] as int).push(i as int));
            }
        }
        i = i + 1;
    }
    (all, kids)
}

/// The evidence for each candidate key over the first `n` rows.
fn build_evidence(rows: &[TsKeyAssociation], n: usize, keys: &Vec<[u8; 32]>, kid: Option<&[u8]>) -> (r: Vec<VerifyingKeyEvidence>)
    requires
        n <= rows@.len(),
    ensures
        r@.len() == keys@.len(),
        forall|m: int| 0 <= m < keys@.len() ==> {
            let e = #[trigger] r@[m];
            &&& e.public_key == keys@[m]
            &&& e.sha256@ == sha256_spec(keys@[m]@)
            &&& Seq::new(e.association_indices@.len(), |i: int| e.association_indices@[i] as int) == key_rows(rows@.take(n as int), keys@[m], None)
            &&& Seq::new(e.kid_hint_match_indices@.len(), |i: int| e.kid_hint_match_indices@[i] as int) == key_rows(rows@.take(n as int), keys@[m], Some(kid_view(kid)))
        },
{
    let mut out: Vec<VerifyingKeyEvidence> = Vec::new();
    let mut m: usize = 0;
    while m < keys.len()
        invariant
            m <= keys@.len(),
            n <= rows@.len(),
            out@.len() == m,
            forall|j: int| 0 <= j < m ==> {
                let e = #[trigger] out@[j];
                &&& e.public_key == keys@[j]
                &&& e.sha256@ == sha256_spec(keys@[j]@)
                &&& Seq::new(e.association_indices@.len(), |i: int| e.association_indices@[i] as int) == key_rows(rows@.take(n as int), keys@[j], None)
                &&& Seq::new(e.kid_hint_match_indices@.len(), |i: int| e.kid_hint_match_indices@[i] as int) == key_rows(rows@.take(n as int), keys@[j], Some(kid_view(kid)))
            },
        decreases keys@.len() - m,
    {
        let key = keys[m];
        let (all, kids) = rows_for_key(rows, n, &key, kid);
        let digest = sha256(&key);
        out.push(VerifyingKeyEvidence { public_key: key, sha256: digest, association_indices: all, kid_hint_match_indices: kids });
        m = m + 1;
    }
    out
}

/// Verifies `signature` over `message` under each candidate key, strictly.
fn verifying_keys(keys: &Vec<[u8; 32]>, message: &[u8], signature: &[u8]) -> (r: Vec<usize>)
    requires
        signature@.len() == 64,
    ensures
        Seq::new(r@.len(), |i: int| r@[i] as int) == accepting_keys(keys@, message@, signature@),
{
    let mut out: Vec<usize> = Vec::new();
    assert(keys@.take(0) =~= Seq::<[u8; 32]>::empty());
    let mut k: usize = 0;
    while k < keys.len()
        invariant
            k <= keys@.len(),
            signature@.len() == 64,
            Seq::new(out@.len(), |i: int| out@[i] as int) == accepting_keys(keys@.take(k as int), message@, signature@),
        decreases keys@.len() - k,
    {
        let ghost next = keys@.take(k + 1);
        assert(next.drop_last() =~= keys@.take(k as int));
        assert(next.last() == keys@[k as int]);
        if ed25519_verify_strict(&keys[k], message, signature) {
            let ghost before = out@;
            out.push(k);
            assert(Seq::new(out@.len(), |i: int| out@[i] as int) =~= Seq::new(before.len(), |i: int| before[i] as int).push(k as int));
        }
        k = k + 1;
    }
    assert(keys@.take(k as int) =~= keys@);
    out
}


/// The model of an optional byte vector.
pub open spec fn opt_vec(v: Option<Vec<u8>>) -> Option<Seq<u8>> {
    match v {
        Some(b) => Some(b@),
        None => None,
    }
}

/// Evaluates one inclusion proof: root reconstruction, attached-root
/// equality, and strict signature attempts under every candidate key.
/// The flag reports a `Sig_structure` that could not be encoded.
fn evaluate_proof(index: usize, proof: &InclusionProof, leaf: [u8; 32], payload: &Option<Vec<u8>>, protected: &[u8], signature: &[u8], keys: &Vec<[u8; 32]>) -> (r: (ProofVerification, bool, usize))
    ensures
        ({
            let o = proof_outcome(proof.model(), leaf@, opt_vec(*payload), protected@, signature@, keys@);
            &&& r.1 == o.encoding_failed
            &&& !r.1 ==> proof_matches(r.0, index as int, o) && r.2 == o.attempts
        }),
{
    let mut p = ProofVerification {
        proof_index: index,
        reconstructed_root: None,
        root_reconstruction: skipped(),
        attached_root_equality: skipped(),
        ts_signature: skipped(),
        inclusion: unestablished("root_not_authenticated"),
        verifying_key_indices: Vec::new(),
    };
    assert(Seq::new(p.verifying_key_indices@.len(), |i: int| p.verifying_key_indices@[i] as int) =~= Seq::<int>::empty());
    match proof.reconstruct_root(leaf) {
        Ok(root) => {
            p.reconstructed_root = Some(root);
            p.root_reconstruction = passed("root_reconstructed_not_authenticated");
            let mismatch = match payload {
                Some(b) => !crate::cbor::bytes_eq(b.as_slice(), &root),
                None => false,
            };
            if mismatch {
                p.attached_root_equality = failed("attached_root_mismatch");
                p.inclusion = failed("attached_root_mismatch");
            } else {
                p.attached_root_equality = if payload.is_some() {
                    passed("attached_root_equal_not_authenticated")
                } else {
                    finding(InspectionStatus::NotEvaluated, "detached_payload",
                        "No attached root; signature must authenticate the reconstructed root.")
                };
                if signature.len() == 64 {
                    let signed = match encode_sig_structure(protected, &root) {
                        Some(b) => b,
                        None => return (p, true, 0),
                    };
                    let verifying = verifying_keys(keys, signed.as_slice(), signature);
                    if verifying.len() == 0 {
                        p.ts_signature = if keys.len() == 0 {
                            unestablished("no_algorithm_compatible_candidate_key")
                        } else {
                            failed("signature_did_not_verify")
                        };
                    } else {
                        p.ts_signature = passed("signature_under_actual_supplied_key");
                        p.inclusion = passed("candidate_included_in_signature_authenticated_root");
                    }
                    p.verifying_key_indices = verifying;
                    return (p, false, keys.len());
                } else {
                    p.ts_signature = failed("invalid_ed25519_signature_length");
                }
            }
        }
        Err(_) => {
            p.root_reconstruction = failed("invalid_merkle_path");
            p.inclusion = failed("invalid_merkle_path");
        }
    }
    (p, false, 0)
}


/// Whether the envelope inspection passed every dimension Phase 2 needs.
pub open spec fn envelope_gate(e: EnvelopeReport) -> bool {
    &&& e.structure.status == InspectionStatus::Passed
    &&& e.required_claims.status == InspectionStatus::Passed
    &&& e.support.status == InspectionStatus::Passed
    &&& e.selected_policy.status == InspectionStatus::Passed
}

/// The claimed issuer of an inspected Receipt, or the empty string.
pub open spec fn claimed_issuer(e: EnvelopeReport) -> Seq<char> {
    match e.unauthenticated_claims {
        Some(c) => c.issuer@,
        None => Seq::empty(),
    }
}

/// The outcomes of every proof of a Receipt.
pub open spec fn receipt_outcomes(rc: ReceiptModel, leaf: Seq<u8>, protected: Seq<u8>, signature: Seq<u8>, keys: Seq<[u8; 32]>) -> Seq<ProofOutcome> {
    Seq::new(rc.proofs.len(), |i: int| proof_outcome(rc.proofs[i], leaf, rc.payload, protected, signature, keys))
}

/// The total signature attempts over the first `n` outcomes.
pub open spec fn attempts_sum(outs: Seq<ProofOutcome>, n: int) -> int
    decreases n,
{
    if n <= 0 { 0 } else { attempts_sum(outs, n - 1) + outs[n - 1].attempts }
}

/// The statuses of the report's proofs for one dimension.
pub open spec fn signature_statuses(outs: Seq<ProofOutcome>) -> Seq<InspectionStatus> {
    Seq::new(outs.len(), |i: int| outs[i].ts_signature.0)
}

/// The inclusion statuses of the outcomes.
pub open spec fn inclusion_statuses(outs: Seq<ProofOutcome>) -> Seq<InspectionStatus> {
    Seq::new(outs.len(), |i: int| outs[i].inclusion.0)
}

/// Whether every outcome was verified under exactly the single key of the
/// first.
pub open spec fn single_signer(outs: Seq<ProofOutcome>) -> bool {
    outs.len() > 0 && outs[0].verifying.len() == 1 && forall|i: int| 0 <= i < outs.len() ==> #[trigger] outs[i].verifying == outs[0].verifying
}

/// The fields the Phase 2 run never changes.
pub open spec fn run_frame(a: ReceiptVerificationReport, b: ReceiptVerificationReport) -> bool {
    &&& a.statement_bytes == b.statement_bytes
    &&& a.trust_context == b.trust_context
    &&& a.policy == b.policy
    &&& a.policy_id == b.policy_id
    &&& a.subject_policy == b.subject_policy
    &&& a.issuer_signature == b.issuer_signature
    &&& a.application_policy == b.application_policy
    &&& a.hardware_appraisal == b.hardware_appraisal
    &&& a.envelope == b.envelope
}

/// A report before the Phase 2 run.
pub open spec fn fresh_run(r: ReceiptVerificationReport) -> bool {
    &&& r.candidate_entry is None
    &&& finding_is(r.candidate_derivation, InspectionStatus::NotEvaluated, "prerequisite_not_established")
    &&& finding_is(r.selected_policy, InspectionStatus::Passed, "phase2_policy_selected")
    &&& r.candidate_keys@.len() == 0
    &&& r.key_configuration@.len() == 0
    &&& r.proofs@.len() == 0
    &&& r.signature_attempts == 0
    &&& finding_is(r.ts_signature, InspectionStatus::NotEvaluated, "prerequisite_not_established")
    &&& finding_is(r.inclusion, InspectionStatus::NotEvaluated, "prerequisite_not_established")
    &&& finding_is(r.ts_key_association, InspectionStatus::Unestablished, "verifying_key_not_established")
    &&& finding_is(r.ts_identity_trust, InspectionStatus::Unestablished, "trust_not_established")
    &&& finding_is(r.acceptable_for_registration, InspectionStatus::Unestablished, "registration_prerequisites_not_established")
}

/// The candidate keys of a report as keys.
pub open spec fn report_keys(r: ReceiptVerificationReport) -> Seq<[u8; 32]> {
    Seq::new(r.candidate_keys@.len(), |i: int| r.candidate_keys@[i].public_key)
}


proof fn lemma_accepting_keys_bound(keys: Seq<[u8; 32]>, message: Seq<u8>, signature: Seq<u8>)
    ensures
        forall|i: int| 0 <= i < accepting_keys(keys, message, signature).len()
            ==> 0 <= #[trigger] accepting_keys(keys, message, signature)[i] < keys.len(),
    decreases keys.len(),
{
    if keys.len() > 0 {
        let prev = accepting_keys(keys.drop_last(), message, signature);
        lemma_accepting_keys_bound(keys.drop_last(), message, signature);
        assert forall|i: int| 0 <= i < accepting_keys(keys, message, signature).len()
            implies 0 <= #[trigger] accepting_keys(keys, message, signature)[i] < keys.len() by {
            if i < prev.len() {
                assert(prev[i] < keys.drop_last().len());
            }
        }
    }
}

proof fn lemma_outcome_indices(p: ProofModel, leaf: Seq<u8>, payload: Option<Seq<u8>>, protected: Seq<u8>, signature: Seq<u8>, keys: Seq<[u8; 32]>)
    ensures
        forall|i: int| 0 <= i < proof_outcome(p, leaf, payload, protected, signature, keys).verifying.len()
            ==> 0 <= #[trigger] proof_outcome(p, leaf, payload, protected, signature, keys).verifying[i] < keys.len(),
{
    if let Ok(root) = reconstructed_root(p.leaf_index, p.tree_size, leaf, p.path) {
        if let Some(message) = cbor_written(sig_structure(protected, root)) {
            lemma_accepting_keys_bound(keys, message, signature);
        }
    }
}

fn same_indices(a: &Vec<usize>, b: &Vec<usize>) -> (r: bool)
    ensures
        r == (Seq::new(a@.len(), |i: int| a@[i] as int) == Seq::new(b@.len(), |i: int| b@[i] as int)),
{
    if a.len() != b.len() {
        proof {
            assert(Seq::new(a@.len(), |i: int| a@[i] as int).len() != Seq::new(b@.len(), |i: int| b@[i] as int).len());
        }
        return false;
    }
    let mut i: usize = 0;
    while i < a.len()
        invariant
            i <= a@.len(),
            a@.len() == b@.len(),
            forall|k: int| 0 <= k < i ==> a@[k] == b@[k],
        decreases a@.len() - i,
    {
        if a[i] != b[i] {
            proof {
                assert(Seq::new(a@.len(), |k: int| a@[k] as int)[i as int] != Seq::new(b@.len(), |k: int| b@[k] as int)[i as int]);
            }
            return false;
        }
        i = i + 1;
    }
    assert(Seq::new(a@.len(), |k: int| a@[k] as int) =~= Seq::new(b@.len(), |k: int| b@[k] as int));
    true
}

/// The bytes of an optional vector, or none.
pub open spec fn bytes_or_empty(v: Option<Vec<u8>>) -> Seq<u8> {
    match v {
        Some(b) => b@,
        None => Seq::empty(),
    }
}

fn copy_opt_bytes(v: &Option<Vec<u8>>) -> (r: Vec<u8>)
    ensures
        r@ == bytes_or_empty(*v),
{
    let mut out: Vec<u8> = Vec::new();
    match v {
        Some(b) => out.extend_from_slice(b.as_slice()),
        None => {}
    }
    out
}

/// The Phase 2 proof, aggregation and association steps, once the keys and
/// the Receipt are known.
fn run_proofs(r: &mut ReceiptVerificationReport, rc: &Receipt, keys: &Vec<[u8; 32]>, leaf: [u8; 32])
    requires
        old(r).proofs@.len() == 0,
        old(r).signature_attempts == 0,
        keys@.len() * rc.inclusion_proofs@.len() <= 256,
        report_keys(*old(r)) == keys@,
    ensures
        run_frame(*old(r), *final(r)),
        final(r).candidate_entry == old(r).candidate_entry,
        final(r).candidate_derivation == old(r).candidate_derivation,
        final(r).candidate_keys == old(r).candidate_keys,
        final(r).key_configuration == old(r).key_configuration,
        final(r).signature_attempts <= keys@.len() * rc.inclusion_proofs@.len(),
        ({
            let outs = receipt_outcomes(rc@, leaf@, bytes_or_empty(old(r).envelope.protected_bytes),
                bytes_or_empty(old(r).envelope.signature_bytes), keys@);
            let n = final(r).proofs@.len();
            &&& n <= outs.len()
            &&& forall|k: int| 0 <= k < n ==> !(#[trigger] outs[k]).encoding_failed && proof_matches(final(r).proofs@[k], k, outs[k])
            &&& final(r).signature_attempts == attempts_sum(outs, n as int)
            &&& n < outs.len() ==> outs[n as int].encoding_failed
                && finding_is(final(r).selected_policy, InspectionStatus::Failed, "sig_structure_encoding")
                && final(r).ts_signature == old(r).ts_signature && final(r).inclusion == old(r).inclusion
                && final(r).ts_key_association == old(r).ts_key_association
                && final(r).ts_identity_trust == old(r).ts_identity_trust
                && final(r).acceptable_for_registration == old(r).acceptable_for_registration
            &&& n == outs.len() ==> final(r).selected_policy == old(r).selected_policy
                && finding_is(final(r).ts_signature, aggregate_status(signature_statuses(outs)), aggregate_code(signature_statuses(outs), "all_proof_roots_signed"))
                && finding_is(final(r).inclusion, aggregate_status(inclusion_statuses(outs)), aggregate_code(inclusion_statuses(outs), "all_proofs_authenticated"))
                && (!(aggregate_status(signature_statuses(outs)) == InspectionStatus::Passed && aggregate_status(inclusion_statuses(outs)) == InspectionStatus::Passed)
                    ==> final(r).ts_key_association == old(r).ts_key_association
                        && final(r).ts_identity_trust == old(r).ts_identity_trust
                        && final(r).acceptable_for_registration == old(r).acceptable_for_registration)
                && ((aggregate_status(signature_statuses(outs)) == InspectionStatus::Passed && aggregate_status(inclusion_statuses(outs)) == InspectionStatus::Passed && !single_signer(outs))
                    ==> finding_is(final(r).ts_key_association, InspectionStatus::Failed, "ambiguous_actual_verifying_key")
                        && finding_is(final(r).ts_identity_trust, InspectionStatus::Failed, "ambiguous_actual_verifying_key")
                        && final(r).acceptable_for_registration == old(r).acceptable_for_registration)
                && ((aggregate_status(signature_statuses(outs)) == InspectionStatus::Passed && aggregate_status(inclusion_statuses(outs)) == InspectionStatus::Passed && single_signer(outs))
                    ==> {
                        let o = association_outcome(*old(r).trust_context, keys@[outs[0].verifying[0]], claimed_issuer(old(r).envelope));
                        &&& finding_pair(final(r).ts_key_association, o.0)
                        &&& finding_pair(final(r).ts_identity_trust, o.1)
                        &&& finding_pair(final(r).acceptable_for_registration, o.2)
                    })
        }),
{
    let protected = copy_opt_bytes(&r.envelope.protected_bytes);
    let signature = copy_opt_bytes(&r.envelope.signature_bytes);
    let ghost outs = receipt_outcomes(rc@, leaf@, protected@, signature@, keys@);
    let mut i: usize = 0;
    while i < rc.inclusion_proofs.len()
        invariant
            i <= rc.inclusion_proofs@.len(),
            outs == receipt_outcomes(rc@, leaf@, protected@, signature@, keys@),
            protected@ == bytes_or_empty(old(r).envelope.protected_bytes),
            signature@ == bytes_or_empty(old(r).envelope.signature_bytes),
            outs.len() == rc.inclusion_proofs@.len(),
            keys@.len() * rc.inclusion_proofs@.len() <= 256,
            run_frame(*old(r), *r),
            r.candidate_entry == old(r).candidate_entry,
            r.candidate_derivation == old(r).candidate_derivation,
            r.candidate_keys == old(r).candidate_keys,
            r.key_configuration == old(r).key_configuration,
            r.selected_policy == old(r).selected_policy,
            r.ts_signature == old(r).ts_signature,
            r.inclusion == old(r).inclusion,
            r.ts_key_association == old(r).ts_key_association,
            r.ts_identity_trust == old(r).ts_identity_trust,
            r.acceptable_for_registration == old(r).acceptable_for_registration,
            r.proofs@.len() == i,
            forall|k: int| 0 <= k < i ==> !(#[trigger] outs[k]).encoding_failed && proof_matches(r.proofs@[k], k, outs[k]),
            r.signature_attempts == attempts_sum(outs, i as int),
            attempts_sum(outs, i as int) <= keys@.len() * i,
        decreases rc.inclusion_proofs@.len() - i,
    {
        assert(rc@.proofs[i as int] == rc.inclusion_proofs@[i as int].model());
        let (p, encoding_failed, attempts) = evaluate_proof(i, &rc.inclusion_proofs[i], leaf, &rc.payload, protected.as_slice(), signature.as_slice(), keys);
        if encoding_failed {
            proof {
                assert(rc@.payload == opt_vec(rc.payload));
                assert(outs[i as int] == proof_outcome(rc.inclusion_proofs@[i as int].model(), leaf@, opt_vec(rc.payload), protected@, signature@, keys@));
                assert(outs[i as int].encoding_failed);
            }
            proof {
                assert(keys@.len() * i <= keys@.len() * rc.inclusion_proofs@.len()) by (nonlinear_arith)
                    requires i <= rc.inclusion_proofs@.len();
            }
            r.selected_policy = failed("sig_structure_encoding");
            return;
        }
        proof {
            assert(keys@.len() * i + keys@.len() == keys@.len() * (i + 1)) by (nonlinear_arith);
            assert(keys@.len() * (i + 1) <= keys@.len() * rc.inclusion_proofs@.len()) by (nonlinear_arith)
                requires i + 1 <= rc.inclusion_proofs@.len();
        }
        r.signature_attempts = r.signature_attempts + attempts;
        r.proofs.push(p);
        i = i + 1;
    }
    let mut sig_statuses: Vec<InspectionStatus> = Vec::new();
    let mut inc_statuses: Vec<InspectionStatus> = Vec::new();
    let mut k: usize = 0;
    while k < r.proofs.len()
        invariant
            k <= r.proofs@.len(),
            r.proofs@.len() == outs.len(),
            forall|j: int| 0 <= j < outs.len() ==> proof_matches(#[trigger] r.proofs@[j], j, outs[j]),
            sig_statuses@ == signature_statuses(outs).take(k as int),
            inc_statuses@ == inclusion_statuses(outs).take(k as int),
        decreases r.proofs@.len() - k,
    {
        assert(proof_matches(r.proofs@[k as int], k as int, outs[k as int]));
        sig_statuses.push(r.proofs[k].ts_signature.status);
        inc_statuses.push(r.proofs[k].inclusion.status);
        assert(sig_statuses@ =~= signature_statuses(outs).take(k + 1));
        assert(inc_statuses@ =~= inclusion_statuses(outs).take(k + 1));
        k = k + 1;
    }
    assert(signature_statuses(outs).take(k as int) =~= signature_statuses(outs));
    assert(inclusion_statuses(outs).take(k as int) =~= inclusion_statuses(outs));
    r.ts_signature = aggregate(&sig_statuses, "all_proof_roots_signed");
    r.inclusion = aggregate(&inc_statuses, "all_proofs_authenticated");
    if r.ts_signature.status != InspectionStatus::Passed || r.inclusion.status != InspectionStatus::Passed {
        return;
    }
    assert(r.proofs@.len() > 0);
    assert(proof_matches(r.proofs@[0], 0, outs[0]));
    let first_ok = r.proofs[0].verifying_key_indices.len() == 1;
    let mut uniform = true;
    let mut j: usize = 0;
    while j < r.proofs.len()
        invariant
            j <= r.proofs@.len(),
            r.proofs@.len() == outs.len(),
            outs.len() > 0,
            forall|m: int| 0 <= m < outs.len() ==> proof_matches(#[trigger] r.proofs@[m], m, outs[m]),
            uniform == forall|m: int| 0 <= m < j ==> #[trigger] outs[m].verifying == outs[0].verifying,
        decreases r.proofs@.len() - j,
    {
        assert(proof_matches(r.proofs@[j as int], j as int, outs[j as int]));
        assert(proof_matches(r.proofs@[0], 0, outs[0]));
        if !same_indices(&r.proofs[j].verifying_key_indices, &r.proofs[0].verifying_key_indices) {
            uniform = false;
        }
        j = j + 1;
    }
    if !first_ok || !uniform {
        r.ts_key_association = failed("ambiguous_actual_verifying_key");
        r.ts_identity_trust = failed("ambiguous_actual_verifying_key");
        return;
    }
    let index = r.proofs[0].verifying_key_indices[0];
    assert(outs[0].verifying[0] == index as int);
    proof {
        assert(outs[0].verifying.len() > 0);
        assert(rc@.proofs[0] == rc.inclusion_proofs@[0].model());
        lemma_outcome_indices(rc@.proofs[0], leaf@, rc@.payload, protected@, signature@, keys@);
    }
    let key = keys[index];
    let issuer: &str = match &r.envelope.unauthenticated_claims {
        Some(c) => c.issuer.as_str(),
        None => "",
    };
    proof {
        if r.envelope.unauthenticated_claims is None {
            reveal_strlit("");
        }
    }
    let (ka, trust, acc) = associate(r.trust_context, &key, issuer);
    r.ts_key_association = ka;
    r.ts_identity_trust = trust;
    r.acceptable_for_registration = acc;
    proof {
        assert(issuer@ == claimed_issuer(old(r).envelope));
        assert(key == keys@[outs[0].verifying[0]]);
        assert(single_signer(outs));
        assert(r.proofs@.len() == outs.len());
    }
}


/// The statement preflight limits: the statement ceilings on top of the
/// default inspection limits.
pub open spec fn statement_limits(l: VerificationLimits) -> InspectionLimits {
    InspectionLimits {
        max_receipt_bytes: l.max_statement_bytes,
        max_cbor_items: l.max_statement_cbor_items,
        max_cbor_nesting: l.max_statement_cbor_nesting,
        max_map_entries: l.max_statement_map_entries,
        ..InspectionLimits::defaults()
    }
}

/// Whether the run got past every gate up to the key collection.
pub open spec fn keys_reached(r: ReceiptVerificationReport) -> bool {
    &&& r.candidate_derivation.status == InspectionStatus::Passed
    &&& context_bounded(*r.trust_context, r.policy.limits)
    &&& receipt_from_bytes(r.envelope.encoded_receipt@) is Ok
}

/// No key occurs twice in the candidate key list.
pub proof fn lemma_key_list_distinct(rows: Seq<TsKeyAssociation>)
    ensures
        forall|i: int, j: int| 0 <= i < j < key_list(rows).len() ==> key_list(rows)[i] != key_list(rows)[j],
    decreases rows.len(),
{
    if rows.len() > 0 {
        let prev = key_list(rows.drop_last());
        lemma_key_list_distinct(rows.drop_last());
        if let Some(k) = usable_key(rows.last()) {
            if !prev.contains(k) {
                assert forall|i: int, j: int| 0 <= i < j < prev.push(k).len() implies prev.push(k)[i] != prev.push(k)[j] by {
                    if j == prev.len() {
                        assert(prev[i] == prev.push(k)[i]);
                    }
                }
            }
        }
    }
}

proof fn lemma_key_limit_row_range(rows: Seq<TsKeyAssociation>, max: int)
    ensures
        key_limit_row(rows, max) matches Some(i) ==> 0 <= i < rows.len(),
    decreases rows.len(),
{
    if rows.len() > 0 {
        lemma_key_limit_row_range(rows.drop_last(), max);
    }
}

/// The key collection stops before a key beyond the limit: the rows it
/// covers offer at most `max` distinct keys.
pub proof fn lemma_key_list_within(rows: Seq<TsKeyAssociation>, max: int)
    requires
        max >= 0,
    ensures
        key_limit_row(rows, max) is None ==> key_list(rows).len() <= max,
        key_limit_row(rows, max) matches Some(i) ==> key_list(rows.take(i)).len() <= max,
    decreases rows.len(),
{
    if rows.len() > 0 {
        let d = rows.drop_last();
        lemma_key_list_within(d, max);
        lemma_key_limit_row_range(d, max);
        if let Some(i) = key_limit_row(d, max) {
            assert(d.take(i) =~= rows.take(i));
        } else {
            assert(rows.take(rows.len() - 1) =~= d);
        }
    }
}

/// The candidate keys a verification collects are distinct and at most the
/// policy's limit.
pub proof fn lemma_candidate_keys_bounded(c: TsTrustContext, l: VerificationLimits)
    ensures
        key_list(c.associations@.take(rows_covered(c, l))).len() <= l.max_candidate_keys,
        forall|i: int, j: int| 0 <= i < j < key_list(c.associations@.take(rows_covered(c, l))).len()
            ==> key_list(c.associations@.take(rows_covered(c, l)))[i] != key_list(c.associations@.take(rows_covered(c, l)))[j],
{
    let rows = c.associations@;
    lemma_key_list_within(rows, l.max_candidate_keys as int);
    lemma_key_list_distinct(rows.take(rows_covered(c, l)));
    if key_limit_row(rows, l.max_candidate_keys as int) is None {
        assert(rows.take(rows.len() as int) =~= rows);
    }
}

/// The number of association rows the key collection covered.
pub open spec fn rows_covered(c: TsTrustContext, l: VerificationLimits) -> int {
    match key_limit_row(c.associations@, l.max_candidate_keys as int) {
        Some(i) => i,
        None => c.associations@.len() as int,
    }
}

fn run(r: &mut ReceiptVerificationReport)
    requires
        fresh_run(*old(r)),
    ensures
        run_frame(*old(r), *final(r)),
        !envelope_gate(old(r).envelope) ==> *final(r) == *old(r),
        final(r).signature_attempts <= old(r).policy.limits.max_signature_attempts,
        (envelope_gate(old(r).envelope) && verification_limits_valid(old(r).policy.limits)
            && old(r).statement_bytes@.len() <= old(r).policy.limits.max_statement_bytes) ==> {
            let stmt = old(r).statement_bytes@;
            if !scan_accepts(stmt, 0, Role::Any, statement_limits(old(r).policy.limits), 0) {
                finding_is(final(r).candidate_derivation, InspectionStatus::Failed, "statement_cbor_preflight")
            } else {
                match candidate_from_statement(stmt) {
                    Ok(e) => finding_is(final(r).candidate_derivation, InspectionStatus::Passed,
                        "exact_statement_candidate_derived_not_outer_validation")
                        && opt_vec(final(r).candidate_entry) == Some(e),
                    Err(_) => finding_is(final(r).candidate_derivation, InspectionStatus::Failed, "statement_candidate_shape"),
                }
            }
        },
        (envelope_gate(old(r).envelope) && !verification_limits_valid(old(r).policy.limits)) ==>
            finding_is(final(r).selected_policy, InspectionStatus::Failed, "invalid_phase2_limits")
            && final(r).candidate_derivation == old(r).candidate_derivation && final(r).proofs@.len() == 0,
        (envelope_gate(old(r).envelope) && verification_limits_valid(old(r).policy.limits)
            && old(r).statement_bytes@.len() > old(r).policy.limits.max_statement_bytes) ==>
            finding_is(final(r).candidate_derivation, InspectionStatus::Failed, "statement_byte_limit")
            && final(r).selected_policy == old(r).selected_policy && final(r).proofs@.len() == 0,
        final(r).candidate_derivation.status == InspectionStatus::Passed ==>
            finding_is(final(r).candidate_derivation, InspectionStatus::Passed, "exact_statement_candidate_derived_not_outer_validation")
            && envelope_gate(old(r).envelope) && verification_limits_valid(old(r).policy.limits)
            && candidate_from_statement(old(r).statement_bytes@) is Ok
            && opt_vec(final(r).candidate_entry) == Some(candidate_from_statement(old(r).statement_bytes@)->Ok_0),
        candidate_from_statement(old(r).statement_bytes@) is Err ==>
            final(r).candidate_derivation.status != InspectionStatus::Passed && final(r).proofs@.len() == 0
            && final(r).ts_signature == old(r).ts_signature && final(r).acceptable_for_registration == old(r).acceptable_for_registration,
        final(r).candidate_derivation.status != InspectionStatus::Passed ==> final(r).proofs@.len() == 0
            && final(r).candidate_keys@.len() == 0
            && final(r).ts_signature == old(r).ts_signature && final(r).inclusion == old(r).inclusion
            && final(r).ts_key_association == old(r).ts_key_association
            && final(r).ts_identity_trust == old(r).ts_identity_trust
            && final(r).acceptable_for_registration == old(r).acceptable_for_registration,
        (final(r).candidate_derivation.status == InspectionStatus::Passed && !context_bounded(*old(r).trust_context, old(r).policy.limits)) ==>
            finding_is(final(r).selected_policy, InspectionStatus::Failed, "trust_context_limit") && final(r).candidate_keys@.len() == 0
            && final(r).proofs@.len() == 0 && final(r).acceptable_for_registration == old(r).acceptable_for_registration,
        (final(r).candidate_derivation.status == InspectionStatus::Passed && context_bounded(*old(r).trust_context, old(r).policy.limits)
            && receipt_from_bytes(old(r).envelope.encoded_receipt@) is Err) ==>
            finding_is(final(r).selected_policy, InspectionStatus::Failed, "inspection_parser_disagreement") && final(r).candidate_keys@.len() == 0
            && final(r).proofs@.len() == 0 && final(r).acceptable_for_registration == old(r).acceptable_for_registration,
        keys_reached(*final(r)) ==> ({
            let rows = old(r).trust_context.associations@;
            let l = old(r).policy.limits;
            let n = rows_covered(*old(r).trust_context, l);
            let stop = key_limit_row(rows, l.max_candidate_keys as int);
            let keys = key_list(rows.take(n));
            let kid = kid_of(view_entries(old(r).envelope.effective_headers@));
            &&& final(r).key_configuration@.len() == (if stop is Some { n + 1 } else { n })
            &&& forall|i: int| 0 <= i < final(r).key_configuration@.len() ==> finding_pair(#[trigger] final(r).key_configuration@[i], config_finding(rows[i]))
            &&& report_keys(*final(r)) == keys
            &&& forall|m: int| 0 <= m < keys.len() ==> {
                let e = #[trigger] final(r).candidate_keys@[m];
                &&& e.sha256@ == sha256_spec(keys[m]@)
                &&& Seq::new(e.association_indices@.len(), |i: int| e.association_indices@[i] as int) == key_rows(rows.take(n), keys[m], None)
                &&& Seq::new(e.kid_hint_match_indices@.len(), |i: int| e.kid_hint_match_indices@[i] as int) == key_rows(rows.take(n), keys[m], Some(kid))
            }
            &&& stop is Some ==> finding_is(final(r).selected_policy, InspectionStatus::Failed, "candidate_key_limit")
                && final(r).proofs@.len() == 0 && final(r).acceptable_for_registration == old(r).acceptable_for_registration
            &&& (stop is None && keys.len() * receipt_from_bytes(old(r).envelope.encoded_receipt@)->Ok_0.proofs.len() > l.max_signature_attempts) ==>
                finding_is(final(r).selected_policy, InspectionStatus::Failed, "signature_attempt_limit")
                && final(r).proofs@.len() == 0 && final(r).acceptable_for_registration == old(r).acceptable_for_registration
            &&& (stop is None && keys.len() * receipt_from_bytes(old(r).envelope.encoded_receipt@)->Ok_0.proofs.len() <= l.max_signature_attempts) ==> {
                let rc = receipt_from_bytes(old(r).envelope.encoded_receipt@)->Ok_0;
                let outs = receipt_outcomes(rc, leaf_hash_spec(opt_vec(final(r).candidate_entry).unwrap()),
                    bytes_or_empty(old(r).envelope.protected_bytes), bytes_or_empty(old(r).envelope.signature_bytes), keys);
                let np = final(r).proofs@.len();
                &&& np <= outs.len()
                &&& forall|k: int| 0 <= k < np ==> !(#[trigger] outs[k]).encoding_failed && proof_matches(final(r).proofs@[k], k, outs[k])
                &&& final(r).signature_attempts == attempts_sum(outs, np as int)
                &&& np < outs.len() ==> outs[np as int].encoding_failed
                    && finding_is(final(r).selected_policy, InspectionStatus::Failed, "sig_structure_encoding")
                    && final(r).acceptable_for_registration == old(r).acceptable_for_registration
                &&& np == outs.len() ==> final(r).selected_policy == old(r).selected_policy
                    && finding_is(final(r).ts_signature, aggregate_status(signature_statuses(outs)), aggregate_code(signature_statuses(outs), "all_proof_roots_signed"))
                    && finding_is(final(r).inclusion, aggregate_status(inclusion_statuses(outs)), aggregate_code(inclusion_statuses(outs), "all_proofs_authenticated"))
                    && (!(aggregate_status(signature_statuses(outs)) == InspectionStatus::Passed && aggregate_status(inclusion_statuses(outs)) == InspectionStatus::Passed)
                        ==> final(r).ts_key_association == old(r).ts_key_association
                            && final(r).ts_identity_trust == old(r).ts_identity_trust
                            && final(r).acceptable_for_registration == old(r).acceptable_for_registration)
                    && ((aggregate_status(signature_statuses(outs)) == InspectionStatus::Passed && aggregate_status(inclusion_statuses(outs)) == InspectionStatus::Passed && !single_signer(outs))
                        ==> finding_is(final(r).ts_key_association, InspectionStatus::Failed, "ambiguous_actual_verifying_key")
                            && finding_is(final(r).ts_identity_trust, InspectionStatus::Failed, "ambiguous_actual_verifying_key")
                            && final(r).acceptable_for_registration == old(r).acceptable_for_registration)
                    && ((aggregate_status(signature_statuses(outs)) == InspectionStatus::Passed && aggregate_status(inclusion_statuses(outs)) == InspectionStatus::Passed && single_signer(outs))
                        ==> {
                            let o = association_outcome(*old(r).trust_context, keys[outs[0].verifying[0]], claimed_issuer(old(r).envelope));
                            &&& finding_pair(final(r).ts_key_association, o.0)
                            &&& finding_pair(final(r).ts_identity_trust, o.1)
                            &&& finding_pair(final(r).acceptable_for_registration, o.2)
                        })
            }
        }),
{
    if r.envelope.structure.status != InspectionStatus::Passed || r.envelope.required_claims.status != InspectionStatus::Passed
        || r.envelope.support.status != InspectionStatus::Passed || r.envelope.selected_policy.status != InspectionStatus::Passed {
        return;
    }
    if !r.policy.limits.valid() {
        r.selected_policy = failed("invalid_phase2_limits");
        return;
    }
    let l = r.policy.limits;
    if r.statement_bytes.len() > l.max_statement_bytes {
        r.candidate_derivation = failed("statement_byte_limit");
        return;
    }
    let d = InspectionLimits::default();
    let limits = InspectionLimits {
        max_receipt_bytes: l.max_statement_bytes,
        max_protected_bytes: d.max_protected_bytes,
        max_signature_bytes: d.max_signature_bytes,
        max_cbor_nesting: l.max_statement_cbor_nesting,
        max_cbor_items: l.max_statement_cbor_items,
        max_map_entries: l.max_statement_map_entries,
        max_proofs_per_receipt: d.max_proofs_per_receipt,
        max_path_nodes_per_proof: d.max_path_nodes_per_proof,
        max_certificate_chain_length: d.max_certificate_chain_length,
        max_certificate_bytes: d.max_certificate_bytes,
        max_claim_text_characters: d.max_claim_text_characters,
        max_tree_size: d.max_tree_size,
    };
    let mut budget = Budget { limits: &limits, items: 0, unprotected_x5t_invalid: false };
    if budget.scan(r.statement_bytes, 0, Role::Any, "statement_trailing_data").is_err() {
        r.candidate_derivation = failed("statement_cbor_preflight");
        return;
    }
    let candidate = match derive_candidate_entry(r.statement_bytes) {
        Ok(c) => c,
        Err(_) => {
            r.candidate_derivation = failed("statement_candidate_shape");
            return;
        }
    };
    let leaf = leaf_hash(candidate.as_slice());
    r.candidate_derivation = passed("exact_statement_candidate_derived_not_outer_validation");
    r.candidate_entry = Some(candidate);
    if !bounded_context(r.trust_context, &l) {
        r.selected_policy = failed("trust_context_limit");
        return;
    }
    let rc = match Receipt::from_cose_sign1(r.envelope.encoded_receipt) {
        Ok(rc) => rc,
        Err(_) => {
            r.selected_policy = failed("inspection_parser_disagreement");
            return;
        }
    };
    let rows = r.trust_context.associations;
    let (keys, config, stop) = collect_keys(rows, l.max_candidate_keys);
    let n = match stop {
        Some(i) => i,
        None => rows.len(),
    };
    let evidence = {
        let kid = kid_exec(r.envelope.effective_headers.as_slice());
        build_evidence(rows, n, &keys, kid)
    };
    r.key_configuration = config;
    r.candidate_keys = evidence;
    proof {
        assert(report_keys(*r) =~= keys@);
    }
    if stop.is_some() {
        r.selected_policy = failed("candidate_key_limit");
        return;
    }
    let total = keys.len().checked_mul(rc.inclusion_proofs.len());
    let within = match total {
        Some(t) => t <= l.max_signature_attempts,
        None => false,
    };
    if !within {
        r.selected_policy = failed("signature_attempt_limit");
        return;
    }
    proof {
        assert(rc@.proofs.len() == rc.inclusion_proofs@.len());
    }
    run_proofs(r, &rc, &keys, leaf);
}


/// Verifies one supported Receipt against a candidate derived from the
/// exact statement bytes and the caller's trust context. This does not
/// validate the outer statement's header semantics, issuer signature,
/// attachment container, application policy or physical-event truth.
/// `LocalSimulation` can demonstrate conditional trust but never passes
/// registration.
pub fn verify_scitt_receipt<'a>(receipt_bytes: &'a [u8], statement_bytes: &'a [u8], trust_context: &'a TsTrustContext<'a>, policy: &ReceiptVerificationPolicy) -> (r: ReceiptVerificationReport<'a>)
    ensures
        r.statement_bytes == statement_bytes,
        r.trust_context == trust_context,
        r.policy == *policy,
        r.policy_id == RECEIPT_VERIFICATION_POLICY_ID,
        r.envelope.encoded_receipt == receipt_bytes,
        r.envelope.policy == policy.envelope,
        finding_is(r.subject_policy, InspectionStatus::Unestablished, "phase3_subject_semantics_not_implemented"),
        finding_is(r.issuer_signature, InspectionStatus::NotEvaluated, "outside_phase2"),
        finding_is(r.application_policy, InspectionStatus::Unestablished, "phase3_application_not_implemented"),
        finding_is(r.hardware_appraisal, InspectionStatus::NotEvaluated, "outside_phase2"),
        r.envelope.structure.status == InspectionStatus::Passed ==> crate::receipt_inspection::structure_ok(receipt_bytes@, policy.envelope)
            && crate::receipt_inspection::report_content(r.envelope, receipt_bytes@, policy.envelope),
        !envelope_gate(r.envelope) ==> r.candidate_entry is None
            && finding_is(r.candidate_derivation, InspectionStatus::NotEvaluated, "prerequisite_not_established")
            && finding_is(r.selected_policy, InspectionStatus::Passed, "phase2_policy_selected")
            && r.proofs@.len() == 0
            && finding_is(r.acceptable_for_registration, InspectionStatus::Unestablished, "registration_prerequisites_not_established"),
        envelope_gate(r.envelope) && !verification_limits_valid(policy.limits) ==>
            finding_is(r.selected_policy, InspectionStatus::Failed, "invalid_phase2_limits") && r.proofs@.len() == 0,
        r.signature_attempts <= policy.limits.max_signature_attempts,
        keys_reached(r) ==> r.candidate_keys@.len() <= policy.limits.max_candidate_keys
            && forall|i: int, j: int| 0 <= i < j < r.candidate_keys@.len()
                ==> r.candidate_keys@[i].public_key != r.candidate_keys@[j].public_key,
        (envelope_gate(r.envelope) && verification_limits_valid(policy.limits)
            && statement_bytes@.len() <= policy.limits.max_statement_bytes) ==> {
            if !scan_accepts(statement_bytes@, 0, Role::Any, statement_limits(policy.limits), 0) {
                finding_is(r.candidate_derivation, InspectionStatus::Failed, "statement_cbor_preflight")
            } else {
                match candidate_from_statement(statement_bytes@) {
                    Ok(e) => finding_is(r.candidate_derivation, InspectionStatus::Passed,
                        "exact_statement_candidate_derived_not_outer_validation")
                        && opt_vec(r.candidate_entry) == Some(e),
                    Err(_) => finding_is(r.candidate_derivation, InspectionStatus::Failed, "statement_candidate_shape"),
                }
            }
        },
        r.candidate_derivation.status == InspectionStatus::Passed ==> envelope_gate(r.envelope)
            && candidate_from_statement(statement_bytes@) is Ok
            && opt_vec(r.candidate_entry) == Some(candidate_from_statement(statement_bytes@)->Ok_0),
        r.candidate_derivation.status != InspectionStatus::Passed ==> r.proofs@.len() == 0 && r.candidate_keys@.len() == 0
            && finding_is(r.ts_signature, InspectionStatus::NotEvaluated, "prerequisite_not_established")
            && finding_is(r.acceptable_for_registration, InspectionStatus::Unestablished, "registration_prerequisites_not_established"),
        r.acceptable_for_registration.status == InspectionStatus::Passed ==> envelope_gate(r.envelope) && keys_reached(r) && ({
            let rows = trust_context.associations@;
            let n = rows_covered(*trust_context, policy.limits);
            let keys = key_list(rows.take(n));
            let rc = receipt_from_bytes(receipt_bytes@)->Ok_0;
            let outs = receipt_outcomes(rc, leaf_hash_spec(opt_vec(r.candidate_entry).unwrap()),
                bytes_or_empty(r.envelope.protected_bytes), bytes_or_empty(r.envelope.signature_bytes), keys);
            &&& r.proofs@.len() == outs.len()
            &&& aggregate_status(signature_statuses(outs)) == InspectionStatus::Passed
            &&& aggregate_status(inclusion_statuses(outs)) == InspectionStatus::Passed
            &&& single_signer(outs)
            &&& registration_evidence(*trust_context, keys[outs[0].verifying[0]], claimed_issuer(r.envelope))
        }),
        keys_reached(r) ==> ({
            let rows = trust_context.associations@;
            let l = policy.limits;
            let n = rows_covered(*trust_context, l);
            let stop = key_limit_row(rows, l.max_candidate_keys as int);
            let keys = key_list(rows.take(n));
            &&& report_keys(r) == keys
            &&& r.key_configuration@.len() == (if stop is Some { n + 1 } else { n })
            &&& forall|i: int| 0 <= i < r.key_configuration@.len() ==> finding_pair(#[trigger] r.key_configuration@[i], config_finding(rows[i]))
            &&& stop is Some ==> finding_is(r.selected_policy, InspectionStatus::Failed, "candidate_key_limit") && r.proofs@.len() == 0
            &&& (stop is None && keys.len() * receipt_from_bytes(receipt_bytes@)->Ok_0.proofs.len() <= l.max_signature_attempts) ==> {
                let rc = receipt_from_bytes(receipt_bytes@)->Ok_0;
                let outs = receipt_outcomes(rc, leaf_hash_spec(opt_vec(r.candidate_entry).unwrap()),
                    bytes_or_empty(r.envelope.protected_bytes), bytes_or_empty(r.envelope.signature_bytes), keys);
                &&& r.proofs@.len() <= outs.len()
                &&& forall|k: int| 0 <= k < r.proofs@.len() ==> proof_matches(#[trigger] r.proofs@[k], k, outs[k])
                &&& r.proofs@.len() == outs.len() ==>
                    finding_is(r.ts_signature, aggregate_status(signature_statuses(outs)), aggregate_code(signature_statuses(outs), "all_proof_roots_signed"))
                    && finding_is(r.inclusion, aggregate_status(inclusion_statuses(outs)), aggregate_code(inclusion_statuses(outs), "all_proofs_authenticated"))
                    && ((aggregate_status(signature_statuses(outs)) == InspectionStatus::Passed && aggregate_status(inclusion_statuses(outs)) == InspectionStatus::Passed && single_signer(outs))
                        ==> {
                            let o = association_outcome(*trust_context, keys[outs[0].verifying[0]], claimed_issuer(r.envelope));
                            &&& finding_pair(r.ts_key_association, o.0)
                            &&& finding_pair(r.ts_identity_trust, o.1)
                            &&& finding_pair(r.acceptable_for_registration, o.2)
                        })
                    && (!(aggregate_status(signature_statuses(outs)) == InspectionStatus::Passed && aggregate_status(inclusion_statuses(outs)) == InspectionStatus::Passed && single_signer(outs))
                        ==> finding_is(r.acceptable_for_registration, InspectionStatus::Unestablished, "registration_prerequisites_not_established"))
                &&& r.proofs@.len() < outs.len() ==> finding_is(r.selected_policy, InspectionStatus::Failed, "sig_structure_encoding")
                    && finding_is(r.acceptable_for_registration, InspectionStatus::Unestablished, "registration_prerequisites_not_established")
            }
        }),
{
    let mut r = ReceiptVerificationReport {
        statement_bytes,
        envelope: inspect_scitt_receipt(receipt_bytes, &policy.envelope),
        trust_context,
        policy: *policy,
        policy_id: RECEIPT_VERIFICATION_POLICY_ID,
        candidate_entry: None,
        candidate_derivation: skipped(),
        selected_policy: passed("phase2_policy_selected"),
        candidate_keys: Vec::new(),
        key_configuration: Vec::new(),
        proofs: Vec::new(),
        signature_attempts: 0,
        ts_signature: skipped(),
        inclusion: skipped(),
        ts_key_association: unestablished("verifying_key_not_established"),
        ts_identity_trust: unestablished("trust_not_established"),
        subject_policy: unestablished("phase3_subject_semantics_not_implemented"),
        issuer_signature: finding(InspectionStatus::NotEvaluated, "outside_phase2",
            "Statement issuer verification is not implemented by this API."),
        application_policy: unestablished("phase3_application_not_implemented"),
        hardware_appraisal: finding(InspectionStatus::NotEvaluated, "outside_phase2", "No hardware evidence is evaluated."),
        acceptable_for_registration: unestablished("registration_prerequisites_not_established"),
    };
    run(&mut r);
    proof {
        lemma_candidate_keys_bounded(*trust_context, policy.limits);
        if keys_reached(r) {
            let keys = key_list(trust_context.associations@.take(rows_covered(*trust_context, policy.limits)));
            assert(report_keys(r) == keys);
            assert forall|i: int, j: int| 0 <= i < j < r.candidate_keys@.len()
                implies r.candidate_keys@[i].public_key != r.candidate_keys@[j].public_key by {
                assert(report_keys(r)[i] == r.candidate_keys@[i].public_key);
                assert(report_keys(r)[j] == r.candidate_keys@[j].public_key);
            }
        }
        if r.acceptable_for_registration.status == InspectionStatus::Passed {
            let rows = trust_context.associations@;
            let n = rows_covered(*trust_context, policy.limits);
            let keys = key_list(rows.take(n));
            let rc = receipt_from_bytes(receipt_bytes@)->Ok_0;
            let outs = receipt_outcomes(rc, leaf_hash_spec(opt_vec(r.candidate_entry).unwrap()),
                bytes_or_empty(r.envelope.protected_bytes), bytes_or_empty(r.envelope.signature_bytes), keys);
            if outs.len() > 0 && outs[0].verifying.len() > 0 {
                lemma_registration_needs_evidence(*trust_context, keys[outs[0].verifying[0]], claimed_issuer(r.envelope));
            }
        }
    }
    r
}

} // verus!
