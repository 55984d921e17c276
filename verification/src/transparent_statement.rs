//! Bounded offline recipient coordination over a Transparent Statement: the
//! outer `COSE_Sign1`, its attached Receipts, the issuer signature and the
//! caller's named policies. No I/O, live clock or provisioning transport.
use vstd::prelude::*;
use vstd::string::StringSliceAdditionalSpecFns;
use crate::cbor::{CborValue, CborV, cbor_equal, cbor_eq, cbor_decode_exact, entry_value, get, view_items, view_entries, lemma_view_items, lemma_view_entries};
use crate::receipt::bytes_of;
use crate::receipt_cbor::{Budget, Role, wf_cbor, scan_accepts};
use crate::receipt_inspection::{InspectionFinding, InspectionLimits, InspectionStatus, UnauthenticatedReceiptClaims, Problem,
    finding_is, is_label, labels_ok, key_present, key_present_exec, maps_overlap, overlap_exec, effective_headers, merge_headers,
    decoded_unique, decode_unique, integer_of, int_header, entries_of, has_colon, contains_colon, uri, uri_parses, labels, opt_bytes, items_after_scan};
use crate::receipt_verification::{ReceiptVerificationPolicy, BindingProvenance, TrustInputOrigin, TsPublicKey, TsTrustContext,
    VerifyingKeyEvidence, ProofVerification, verify_scitt_receipt};
use crate::crypto::{ed25519_strictly_accepts, ed25519_verify_strict};
use crate::digest::{sha256, sha256_spec};
use crate::entry::{candidate_from_statement, derive_candidate_entry};
use crate::json::{JsonValue, JsonV, json_parse, jcs, parse_json, canonicalize_json, json_get, get_member};
use crate::receipt::{sig_structure, encode_sig_structure};
use crate::cbor::cbor_written;
use crate::text::str_eq;

verus! {

/// Private software-fixture application convention, not a core PSER
/// version.
pub const SOFTWARE_SITE_CONTENT_TYPE: &'static str = "application/json; profile=pask71-software-site/1";

/// The identifier of the recipient policy.
pub const TRANSPARENT_STATEMENT_POLICY_ID: &'static str = "pask71-recipient-offline/1";

fn f(status: InspectionStatus, code: &'static str) -> (r: InspectionFinding)
    ensures
        finding_is(r, status, code),
{
    InspectionFinding {
        status,
        code,
        detail: "Only the named dimension under the recorded local policy; not a general acceptance claim.",
        evidence_refs: vec!["exact_statement_and_explicit_caller_inputs"],
    }
}

fn pass(code: &'static str) -> (r: InspectionFinding)
    ensures
        finding_is(r, InspectionStatus::Passed, code),
{
    f(InspectionStatus::Passed, code)
}

fn fail(code: &'static str) -> (r: InspectionFinding)
    ensures
        finding_is(r, InspectionStatus::Failed, code),
{
    f(InspectionStatus::Failed, code)
}

fn unset(code: &'static str) -> (r: InspectionFinding)
    ensures
        finding_is(r, InspectionStatus::Unestablished, code),
{
    f(InspectionStatus::Unestablished, code)
}

fn skip() -> (r: InspectionFinding)
    ensures
        finding_is(r, InspectionStatus::NotEvaluated, "prerequisite_not_established"),
{
    f(InspectionStatus::NotEvaluated, "prerequisite_not_established")
}

/// Tightenable local ceilings for the outer statement and its Receipts.
#[derive(Debug, Clone, Copy)]
pub struct TransparentStatementPolicy {
    pub strict_cross_map: bool,
    pub max_statement_bytes: usize,
    pub max_receipts: usize,
    pub receipt: ReceiptVerificationPolicy,
}

impl Default for TransparentStatementPolicy {
    fn default() -> (r: Self)
        ensures
            !r.strict_cross_map,
            r.max_statement_bytes == 1_048_576,
            r.max_receipts == 8,
            r.receipt.limits == crate::receipt_verification::VerificationLimits::defaults(),
            r.receipt.envelope.limits == InspectionLimits::defaults(),
            !r.receipt.envelope.strict_cross_map,
    {
        TransparentStatementPolicy {
            strict_cross_map: false,
            max_statement_bytes: 1_048_576,
            max_receipts: 8,
            receipt: ReceiptVerificationPolicy::default(),
        }
    }
}

/// Absence, a malformed enclosing container and a malformed Receipt differ.
#[derive(Debug, Clone, Copy, PartialEq, Eq, Structural)]
pub enum ReceiptContainerState {
    NotExamined,
    Absent,
    Malformed,
    Present,
}

/// Exact signed byte contents plus unauthenticated decoded conveniences.
pub struct OuterStatementReport<'a> {
    pub encoded_statement: &'a [u8],
    pub policy: TransparentStatementPolicy,
    pub protected_bytes: Option<Vec<u8>>,
    pub payload_bytes: Option<Vec<u8>>,
    pub signature_bytes: Option<Vec<u8>>,
    pub effective_headers: Vec<(CborValue, CborValue)>,
    pub claims: Option<UnauthenticatedReceiptClaims>,
    pub algorithm: Option<i128>,
    pub protected_content_type: Option<String>,
    pub structure: InspectionFinding,
    pub required_claims: InspectionFinding,
    pub support: InspectionFinding,
    pub selected_policy: InspectionFinding,
    pub container: ReceiptContainerState,
    pub receipts: Vec<Vec<u8>>,
}

/// The UTF-8 byte length of a text, as `str::len` reports it.
pub open spec fn byte_len(t: Seq<char>) -> usize {
    vstd::utf8::encode_utf8(t).len() as usize
}

/// Whether a text is nonempty and at most 8192 UTF-8 bytes.
pub open spec fn bounded_text_spec(t: Seq<char>) -> bool {
    t.len() > 0 && byte_len(t) <= 8192
}

fn bounded_text(s: &str) -> (r: bool)
    ensures
        r == bounded_text_spec(s@),
{
    !s.is_empty() && s.len() <= 8192
}

/// Whether a claim text is bounded and, when it holds a colon, a URI.
pub open spec fn string_or_uri_spec(t: Seq<char>) -> bool {
    bounded_text_spec(t) && (!has_colon(t) || uri_parses(t))
}

fn string_or_uri(s: &str) -> (r: bool)
    ensures
        r == string_or_uri_spec(s@),
{
    bounded_text(s) && (!contains_colon(s) || uri(s))
}

/// Whether the outer policy's limits are usable.
pub open spec fn outer_policy_valid(p: TransparentStatementPolicy) -> bool {
    0 < p.max_statement_bytes <= 1_048_576 && 0 < p.max_receipts <= 8
}

/// The four `COSE_Sign1` elements of a decoded, duplicate-free outer
/// statement (tag 18 or untagged) with a protected bstr, unprotected map,
/// attached payload bstr and signature bstr.
pub open spec fn outer_parts(bytes: Seq<u8>) -> Option<(Seq<u8>, Seq<(CborV, CborV)>, Seq<u8>, Seq<u8>)> {
    match decoded_unique(bytes) {
        Some(v) => {
            let inner = match v {
                CborV::Tag(t, b) => if t == 18 { *b } else { v },
                _ => v,
            };
            match inner {
                CborV::Array(items) => if items.len() == 4 && items[0] is Bytes && items[1] is Entries
                    && items[2] is Bytes && items[3] is Bytes {
                    Some((bytes_of(items[0]), entries_of(items[1]), bytes_of(items[2]), bytes_of(items[3])))
                } else {
                    None
                },
                _ => None,
            }
        },
        None => None,
    }
}

/// The protected map the outer protected-header bytes encode.
pub open spec fn outer_protected(p: Seq<u8>) -> Option<Seq<(CborV, CborV)>> {
    match decoded_unique(p) {
        Some(CborV::Entries(m)) => Some(m),
        _ => None,
    }
}

/// Whether a `crit` label of the outer statement is understood.
pub open spec fn outer_crit_understood(label: CborV) -> bool {
    label matches CborV::Integer(n) && (n == 1 || n == 15 || n == 394)
}

/// The problem with the `i`-th outer `crit` label, if any.
pub open spec fn outer_crit_problem(c: Seq<CborV>, i: int, p: Seq<(CborV, CborV)>) -> Option<&'static str> {
    if !is_label(c[i]) || (exists|j: int| 0 <= j < i && cbor_equal(#[trigger] c[j], c[i])) || c[i] == CborV::Integer(2) {
        Some("crit_label")
    } else if !key_present(p, c[i]) {
        Some("crit_reference_absent")
    } else {
        None
    }
}

/// Checks outer `crit` labels from index `i` on: whether one is not
/// understood, or the first problem.
pub open spec fn outer_crit_scan(c: Seq<CborV>, p: Seq<(CborV, CborV)>, i: int) -> Result<bool, &'static str>
    decreases c.len() - i,
{
    if i < 0 || i >= c.len() {
        Ok(false)
    } else {
        match outer_crit_problem(c, i, p) {
            Some(code) => Err(code),
            None => match outer_crit_scan(c, p, i + 1) {
                Err(code) => Err(code),
                Ok(unknown) => Ok(unknown || !outer_crit_understood(c[i])),
            },
        }
    }
}

/// The outer `crit` header: whether it names a label outside the
/// implemented semantics, or the problem with it.
pub open spec fn outer_crit_outcome(p: Seq<(CborV, CborV)>) -> Result<bool, &'static str> {
    match entry_value(p, 2) {
        None => Ok(false),
        Some(CborV::Array(c)) => if c.len() == 0 { Err("crit_empty") } else { outer_crit_scan(c, p, 0) },
        Some(_) => Err("crit_type"),
    }
}

/// Whether an attached-receipts value is a nonempty array of at most `max`
/// byte strings.
pub open spec fn receipt_array_ok(v: CborV, max: int) -> bool {
    v matches CborV::Array(a) && 0 < a.len() <= max && forall|i: int| 0 <= i < a.len() ==> (#[trigger] a[i]) is Bytes
}

/// The byte strings of an attached-receipts array.
pub open spec fn receipt_array_bytes(v: CborV) -> Seq<Seq<u8>> {
    match v {
        CborV::Array(a) => Seq::new(a.len(), |i: int| bytes_of(a[i])),
        _ => Seq::empty(),
    }
}

/// The text under `key` of a map, if it is text.
pub open spec fn text_entry(m: Seq<(CborV, CborV)>, key: int) -> Option<Seq<char>> {
    match entry_value(m, key) {
        Some(CborV::Text(t)) => Some(t),
        _ => None,
    }
}

/// The limits an outer statement is scanned under: the defaults, with the
/// policy's statement byte limit in place of the Receipt byte limit.
pub open spec fn outer_limits(policy: TransparentStatementPolicy) -> InspectionLimits {
    InspectionLimits { max_receipt_bytes: policy.max_statement_bytes, ..InspectionLimits::defaults() }
}

/// The role the outer item is scanned in: a tagged envelope when its first
/// head is a tag, a bare `COSE_Sign1` otherwise.
pub open spec fn outer_role(bytes: Seq<u8>) -> Role {
    if bytes.len() > 0 && bytes[0] / 32 == 6 { Role::Envelope } else { Role::Sign1 }
}

/// Whether an outer statement passes every step of its inspection: the
/// outer and protected scans (the item count running on from the first to
/// the second), the duplicate-free decodings, the four-element shape, the
/// header rules, the `crit` rules and the receipt container.
pub open spec fn outer_accepted(bytes: Seq<u8>, policy: TransparentStatementPolicy) -> bool {
    let l = outer_limits(policy);
    &&& scan_accepts(bytes, 0, outer_role(bytes), l, 0)
    &&& outer_parts(bytes) matches Some((p, u, m, s))
    &&& scan_accepts(p, 2, Role::ProtectedMap, l, items_after_scan(bytes, 0, outer_role(bytes), l, 0))
    &&& outer_protected(p) matches Some(pm)
    &&& labels_ok(pm)
    &&& labels_ok(u)
    &&& !(entry_value(pm, 15) is Some && entry_value(u, 15) is Some)
    &&& entry_value(u, 2) is None
    &&& outer_crit_outcome(pm) is Ok
    &&& (entry_value(effective_headers(pm, u), 394) matches Some(v) ==> receipt_array_ok(v, policy.max_receipts as int))
}

/// Whether encoded outer-statement bytes pass every structure rule under a
/// policy.
pub open spec fn outer_ok(bytes: Seq<u8>, policy: TransparentStatementPolicy) -> bool {
    &&& outer_policy_valid(policy)
    &&& bytes.len() <= policy.max_statement_bytes
    &&& wf_cbor(bytes, 16)
    &&& outer_parts(bytes) matches Some((p, u, m, s))
    &&& wf_cbor(p, 14)
    &&& outer_protected(p) matches Some(pm)
    &&& labels_ok(pm)
    &&& labels_ok(u)
    &&& !(entry_value(pm, 15) is Some && entry_value(u, 15) is Some)
    &&& entry_value(u, 2) is None
    &&& outer_crit_outcome(pm) is Ok
    &&& (entry_value(effective_headers(pm, u), 394) matches Some(v) ==> receipt_array_ok(v, policy.max_receipts as int))
}


/// The issuer and subject text claims of the outer protected map, when
/// both are present and well formed.
pub open spec fn outer_claims(pm: Seq<(CborV, CborV)>) -> Option<(Seq<char>, Seq<char>)> {
    match entry_value(pm, 15) {
        Some(CborV::Entries(c)) => match (text_entry(c, 1), text_entry(c, 2)) {
            (Some(iss), Some(sub)) => if string_or_uri_spec(iss) && string_or_uri_spec(sub) { Some((iss, sub)) } else { None },
            _ => None,
        },
        _ => None,
    }
}

/// The support finding of the outer statement: critical semantics outside
/// the implemented ones first, then the algorithm.
pub open spec fn outer_support(pm: Seq<(CborV, CborV)>) -> (InspectionStatus, &'static str) {
    if outer_crit_outcome(pm) == Ok::<bool, &'static str>(true) {
        (InspectionStatus::Unsupported, "outer_critical_semantics")
    } else {
        match int_header(pm, 1) {
            Some(a) => if a == -8 {
                (InspectionStatus::Passed, "ed25519_issuer_supported")
            } else {
                (InspectionStatus::Unsupported, "issuer_algorithm")
            },
            None => (InspectionStatus::Failed, "protected_algorithm_required"),
        }
    }
}

/// The required-claims finding of the outer statement.
pub open spec fn outer_required_claims(pm: Seq<(CborV, CborV)>) -> (InspectionStatus, &'static str) {
    if int_header(pm, 1) is None {
        (InspectionStatus::Failed, "protected_algorithm_required")
    } else if outer_claims(pm) is Some {
        (InspectionStatus::Passed, "text_claim_types_not_semantic_binding")
    } else {
        (InspectionStatus::Failed, "protected_text_claims_required")
    }
}

/// The model of an optional owned string.
pub open spec fn opt_text(s: Option<String>) -> Option<Seq<char>> {
    match s {
        Some(t) => Some(t@),
        None => None,
    }
}

/// What a report over structurally sound outer-statement bytes holds.
pub open spec fn outer_content(r: OuterStatementReport, bytes: Seq<u8>, policy: TransparentStatementPolicy) -> bool {
    let (p, u, m, s) = outer_parts(bytes).unwrap();
    let pm = outer_protected(p).unwrap();
    let eff = effective_headers(pm, u);
    &&& opt_bytes(r.protected_bytes) == Some(p)
    &&& opt_bytes(r.payload_bytes) == Some(m)
    &&& opt_bytes(r.signature_bytes) == Some(s)
    &&& view_entries(r.effective_headers@) == eff
    &&& (match r.algorithm { Some(a) => Some(a as int), None => None::<int> }) == int_header(pm, 1)
    &&& opt_text(r.protected_content_type) == text_entry(pm, 3)
    &&& r.support.status == outer_support(pm).0 && r.support.code == outer_support(pm).1
    &&& r.required_claims.status == outer_required_claims(pm).0 && r.required_claims.code == outer_required_claims(pm).1
    &&& (match outer_claims(pm) {
        Some((iss, sub)) => r.claims matches Some(c) && c.issuer@ == iss && c.subject@ == sub && !c.authenticated,
        None => r.claims is None,
    })
    &&& (match entry_value(eff, 394) {
        None => r.container == ReceiptContainerState::Absent && r.receipts@.len() == 0,
        Some(v) => r.container == ReceiptContainerState::Present
            && Seq::new(r.receipts@.len(), |i: int| r.receipts@[i]@) == receipt_array_bytes(v),
    })
    &&& (policy.strict_cross_map && maps_overlap(pm, u)) ==> finding_is(r.selected_policy, InspectionStatus::Failed, "cross_map_overlap")
    &&& !(policy.strict_cross_map && maps_overlap(pm, u)) ==> finding_is(r.selected_policy, InspectionStatus::Passed, "bounded_outer_policy")
}

fn outer_crit_check(p: &[(CborValue, CborValue)]) -> (r: Result<bool, &'static str>)
    ensures
        r == outer_crit_outcome(view_entries(p@)),
{
    let ghost pv = view_entries(p@);
    let crit = match get(p, 2) {
        None => return Ok(false),
        Some(c) => c,
    };
    let c = match crit {
        CborValue::Array(c) => c,
        _ => return Err("crit_type"),
    };
    let ghost cv = view_items(c@);
    proof { lemma_view_items(c@); }
    if c.len() == 0 {
        return Err("crit_empty");
    }
    let ghost whole = outer_crit_outcome(pv);
    assert(whole == outer_crit_scan(cv, pv, 0));
    let mut unknown = false;
    let mut i: usize = 0;
    while i < c.len()
        invariant
            i <= c@.len(),
            pv == view_entries(p@),
            cv == view_items(c@),
            cv.len() == c@.len(),
            forall|k: int| 0 <= k < c@.len() ==> #[trigger] cv[k] == c@[k]@,
            whole == outer_crit_outcome(pv),
            whole == (match outer_crit_scan(cv, pv, i as int) {
                Ok(u) => Ok::<bool, &'static str>(unknown || u),
                Err(e) => Err(e),
            }),
        decreases c@.len() - i,
    {
        let label = &c[i];
        assert(cv[i as int] == label@);
        let is_label_exec = match label {
            CborValue::Integer(_) | CborValue::Text(_) => true,
            _ => false,
        };
        let mut dup = false;
        let mut j: usize = 0;
        while j < i
            invariant
                j <= i,
                i < c@.len(),
                cv == view_items(c@),
                cv.len() == c@.len(),
                forall|k: int| 0 <= k < c@.len() ==> #[trigger] cv[k] == c@[k]@,
                dup == exists|k: int| 0 <= k < j && cbor_equal(#[trigger] cv[k], cv[i as int]),
            decreases i - j,
        {
            assert(cv[j as int] == c@[j as int]@);
            if cbor_eq(&c[j], &c[i]) {
                dup = true;
            }
            j = j + 1;
        }
        let is_two = match label {
            CborValue::Integer(n) => *n == 2,
            _ => false,
        };
        if !is_label_exec || dup || is_two {
            return Err("crit_label");
        }
        if !key_present_exec(p, label) {
            return Err("crit_reference_absent");
        }
        let understood = match label {
            CborValue::Integer(n) => *n == 1 || *n == 15 || *n == 394,
            _ => false,
        };
        if !understood {
            unknown = true;
        }
        i = i + 1;
    }
    Ok(unknown)
}

/// The text under `key` of a map, when it is text.
fn text_of<'a>(m: &'a [(CborValue, CborValue)], key: i128) -> (r: Option<&'a String>)
    ensures
        match text_entry(view_entries(m@), key as int) {
            Some(t) => r matches Some(s) && s@ == t,
            None => r is None,
        },
{
    match get(m, key) {
        Some(v) => match v {
            CborValue::Text(t) => Some(t),
            _ => None,
        },
        None => None,
    }
}

fn claims_of(pm: &[(CborValue, CborValue)]) -> (r: Option<UnauthenticatedReceiptClaims>)
    ensures
        match outer_claims(view_entries(pm@)) {
            Some((iss, sub)) => r matches Some(c) && c.issuer@ == iss && c.subject@ == sub && !c.authenticated,
            None => r is None,
        },
{
    let c = match get(pm, 15) {
        Some(v) => match v {
            CborValue::Entries(c) => c,
            _ => return None,
        },
        None => return None,
    };
    let iss = match text_of(c.as_slice(), 1) {
        Some(t) => t,
        None => return None,
    };
    let sub = match text_of(c.as_slice(), 2) {
        Some(t) => t,
        None => return None,
    };
    if string_or_uri(iss.as_str()) && string_or_uri(sub.as_str()) {
        Some(UnauthenticatedReceiptClaims { issuer: iss.clone(), subject: sub.clone(), authenticated: false })
    } else {
        None
    }
}

/// The byte strings of an attached-receipts value, when it is a nonempty
/// array of at most `max` byte strings.
fn receipt_array(v: &CborValue, max: usize) -> (r: Option<Vec<Vec<u8>>>)
    ensures
        receipt_array_ok(v@, max as int) <==> r is Some,
        r matches Some(out) ==> Seq::new(out@.len(), |i: int| out@[i]@) == receipt_array_bytes(v@),
{
    let a = match v {
        CborValue::Array(a) => a,
        _ => return None,
    };
    let ghost av = view_items(a@);
    proof { lemma_view_items(a@); }
    if a.len() == 0 || a.len() > max {
        return None;
    }
    let mut out: Vec<Vec<u8>> = Vec::new();
    let mut i: usize = 0;
    while i < a.len()
        invariant
            i <= a@.len(),
            av == view_items(a@),
            av.len() == a@.len(),
            v@ == CborV::Array(av),
            forall|k: int| 0 <= k < a@.len() ==> #[trigger] av[k] == a@[k]@,
            out@.len() == i,
            forall|k: int| 0 <= k < i ==> (#[trigger] av[k]) is Bytes && out@[k]@ == bytes_of(av[k]),
        decreases a@.len() - i,
    {
        assert(av[i as int] == a@[i as int]@);
        match &a[i] {
            CborValue::Bytes(b) => out.push(b.clone()),
            _ => {
                assert(!(av[i as int] is Bytes));
                return None;
            }
        }
        i = i + 1;
    }
    assert(Seq::new(out@.len(), |k: int| out@[k]@) =~= receipt_array_bytes(v@));
    Some(out)
}


/// The fields an outer inspection never changes.
pub open spec fn outer_frame(a: OuterStatementReport, b: OuterStatementReport) -> bool {
    a.encoded_statement == b.encoded_statement && a.policy == b.policy
}

/// An outer report before inspection.
pub open spec fn fresh_outer(r: OuterStatementReport) -> bool {
    &&& r.protected_bytes is None
    &&& r.payload_bytes is None
    &&& r.signature_bytes is None
    &&& r.effective_headers@.len() == 0
    &&& r.claims is None
    &&& r.algorithm is None
    &&& r.protected_content_type is None
    &&& finding_is(r.structure, InspectionStatus::NotEvaluated, "prerequisite_not_established")
    &&& finding_is(r.required_claims, InspectionStatus::NotEvaluated, "prerequisite_not_established")
    &&& finding_is(r.support, InspectionStatus::NotEvaluated, "prerequisite_not_established")
    &&& finding_is(r.selected_policy, InspectionStatus::Passed, "bounded_outer_policy")
    &&& r.container == ReceiptContainerState::NotExamined
    &&& r.receipts@.len() == 0
}

fn outer_first_byte_major(bytes: &[u8]) -> (r: bool)
    ensures
        r == (bytes@.len() > 0 && bytes@[0] / 32 == 6),
{
    bytes.len() > 0 && bytes[0] / 32 == 6
}

#[verifier::rlimit(80)]
fn inspect_outer(r: &mut OuterStatementReport) -> (res: Result<(), &'static str>)
    requires
        fresh_outer(*old(r)),
    ensures
        outer_frame(*old(r), *final(r)),
        !outer_policy_valid(old(r).policy) ==> res == Err::<(), &'static str>("outer_policy_limit")
            && finding_is(final(r).selected_policy, InspectionStatus::Failed, "invalid_outer_limits"),
        (outer_policy_valid(old(r).policy) && old(r).encoded_statement@.len() > old(r).policy.max_statement_bytes)
            ==> res == Err::<(), &'static str>("outer_byte_limit"),
        res is Ok ==> finding_is(final(r).structure, InspectionStatus::Passed, "outer_structure_inspected")
            && outer_ok(old(r).encoded_statement@, old(r).policy)
            && outer_content(*final(r), old(r).encoded_statement@, old(r).policy),
        res is Err ==> final(r).structure == old(r).structure,
        (outer_policy_valid(old(r).policy) && old(r).encoded_statement@.len() <= old(r).policy.max_statement_bytes)
            ==> (res is Ok <==> outer_accepted(old(r).encoded_statement@, old(r).policy)),
        (outer_policy_valid(old(r).policy) && old(r).encoded_statement@.len() <= old(r).policy.max_statement_bytes
            && !scan_accepts(old(r).encoded_statement@, 0, outer_role(old(r).encoded_statement@), outer_limits(old(r).policy), 0))
            ==> res == Err::<(), &'static str>("outer_cbor_preflight"),
{
    let pol = r.policy;
    if pol.max_statement_bytes == 0 || pol.max_statement_bytes > 1_048_576 || pol.max_receipts == 0 || pol.max_receipts > 8 {
        r.selected_policy = fail("invalid_outer_limits");
        return Err("outer_policy_limit");
    }
    if r.encoded_statement.len() > pol.max_statement_bytes {
        return Err("outer_byte_limit");
    }
    let d = InspectionLimits::default();
    let limits = InspectionLimits { max_receipt_bytes: pol.max_statement_bytes, ..d };
    let mut budget = Budget { limits: &limits, items: 0, unprotected_x5t_invalid: false };
    let role = if outer_first_byte_major(r.encoded_statement) { Role::Envelope } else { Role::Sign1 };
    proof {
        assert(limits == outer_limits(pol));
        assert(role == outer_role(r.encoded_statement@));
    }
    if budget.scan(r.encoded_statement, 0, role, "outer_trailing").is_err() {
        return Err("outer_cbor_preflight");
    }
    let value = match decode_unique(r.encoded_statement) {
        Ok(v) => v,
        Err(problem) => {
            if problem.code == "duplicate_key" {
                return Err("duplicate_key");
            }
            return Err("outer_cbor");
        }
    };
    let inner: &CborValue = match &value {
        CborValue::Tag(t, b) => {
            let bi: &CborValue = &**b;
            assert(value@ == CborV::Tag(*t, Box::new(bi@)));
            if *t == 18 { bi } else { &value }
        }
        _ => &value,
    };
    let items = match inner {
        CborValue::Array(items) => items,
        _ => return Err("outer_shape"),
    };
    proof { lemma_view_items(items@); }
    if items.len() != 4 {
        return Err("outer_shape");
    }
    let (protected, u, payload, signature) = match (&items[0], &items[1], &items[2], &items[3]) {
        (CborValue::Bytes(p), CborValue::Entries(u), CborValue::Bytes(m), CborValue::Bytes(s)) => (p, u, m, s),
        _ => return Err("outer_shape"),
    };
    if budget.scan(protected.as_slice(), 2, Role::ProtectedMap, "protected_trailing").is_err() {
        return Err("protected_cbor_preflight");
    }
    let protected_map = match decode_unique(protected.as_slice()) {
        Ok(v) => v,
        Err(problem) => {
            if problem.code == "duplicate_key" {
                return Err("duplicate_key");
            }
            return Err("protected_cbor");
        }
    };
    let pm = match &protected_map {
        CborValue::Entries(pm) => pm,
        _ => return Err("protected_not_map"),
    };
    let ghost pv = view_entries(pm@);
    let ghost uv = view_entries(u@);
    if labels(pm.as_slice()).is_err() || labels(u.as_slice()).is_err() {
        return Err("header_label_type");
    }
    if get(pm.as_slice(), 15).is_some() && get(u.as_slice(), 15).is_some() {
        return Err("label15_single_occurrence");
    }
    if get(u.as_slice(), 2).is_some() {
        return Err("crit_location");
    }
    if r.policy.strict_cross_map && overlap_exec(pm.as_slice(), u.as_slice()) {
        r.selected_policy = fail("cross_map_overlap");
    }
    r.protected_bytes = Some(protected.clone());
    r.payload_bytes = Some(payload.clone());
    r.signature_bytes = Some(signature.clone());
    r.effective_headers = merge_headers(pm.as_slice(), u.as_slice());
    r.algorithm = integer_of(get(pm.as_slice(), 1));
    r.protected_content_type = match text_of(pm.as_slice(), 3) {
        Some(t) => Some(t.clone()),
        None => None,
    };
    r.support = match r.algorithm {
        Some(a) => if a == -8 { pass("ed25519_issuer_supported") } else { f(InspectionStatus::Unsupported, "issuer_algorithm") },
        None => fail("protected_algorithm_required"),
    };
    let critical_unknown = outer_crit_check(pm.as_slice())?;
    if critical_unknown {
        r.support = f(InspectionStatus::Unsupported, "outer_critical_semantics");
    }
    r.required_claims = fail("protected_text_claims_required");
    r.claims = claims_of(pm.as_slice());
    if r.claims.is_some() {
        r.required_claims = pass("text_claim_types_not_semantic_binding");
    }
    if r.algorithm.is_none() {
        r.required_claims = fail("protected_algorithm_required");
    }
    match get(r.effective_headers.as_slice(), 394) {
        None => {
            r.container = ReceiptContainerState::Absent;
        }
        Some(v) => {
            match receipt_array(v, r.policy.max_receipts) {
                Some(receipts) => {
                    r.container = ReceiptContainerState::Present;
                    r.receipts = receipts;
                }
                None => {
                    r.container = ReceiptContainerState::Malformed;
                    return Err("receipt_container_malformed_or_limit");
                }
            }
        }
    }
    r.structure = pass("outer_structure_inspected");
    proof {
        assert(outer_parts(r.encoded_statement@) == Some((protected@, uv, payload@, signature@)));
        assert(outer_protected(protected@) == Some(pv));
    }
    Ok(())
}

/// Inspects the transmitted object before any candidate derivation or
/// cryptography. Accepts one tag-18 wrapper or the untagged local producer
/// form; the payload must be attached; Receipts must be byte strings.
pub fn inspect_transparent_statement<'a>(bytes: &'a [u8], policy: &TransparentStatementPolicy) -> (r: OuterStatementReport<'a>)
    ensures
        r.encoded_statement == bytes,
        r.policy == *policy,
        !outer_policy_valid(*policy) ==> finding_is(r.structure, InspectionStatus::Failed, "outer_policy_limit")
            && finding_is(r.selected_policy, InspectionStatus::Failed, "invalid_outer_limits"),
        (outer_policy_valid(*policy) && bytes@.len() > policy.max_statement_bytes) ==>
            finding_is(r.structure, InspectionStatus::Failed, "outer_byte_limit"),
        r.structure.status == InspectionStatus::Passed ==> outer_ok(bytes@, *policy) && outer_content(r, bytes@, *policy),
        r.structure.status != InspectionStatus::Passed ==> r.structure.status == InspectionStatus::Failed,
        (outer_policy_valid(*policy) && bytes@.len() <= policy.max_statement_bytes) ==>
            (r.structure.status == InspectionStatus::Passed <==> outer_accepted(bytes@, *policy)),
        (outer_policy_valid(*policy) && bytes@.len() <= policy.max_statement_bytes
            && !scan_accepts(bytes@, 0, outer_role(bytes@), outer_limits(*policy), 0)) ==>
            finding_is(r.structure, InspectionStatus::Failed, "outer_cbor_preflight"),
{
    let mut r = OuterStatementReport {
        encoded_statement: bytes,
        policy: *policy,
        protected_bytes: None,
        payload_bytes: None,
        signature_bytes: None,
        effective_headers: Vec::new(),
        claims: None,
        algorithm: None,
        protected_content_type: None,
        structure: skip(),
        required_claims: skip(),
        support: skip(),
        selected_policy: pass("bounded_outer_policy"),
        container: ReceiptContainerState::NotExamined,
        receipts: Vec::new(),
    };
    match inspect_outer(&mut r) {
        Ok(()) => {}
        Err(code) => r.structure = fail(code),
    }
    r
}


/// Whether a provenance is a caller-authenticated binding with bounded,
/// nonempty authority and evidence reference.
pub open spec fn authenticated_spec(p: BindingProvenance) -> bool {
    p matches BindingProvenance::CallerAuthenticated { authority, evidence_ref }
        && bounded_text_spec(authority@) && bounded_text_spec(evidence_ref@)
}

fn authenticated(p: BindingProvenance) -> (r: bool)
    ensures
        r == authenticated_spec(p),
{
    match p {
        BindingProvenance::CallerAuthenticated { authority, evidence_ref } => bounded_text(authority) && bounded_text(evidence_ref),
        _ => false,
    }
}

/// Whether a provenance's texts are at most 8192 bytes.
pub open spec fn bounded_provenance_spec(p: BindingProvenance) -> bool {
    match p {
        BindingProvenance::Missing => true,
        BindingProvenance::Unauthenticated { origin } => origin.len() <= 8192,
        BindingProvenance::CallerAuthenticated { authority, evidence_ref } => authority.len() <= 8192 && evidence_ref.len() <= 8192,
    }
}

fn bounded_provenance(p: BindingProvenance) -> (r: bool)
    ensures
        r == bounded_provenance_spec(p),
{
    match p {
        BindingProvenance::Missing => true,
        BindingProvenance::Unauthenticated { origin } => origin.len() <= 8192,
        BindingProvenance::CallerAuthenticated { authority, evidence_ref } => authority.len() <= 8192 && evidence_ref.len() <= 8192,
    }
}

/// A single explicit issuer verification key and the caller's assertions
/// about it.
#[derive(Debug, Clone)]
pub struct IssuerKeyInput<'a> {
    pub public_key: TsPublicKey<'a>,
    pub algorithm: i64,
    pub issuer: &'a str,
    pub provenance: BindingProvenance<'a>,
    pub origin: TrustInputOrigin,
    pub evaluation_time: Option<i64>,
    pub valid_from: Option<i64>,
    pub valid_until: Option<i64>,
    pub explicitly_distrusted: bool,
}

/// What an expected digest covers.
#[derive(Debug, Clone, Copy, PartialEq, Eq, Structural)]
pub enum DigestTarget {
    CandidateEntrySha256,
    PayloadSha256,
}

/// A caller-supplied expected digest, never inferred from the statement.
#[derive(Debug, Clone)]
pub struct ExpectedDigest<'a> {
    pub target: DigestTarget,
    pub sha256: [u8; 32],
    pub provenance: BindingProvenance<'a>,
    pub origin: TrustInputOrigin,
}

/// An exact subject mapping row, including the service identity.
#[derive(Debug, Clone)]
pub struct SubjectMapping<'a> {
    pub service_identity: &'a str,
    pub receipt_subject: &'a str,
    pub statement_subject: &'a str,
    pub site_id: &'a str,
}

/// How a Receipt subject is related to the statement subject.
#[derive(Debug, Clone)]
pub enum SubjectPolicy<'a> {
    /// No subject correspondence is asked for.
    Unspecified,
    /// Local named convention, not a universal SCITT requirement.
    SharedJsonSiteV1,
    /// The caller asserts the mapping is independently authenticated.
    AuthenticatedMappingV1 { rows: &'a [SubjectMapping<'a>], provenance: BindingProvenance<'a>, origin: TrustInputOrigin },
}

/// The named software-only JSON-site application policy.
#[derive(Debug, Clone, Copy)]
pub enum StatementApplicationPolicy {
    /// No application profile is asked for.
    Unspecified,
    SignedJsonSiteV1 { require_subject: bool, require_all_receipts: bool, require_authenticated_digest: bool },
}

/// The explicit caller inputs of a statement verification.
#[derive(Debug)]
pub struct StatementVerificationInputs<'a> {
    pub issuer: Option<&'a IssuerKeyInput<'a>>,
    pub services: &'a TsTrustContext<'a>,
    pub expected_digest: Option<&'a ExpectedDigest<'a>>,
    pub subject: SubjectPolicy<'a>,
    pub application: StatementApplicationPolicy,
}

/// The findings for one attached Receipt.
#[derive(Debug)]
pub struct StatementReceiptOutcome {
    pub index: usize,
    pub encoded_receipt: Vec<u8>,
    pub structure: InspectionFinding,
    pub required_claims: InspectionFinding,
    pub support: InspectionFinding,
    pub selected_policy: InspectionFinding,
    pub claims: Option<UnauthenticatedReceiptClaims>,
    pub candidate_derivation: InspectionFinding,
    pub key_configuration: Vec<InspectionFinding>,
    pub candidate_keys: Vec<VerifyingKeyEvidence>,
    pub proofs: Vec<ProofVerification>,
    pub signature_attempts: usize,
    pub ts_signature: InspectionFinding,
    pub inclusion: InspectionFinding,
    pub ts_key_association: InspectionFinding,
    pub ts_identity_trust: InspectionFinding,
    pub acceptable_for_registration: InspectionFinding,
    pub subject_policy: InspectionFinding,
}

/// The report over one Transparent Statement.
pub struct TransparentStatementReport<'a> {
    pub outer: OuterStatementReport<'a>,
    pub inputs: &'a StatementVerificationInputs<'a>,
    pub policy_id: &'static str,
    pub candidate_entry: Option<Vec<u8>>,
    pub candidate_derivation: InspectionFinding,
    pub digest_equality: InspectionFinding,
    pub digest_origin: InspectionFinding,
    pub issuer_signature: InspectionFinding,
    pub actual_issuer_key: Option<[u8; 32]>,
    pub issuer_key_association: InspectionFinding,
    pub issuer_identity_trust: InspectionFinding,
    pub payload_context: InspectionFinding,
    pub application_profile: InspectionFinding,
    pub included_site_id: Option<String>,
    pub receipts: Vec<StatementReceiptOutcome>,
    pub acceptable_receipt_indices: Vec<usize>,
    pub registration_evidence: InspectionFinding,
    pub subject_policy: InspectionFinding,
    pub application_policy: InspectionFinding,
    pub hardware_appraisal: InspectionFinding,
    pub overall_profile: InspectionFinding,
}

/// A (status, code) pair.
pub open spec fn pair_of(f: InspectionFinding) -> (InspectionStatus, &'static str) {
    (f.status, f.code)
}

/// The (equality, origin) findings for an expected digest over the bytes it
/// targets.
pub open spec fn digest_outcome(d: ExpectedDigest, target_bytes: Seq<u8>) -> ((InspectionStatus, &'static str), (InspectionStatus, &'static str)) {
    (
        if sha256_spec(target_bytes) == d.sha256@ {
            (InspectionStatus::Passed, "explicit_expected_digest_equal")
        } else {
            (InspectionStatus::Failed, "expected_digest_mismatch")
        },
        if authenticated_spec(d.provenance) && d.origin == TrustInputOrigin::CallerAuthenticatedExternal {
            (InspectionStatus::Passed, "digest_origin_caller_assertion")
        } else {
            (InspectionStatus::Unestablished, "digest_equality_not_authenticated_origin")
        },
    )
}

/// The issuer findings for an issuer key over an inspected outer statement:
/// (signature, actual key, key association, identity trust); `None` entries
/// keep their initial values.
pub open spec fn issuer_outcome(k: IssuerKeyInput, outer: OuterStatementReport) -> (
    Option<(InspectionStatus, &'static str)>, Option<[u8; 32]>, Option<(InspectionStatus, &'static str)>, Option<(InspectionStatus, &'static str)>,
) {
    if !bounded_text_spec(k.issuer@) || !bounded_provenance_spec(k.provenance) {
        (None, None, Some((InspectionStatus::Failed, "issuer_input_limit")), None)
    } else if outer.support.status != InspectionStatus::Passed {
        (Some(pair_of(outer.support)), None, None, None)
    } else if outer.algorithm != Some(k.algorithm as i128) {
        (Some((InspectionStatus::Failed, "issuer_algorithm_key_mismatch")), None, None, None)
    } else {
        match k.public_key {
            TsPublicKey::Unsupported { .. } => (Some((InspectionStatus::Unsupported, "issuer_key_type")), None, None, None),
            TsPublicKey::Ed25519(key) => {
                let sig = opt_bytes(outer.signature_bytes).unwrap();
                let valid = sig.len() == 64 && match cbor_written(sig_structure(opt_bytes(outer.protected_bytes).unwrap(), opt_bytes(outer.payload_bytes).unwrap())) {
                    Some(message) => ed25519_strictly_accepts(key@, message, sig),
                    None => false,
                };
                if !valid {
                    (Some((InspectionStatus::Failed, "issuer_signature_invalid")), None, None, None)
                } else {
                    let bound = outer.claims matches Some(c) && c.issuer@ == k.issuer@ && authenticated_spec(k.provenance);
                    let association = if bound {
                        (InspectionStatus::Passed, "actual_issuer_key_caller_authenticated_binding")
                    } else {
                        (InspectionStatus::Unestablished, "issuer_binding_provenance_missing_or_mismatched")
                    };
                    let trust = if k.explicitly_distrusted {
                        (InspectionStatus::Failed, "issuer_key_explicitly_distrusted")
                    } else if !bound {
                        (InspectionStatus::Unestablished, "issuer_binding_unestablished")
                    } else if !(k.evaluation_time matches Some(now) && k.valid_from matches Some(from) && k.valid_until matches Some(until)
                        && from < until && now >= from && now < until) {
                        (InspectionStatus::Unestablished, "issuer_validity_not_established")
                    } else if k.origin == TrustInputOrigin::LocalSimulation {
                        (InspectionStatus::Unestablished, "issuer_local_simulation_only")
                    } else {
                        (InspectionStatus::Passed, "issuer_trust_conditional_on_caller_origin")
                    };
                    (Some((InspectionStatus::Passed, "issuer_signature_exact_bytes")), Some(key), Some(association), Some(trust))
                }
            },
        }
    }
}

/// The pair of an optional finding.
pub open spec fn opt_pair(o: Option<InspectionFinding>) -> Option<(InspectionStatus, &'static str)> {
    match o {
        Some(f) => Some(pair_of(f)),
        None => None,
    }
}

/// The digest findings for an expected digest over the bytes it targets.
fn check_digest(d: &ExpectedDigest, target: &[u8]) -> (r: (InspectionFinding, InspectionFinding))
    ensures
        (pair_of(r.0), pair_of(r.1)) == digest_outcome(*d, target@),
{
    let actual = sha256(target);
    let equal = crate::cbor::bytes_eq(&actual, &d.sha256);
    proof {
        if equal {
            assert(actual@ =~= d.sha256@);
        } else {
            assert(actual@ != d.sha256@);
        }
    }
    let equality = if equal { pass("explicit_expected_digest_equal") } else { fail("expected_digest_mismatch") };
    let origin = if authenticated(d.provenance) && d.origin == TrustInputOrigin::CallerAuthenticatedExternal {
        pass("digest_origin_caller_assertion")
    } else {
        unset("digest_equality_not_authenticated_origin")
    };
    (equality, origin)
}

/// The issuer findings for one explicit issuer key over an inspected outer
/// statement. A `Sig_structure` that cannot be encoded counts as a signature
/// that does not verify.
fn check_issuer(k: &IssuerKeyInput, outer: &OuterStatementReport) -> (r: (Option<InspectionFinding>, Option<[u8; 32]>, Option<InspectionFinding>, Option<InspectionFinding>))
    requires
        outer.protected_bytes is Some,
        outer.payload_bytes is Some,
        outer.signature_bytes is Some,
    ensures
        (opt_pair(r.0), r.1, opt_pair(r.2), opt_pair(r.3)) == issuer_outcome(*k, *outer),
{
    if !bounded_text(k.issuer) || !bounded_provenance(k.provenance) {
        return (None, None, Some(fail("issuer_input_limit")), None);
    }
    if outer.support.status != InspectionStatus::Passed {
        return (Some(outer.support.duplicate()), None, None, None);
    }
    let matches_algorithm = match outer.algorithm {
        Some(a) => a == k.algorithm as i128,
        None => false,
    };
    if !matches_algorithm {
        return (Some(fail("issuer_algorithm_key_mismatch")), None, None, None);
    }
    let key = match k.public_key {
        TsPublicKey::Ed25519(key) => key,
        TsPublicKey::Unsupported { .. } => {
            return (Some(f(InspectionStatus::Unsupported, "issuer_key_type")), None, None, None);
        }
    };
    let protected = match &outer.protected_bytes { Some(b) => b, None => { return (None, None, None, None); } };
    let payload = match &outer.payload_bytes { Some(b) => b, None => { return (None, None, None, None); } };
    let signature = match &outer.signature_bytes { Some(b) => b, None => { return (None, None, None, None); } };
    let valid = if signature.len() == 64 {
        match encode_sig_structure(protected.as_slice(), payload.as_slice()) {
            Some(message) => ed25519_verify_strict(&key, message.as_slice(), signature.as_slice()),
            None => false,
        }
    } else {
        false
    };
    if !valid {
        return (Some(fail("issuer_signature_invalid")), None, None, None);
    }
    let bound = match &outer.claims {
        Some(c) => str_eq(c.issuer.as_str(), k.issuer) && authenticated(k.provenance),
        None => false,
    };
    let association = if bound {
        pass("actual_issuer_key_caller_authenticated_binding")
    } else {
        unset("issuer_binding_provenance_missing_or_mismatched")
    };
    let current = match (k.evaluation_time, k.valid_from, k.valid_until) {
        (Some(now), Some(from), Some(until)) => from < until && now >= from && now < until,
        _ => false,
    };
    let trust = if k.explicitly_distrusted {
        fail("issuer_key_explicitly_distrusted")
    } else if !bound {
        unset("issuer_binding_unestablished")
    } else if !current {
        unset("issuer_validity_not_established")
    } else if k.origin == TrustInputOrigin::LocalSimulation {
        unset("issuer_local_simulation_only")
    } else {
        pass("issuer_trust_conditional_on_caller_origin")
    };
    (Some(pass("issuer_signature_exact_bytes")), Some(key), Some(association), Some(trust))
}

/// Whether every text of a mapping row is nonempty and bounded.
pub open spec fn row_bounded(x: SubjectMapping) -> bool {
    bounded_text_spec(x.service_identity@) && bounded_text_spec(x.receipt_subject@)
        && bounded_text_spec(x.statement_subject@) && bounded_text_spec(x.site_id@)
}

/// Whether a mapping row's source is the given service identity and Receipt
/// subject.
pub open spec fn row_source(x: SubjectMapping, issuer: Seq<char>, subject: Seq<char>) -> bool {
    x.service_identity@ == issuer && x.receipt_subject@ == subject
}

/// The index of the first row from `i` on whose source is given.
pub open spec fn first_source(rows: Seq<SubjectMapping>, issuer: Seq<char>, subject: Seq<char>, i: int) -> Option<int>
    decreases rows.len() - i,
{
    if i < 0 || i >= rows.len() {
        None
    } else if row_source(rows[i], issuer, subject) {
        Some(i)
    } else {
        first_source(rows, issuer, subject, i + 1)
    }
}

/// The subject finding under an authenticated mapping: one exact source
/// identity and subject must have one deterministic target.
pub open spec fn mapping_outcome(
    rows: Seq<SubjectMapping>,
    provenance: BindingProvenance,
    origin: TrustInputOrigin,
    issuer: Seq<char>,
    receipt_subject: Seq<char>,
    statement_subject: Seq<char>,
    site: Seq<char>,
) -> (InspectionStatus, &'static str) {
    if rows.len() > 64 || exists|i: int| 0 <= i < rows.len() && !row_bounded(#[trigger] rows[i]) {
        (InspectionStatus::Failed, "subject_mapping_limit")
    } else if rows.len() == 0 || !authenticated_spec(provenance) || origin != TrustInputOrigin::CallerAuthenticatedExternal {
        (InspectionStatus::Unestablished, "authenticated_mapping_missing")
    } else {
        match first_source(rows, issuer, receipt_subject, 0) {
            None => (InspectionStatus::Unestablished, "authenticated_mapping_missing"),
            Some(f) => if exists|j: int| f < j < rows.len() && row_source(#[trigger] rows[j], issuer, receipt_subject)
                && (rows[j].statement_subject@ != rows[f].statement_subject@ || rows[j].site_id@ != rows[f].site_id@) {
                (InspectionStatus::Failed, "ambiguous_subject_mapping")
            } else if rows[f].statement_subject@ == statement_subject && rows[f].site_id@ == site {
                (InspectionStatus::Passed, "authenticated_mapping_v1_exact_correspondence")
            } else {
                (InspectionStatus::Failed, "mapping_contradiction")
            },
        }
    }
}

/// The subject finding for one Receipt's claims against the statement's
/// claims and its included site identifier.
pub open spec fn subject_outcome(
    policy: SubjectPolicy,
    statement: Option<UnauthenticatedReceiptClaims>,
    receipt: Option<UnauthenticatedReceiptClaims>,
    site: Option<Seq<char>>,
) -> (InspectionStatus, &'static str) {
    if policy is Unspecified {
        (InspectionStatus::Unestablished, "subject_convention_absent")
    } else {
        match (statement, receipt, site) {
            (Some(st), Some(rc), Some(s)) => match policy {
                SubjectPolicy::AuthenticatedMappingV1 { rows, provenance, origin } =>
                    mapping_outcome(rows@, provenance, origin, rc.issuer@, rc.subject@, st.subject@, s),
                _ => if rc.subject@ == st.subject@ && st.subject@ == s {
                    (InspectionStatus::Passed, "shared_json_site_v1_exact_correspondence")
                } else {
                    (InspectionStatus::Failed, "shared_json_site_v1_contradiction")
                },
            },
            _ => (InspectionStatus::Unestablished, "typed_subject_context_missing"),
        }
    }
}

fn source_is(x: &SubjectMapping, issuer: &str, subject: &str) -> (r: bool)
    ensures
        r == row_source(*x, issuer@, subject@),
{
    str_eq(x.service_identity, issuer) && str_eq(x.receipt_subject, subject)
}

fn row_bounded_exec(x: &SubjectMapping) -> (r: bool)
    ensures
        r == row_bounded(*x),
{
    bounded_text(x.service_identity) && bounded_text(x.receipt_subject) && bounded_text(x.statement_subject)
        && bounded_text(x.site_id)
}

fn mapping_finding(
    rows: &[SubjectMapping],
    provenance: BindingProvenance,
    origin: TrustInputOrigin,
    issuer: &str,
    receipt_subject: &str,
    statement_subject: &str,
    site: &str,
) -> (r: InspectionFinding)
    ensures
        pair_of(r) == mapping_outcome(rows@, provenance, origin, issuer@, receipt_subject@, statement_subject@, site@),
{
    if rows.len() > 64 {
        return fail("subject_mapping_limit");
    }
    let mut i: usize = 0;
    while i < rows.len()
        invariant
            i <= rows@.len(),
            forall|j: int| 0 <= j < i ==> row_bounded(#[trigger] rows@[j]),
        decreases rows@.len() - i,
    {
        if !row_bounded_exec(&rows[i]) {
            return fail("subject_mapping_limit");
        }
        i = i + 1;
    }
    if rows.len() == 0 || !authenticated(provenance) || origin != TrustInputOrigin::CallerAuthenticatedExternal {
        return unset("authenticated_mapping_missing");
    }
    let ghost r = rows@;
    let mut first: usize = 0;
    while first < rows.len() && !source_is(&rows[first], issuer, receipt_subject)
        invariant
            first <= rows@.len(),
            r == rows@,
            first_source(r, issuer@, receipt_subject@, 0) == first_source(r, issuer@, receipt_subject@, first as int),
        decreases rows@.len() - first,
    {
        first = first + 1;
    }
    if first == rows.len() {
        return unset("authenticated_mapping_missing");
    }
    assert(first_source(r, issuer@, receipt_subject@, first as int) == Some(first as int));
    let mut j: usize = first + 1;
    while j < rows.len()
        invariant
            first < j <= rows@.len(),
            r == rows@,
            r.len() <= 64,
            forall|m: int| 0 <= m < r.len() ==> row_bounded(#[trigger] r[m]),
            r.len() > 0 && authenticated_spec(provenance) && origin == TrustInputOrigin::CallerAuthenticatedExternal,
            first_source(r, issuer@, receipt_subject@, 0) == Some(first as int),
            forall|m: int| first < m < j ==> !(row_source(#[trigger] r[m], issuer@, receipt_subject@)
                && (r[m].statement_subject@ != r[first as int].statement_subject@ || r[m].site_id@ != r[first as int].site_id@)),
        decreases rows@.len() - j,
    {
        if str_eq(rows[j].service_identity, issuer) && str_eq(rows[j].receipt_subject, receipt_subject)
            && (!str_eq(rows[j].statement_subject, rows[first].statement_subject) || !str_eq(rows[j].site_id, rows[first].site_id)) {
            assert(row_source(r[j as int], issuer@, receipt_subject@));
            return fail("ambiguous_subject_mapping");
        }
        j = j + 1;
    }
    if str_eq(rows[first].statement_subject, statement_subject) && str_eq(rows[first].site_id, site) {
        pass("authenticated_mapping_v1_exact_correspondence")
    } else {
        fail("mapping_contradiction")
    }
}

/// The subject finding for one Receipt (see `subject_outcome`).
fn subject_finding(
    policy: &SubjectPolicy,
    statement: &Option<UnauthenticatedReceiptClaims>,
    receipt: &Option<UnauthenticatedReceiptClaims>,
    site: &Option<String>,
) -> (r: InspectionFinding)
    ensures
        pair_of(r) == subject_outcome(*policy, *statement, *receipt, opt_text(*site)),
{
    if let SubjectPolicy::Unspecified = policy {
        return unset("subject_convention_absent");
    }
    match (statement, receipt, site) {
        (Some(st), Some(rc), Some(s)) => match policy {
            SubjectPolicy::AuthenticatedMappingV1 { rows, provenance, origin } =>
                mapping_finding(rows, *provenance, *origin, rc.issuer.as_str(), rc.subject.as_str(), st.subject.as_str(), s.as_str()),
            _ => if str_eq(rc.subject.as_str(), st.subject.as_str()) && str_eq(st.subject.as_str(), s.as_str()) {
                pass("shared_json_site_v1_exact_correspondence")
            } else {
                fail("shared_json_site_v1_contradiction")
            },
        },
        _ => unset("typed_subject_context_missing"),
    }
}

/// The included site identifier of a payload under the local context
/// convention: canonical JSON (its canonical form is the payload itself)
/// whose `site.id` member is a bounded, nonempty string.
pub open spec fn site_context(payload: Seq<u8>) -> Option<Seq<char>> {
    match json_parse(payload) {
        Some(v) => if jcs(v) == Some(payload) {
            match json_get(v, "site"@) {
                Some(site) => match json_get(site, "id"@) {
                    Some(JsonV::Str(id)) => if bounded_text_spec(id) { Some(id) } else { None },
                    _ => None,
                },
                None => None,
            }
        } else {
            None
        },
        None => None,
    }
}

/// The included site identifier of a payload (see `site_context`).
fn site_id_of(payload: &[u8]) -> (r: Option<String>)
    ensures
        opt_text(r) == site_context(payload@),
{
    let canonical = match canonicalize_json(payload) {
        Ok(c) => c,
        Err(_) => {
            return None;
        }
    };
    if !crate::cbor::bytes_eq(canonical.as_slice(), payload) {
        return None;
    }
    proof {
        assert(canonical@ =~= payload@);
    }
    let value = match parse_json(payload) {
        Ok(v) => v,
        Err(_) => {
            return None;
        }
    };
    let site = match get_member(&value, "site") {
        Some(s) => s,
        None => {
            return None;
        }
    };
    match get_member(site, "id") {
        Some(JsonValue::Str(id)) => if bounded_text(id.as_str()) { Some(id.clone()) } else { None },
        _ => None,
    }
}

/// The issuer text of optional claims, or the empty text.
pub open spec fn claims_issuer(c: Option<UnauthenticatedReceiptClaims>) -> Seq<char> {
    match c {
        Some(x) => x.issuer@,
        None => Seq::empty(),
    }
}

/// What the outcome for the Receipt at `i` holds: its index and bytes, its
/// subject finding, and that registration acceptance rests on the full trust
/// evidence for some verifying key.
pub open spec fn receipt_outcome_ok(
    o: StatementReceiptOutcome,
    i: int,
    encoded: Seq<u8>,
    inputs: StatementVerificationInputs,
    statement: Option<UnauthenticatedReceiptClaims>,
    site: Option<Seq<char>>,
) -> bool {
    &&& o.index == i
    &&& o.encoded_receipt@ == encoded
    &&& pair_of(o.subject_policy) == subject_outcome(inputs.subject, statement, o.claims, site)
    &&& o.acceptable_for_registration.status == InspectionStatus::Passed ==>
        o.candidate_derivation.status == InspectionStatus::Passed
        && exists|k: [u8; 32]| #[trigger] crate::receipt_verification::registration_evidence(*inputs.services, k, claims_issuer(o.claims))
}

fn verify_one_receipt<'a>(
    index: usize,
    encoded: &Vec<u8>,
    bytes: &'a [u8],
    inputs: &'a StatementVerificationInputs<'a>,
    policy: &TransparentStatementPolicy,
    statement: &Option<UnauthenticatedReceiptClaims>,
    site: &Option<String>,
) -> (o: StatementReceiptOutcome)
    ensures
        receipt_outcome_ok(o, index as int, encoded@, *inputs, *statement, opt_text(*site)),
{
    let result = verify_scitt_receipt(encoded.as_slice(), bytes, inputs.services, &policy.receipt);
    let subject = subject_finding(&inputs.subject, statement, &result.envelope.unauthenticated_claims, site);
    let ghost accepted = result.acceptable_for_registration.status == InspectionStatus::Passed;
    let ghost derived = result.candidate_derivation.status == InspectionStatus::Passed;
    let ghost issuer = crate::receipt_verification::claimed_issuer(result.envelope);
    let ghost claims = result.envelope.unauthenticated_claims;
    proof {
        assert(issuer == claims_issuer(claims));
        if accepted {
            assert(derived);
            assert(exists|k: [u8; 32]| crate::receipt_verification::registration_evidence(*inputs.services, k, issuer));
        }
    }
    let selected_policy = if result.envelope.selected_policy.status != InspectionStatus::Passed {
        result.envelope.selected_policy
    } else {
        result.selected_policy
    };
    StatementReceiptOutcome {
        index,
        encoded_receipt: crate::receipt::copy_bytes(encoded.as_slice()),
        structure: result.envelope.structure,
        required_claims: result.envelope.required_claims,
        support: result.envelope.support,
        selected_policy,
        claims: result.envelope.unauthenticated_claims,
        candidate_derivation: result.candidate_derivation,
        key_configuration: result.key_configuration,
        candidate_keys: result.candidate_keys,
        proofs: result.proofs,
        signature_attempts: result.signature_attempts,
        ts_signature: result.ts_signature,
        inclusion: result.inclusion,
        ts_key_association: result.ts_key_association,
        ts_identity_trust: result.ts_identity_trust,
        acceptable_for_registration: result.acceptable_for_registration,
        subject_policy: subject,
    }
}

/// The indices of the Receipts acceptable for registration, in order.
pub open spec fn acceptable_indices(rs: Seq<StatementReceiptOutcome>) -> Seq<usize>
    decreases rs.len(),
{
    if rs.len() == 0 {
        Seq::empty()
    } else if rs.last().acceptable_for_registration.status == InspectionStatus::Passed {
        acceptable_indices(rs.drop_last()).push(rs.last().index)
    } else {
        acceptable_indices(rs.drop_last())
    }
}

proof fn lemma_acceptable_indices(rs: Seq<StatementReceiptOutcome>)
    ensures
        acceptable_indices(rs).len() > 0 ==> exists|i: int| 0 <= i < rs.len()
            && (#[trigger] rs[i]).acceptable_for_registration.status == InspectionStatus::Passed,
    decreases rs.len(),
{
    if rs.len() > 0 {
        lemma_acceptable_indices(rs.drop_last());
        if acceptable_indices(rs.drop_last()).len() > 0 {
            let i = choose|i: int| 0 <= i < rs.drop_last().len()
                && (#[trigger] rs.drop_last()[i]).acceptable_for_registration.status == InspectionStatus::Passed;
            assert(rs[i] == rs.drop_last()[i]);
        } else {
            assert(rs[rs.len() - 1] == rs.last());
        }
    }
}

/// The statement-level subject finding over the Receipt outcomes.
pub open spec fn statement_subject_outcome(rs: Seq<StatementReceiptOutcome>) -> (InspectionStatus, &'static str) {
    if exists|i: int| 0 <= i < rs.len() && (#[trigger] rs[i]).acceptable_for_registration.status == InspectionStatus::Passed
        && rs[i].subject_policy.status == InspectionStatus::Passed {
        (InspectionStatus::Passed, "acceptable_receipt_has_subject_binding")
    } else if exists|i: int| 0 <= i < rs.len() && (#[trigger] rs[i]).acceptable_for_registration.status == InspectionStatus::Passed
        && rs[i].subject_policy.status == InspectionStatus::Failed {
        (InspectionStatus::Failed, "acceptable_receipt_subject_contradiction")
    } else {
        (InspectionStatus::Unestablished, "subject_binding_not_established_for_acceptable_receipt")
    }
}

fn statement_subject(rs: &Vec<StatementReceiptOutcome>) -> (r: InspectionFinding)
    ensures
        pair_of(r) == statement_subject_outcome(rs@),
{
    let mut bound = false;
    let mut contradicted = false;
    let mut i: usize = 0;
    while i < rs.len()
        invariant
            i <= rs@.len(),
            bound == exists|j: int| 0 <= j < i && (#[trigger] rs@[j]).acceptable_for_registration.status == InspectionStatus::Passed
                && rs@[j].subject_policy.status == InspectionStatus::Passed,
            contradicted == exists|j: int| 0 <= j < i && (#[trigger] rs@[j]).acceptable_for_registration.status == InspectionStatus::Passed
                && rs@[j].subject_policy.status == InspectionStatus::Failed,
        decreases rs@.len() - i,
    {
        if rs[i].acceptable_for_registration.status == InspectionStatus::Passed {
            if rs[i].subject_policy.status == InspectionStatus::Passed {
                bound = true;
            }
            if rs[i].subject_policy.status == InspectionStatus::Failed {
                contradicted = true;
            }
        }
        i = i + 1;
    }
    if bound {
        pass("acceptable_receipt_has_subject_binding")
    } else if contradicted {
        fail("acceptable_receipt_subject_contradiction")
    } else {
        unset("subject_binding_not_established_for_acceptable_receipt")
    }
}

/// The declared-profile finding for the protected content type.
pub open spec fn profile_outcome(content_type: Option<Seq<char>>) -> (InspectionStatus, &'static str) {
    match content_type {
        Some(t) => if t == SOFTWARE_SITE_CONTENT_TYPE@ {
            (InspectionStatus::Passed, "declared_software_site_v1")
        } else {
            (InspectionStatus::Unsupported, "application_declared_profile")
        },
        None => (InspectionStatus::Failed, "application_protected_content_type_required"),
    }
}

fn profile_finding(content_type: &Option<String>) -> (r: InspectionFinding)
    ensures
        pair_of(r) == profile_outcome(opt_text(*content_type)),
{
    match content_type {
        Some(t) => if str_eq(t.as_str(), SOFTWARE_SITE_CONTENT_TYPE) {
            pass("declared_software_site_v1")
        } else {
            f(InspectionStatus::Unsupported, "application_declared_profile")
        },
        None => fail("application_protected_content_type_required"),
    }
}

/// The statuses of the prerequisites of the software application policy.
pub open spec fn prerequisites(r: TransparentStatementReport) -> Seq<InspectionStatus> {
    seq![
        r.outer.required_claims.status,
        r.outer.support.status,
        r.payload_context.status,
        r.issuer_signature.status,
        r.issuer_key_association.status,
        r.issuer_identity_trust.status,
        r.registration_evidence.status,
        r.application_profile.status,
    ]
}

/// The software application-policy finding over a report whose other
/// findings are settled.
pub open spec fn application_outcome(r: TransparentStatementReport, require_subject: bool, require_all_receipts: bool, require_authenticated_digest: bool) -> (InspectionStatus, &'static str) {
    let req = prerequisites(r);
    let rs = r.receipts@;
    if req.contains(InspectionStatus::Failed) {
        (InspectionStatus::Failed, "software_application_prerequisite_failed")
    } else if exists|i: int| 0 <= i < req.len() && req[i] != InspectionStatus::Passed {
        (InspectionStatus::Unestablished, "software_application_prerequisite_unestablished")
    } else if require_all_receipts && exists|i: int| 0 <= i < rs.len()
        && ((#[trigger] rs[i]).acceptable_for_registration.status != InspectionStatus::Passed
            || (require_subject && rs[i].subject_policy.status != InspectionStatus::Passed)) {
        (InspectionStatus::Failed, "explicit_all_receipts_application_policy")
    } else if require_subject && r.subject_policy.status != InspectionStatus::Passed {
        pair_of(r.subject_policy)
    } else if require_authenticated_digest && (r.digest_equality.status != InspectionStatus::Passed || r.digest_origin.status != InspectionStatus::Passed) {
        if r.digest_equality.status == InspectionStatus::Failed {
            (InspectionStatus::Failed, "expected_digest_mismatch")
        } else {
            (InspectionStatus::Unestablished, "authenticated_digest_not_established")
        }
    } else {
        (InspectionStatus::Passed, "signed_json_site_v1_only_not_pser_or_hardware")
    }
}

fn application_finding(r: &TransparentStatementReport, require_subject: bool, require_all_receipts: bool, require_authenticated_digest: bool) -> (out: InspectionFinding)
    ensures
        pair_of(out) == application_outcome(*r, require_subject, require_all_receipts, require_authenticated_digest),
{
    let statuses = [
        r.outer.required_claims.status,
        r.outer.support.status,
        r.payload_context.status,
        r.issuer_signature.status,
        r.issuer_key_association.status,
        r.issuer_identity_trust.status,
        r.registration_evidence.status,
        r.application_profile.status,
    ];
    let ghost req = prerequisites(*r);
    assert(statuses@ =~= req);
    let mut any_failed = false;
    let mut all_passed = true;
    let mut i: usize = 0;
    while i < 8
        invariant
            i <= 8,
            statuses@ == req,
            req.len() == 8,
            any_failed == exists|j: int| 0 <= j < i && req[j] == InspectionStatus::Failed,
            all_passed == forall|j: int| 0 <= j < i ==> req[j] == InspectionStatus::Passed,
        decreases 8 - i,
    {
        if statuses[i] == InspectionStatus::Failed {
            any_failed = true;
        }
        if statuses[i] != InspectionStatus::Passed {
            all_passed = false;
        }
        i = i + 1;
    }
    proof {
        if any_failed {
            let j = choose|j: int| 0 <= j < 8 && req[j] == InspectionStatus::Failed;
            assert(req.contains(InspectionStatus::Failed)) by {
                assert(req[j] == InspectionStatus::Failed);
            }
        } else {
            assert(!req.contains(InspectionStatus::Failed));
        }
    }
    if any_failed {
        return fail("software_application_prerequisite_failed");
    }
    if !all_passed {
        return unset("software_application_prerequisite_unestablished");
    }
    if require_all_receipts {
        let mut j: usize = 0;
        while j < r.receipts.len()
            invariant
                j <= r.receipts@.len(),
                req == prerequisites(*r),
                req.len() == 8,
                require_all_receipts,
                !req.contains(InspectionStatus::Failed),
                forall|m: int| 0 <= m < 8 ==> req[m] == InspectionStatus::Passed,
                forall|m: int| 0 <= m < j ==> !((#[trigger] r.receipts@[m]).acceptable_for_registration.status != InspectionStatus::Passed
                    || (require_subject && r.receipts@[m].subject_policy.status != InspectionStatus::Passed)),
            decreases r.receipts@.len() - j,
        {
            if r.receipts[j].acceptable_for_registration.status != InspectionStatus::Passed
                || (require_subject && r.receipts[j].subject_policy.status != InspectionStatus::Passed) {
                assert(r.receipts@[j as int].acceptable_for_registration.status != InspectionStatus::Passed
                    || (require_subject && r.receipts@[j as int].subject_policy.status != InspectionStatus::Passed));
                return fail("explicit_all_receipts_application_policy");
            }
            j = j + 1;
        }
    }
    if require_subject && r.subject_policy.status != InspectionStatus::Passed {
        return r.subject_policy.duplicate();
    }
    if require_authenticated_digest && (r.digest_equality.status != InspectionStatus::Passed || r.digest_origin.status != InspectionStatus::Passed) {
        if r.digest_equality.status == InspectionStatus::Failed {
            return fail("expected_digest_mismatch");
        } else {
            return unset("authenticated_digest_not_established");
        }
    }
    pass("signed_json_site_v1_only_not_pser_or_hardware")
}

/// Whether the outer inspection let dependent work run.
pub open spec fn statement_gate(outer: OuterStatementReport) -> bool {
    outer.structure.status == InspectionStatus::Passed && outer.selected_policy.status == InspectionStatus::Passed
}

/// A pair, or a default when there is none.
pub open spec fn pair_or(o: Option<(InspectionStatus, &'static str)>, d: (InspectionStatus, &'static str)) -> (InspectionStatus, &'static str) {
    match o {
        Some(p) => p,
        None => d,
    }
}

/// Whether every finding after candidate derivation keeps its initial value.
pub open spec fn untouched_after_candidate(r: TransparentStatementReport) -> bool {
    &&& finding_is(r.digest_equality, InspectionStatus::Unestablished, "expected_digest_absent")
    &&& finding_is(r.digest_origin, InspectionStatus::Unestablished, "expected_digest_origin_absent")
    &&& finding_is(r.issuer_signature, InspectionStatus::NotEvaluated, "prerequisite_not_established")
    &&& r.actual_issuer_key is None
    &&& finding_is(r.issuer_key_association, InspectionStatus::Unestablished, "issuer_key_absent")
    &&& finding_is(r.issuer_identity_trust, InspectionStatus::Unestablished, "issuer_trust_absent")
    &&& finding_is(r.payload_context, InspectionStatus::NotEvaluated, "prerequisite_not_established")
    &&& finding_is(r.application_profile, InspectionStatus::Unestablished, "application_policy_absent")
    &&& r.included_site_id is None
    &&& r.receipts@.len() == 0
    &&& r.acceptable_receipt_indices@.len() == 0
    &&& finding_is(r.registration_evidence, InspectionStatus::NotEvaluated, "prerequisite_not_established")
    &&& finding_is(r.subject_policy, InspectionStatus::Unestablished, "subject_convention_absent")
    &&& finding_is(r.application_policy, InspectionStatus::Unestablished, "application_policy_absent")
}

/// What a report holds once the outer statement passed inspection and its
/// candidate entry `c` was derived.
pub open spec fn statement_checked(r: TransparentStatementReport, inputs: StatementVerificationInputs, c: Seq<u8>) -> bool {
    let payload = opt_bytes(r.outer.payload_bytes).unwrap();
    let site = opt_text(r.included_site_id);
    &&& opt_bytes(r.candidate_entry) == Some(c)
    &&& finding_is(r.candidate_derivation, InspectionStatus::Passed, "exact_candidate_derived")
    &&& match inputs.expected_digest {
        None => finding_is(r.digest_equality, InspectionStatus::Unestablished, "expected_digest_absent")
            && finding_is(r.digest_origin, InspectionStatus::Unestablished, "expected_digest_origin_absent"),
        Some(d) => (pair_of(r.digest_equality), pair_of(r.digest_origin))
            == digest_outcome(*d, if d.target == DigestTarget::CandidateEntrySha256 { c } else { payload }),
    }
    &&& match inputs.issuer {
        None => finding_is(r.issuer_signature, InspectionStatus::Unestablished, "issuer_key_absent")
            && r.actual_issuer_key is None
            && finding_is(r.issuer_key_association, InspectionStatus::Unestablished, "issuer_key_absent")
            && finding_is(r.issuer_identity_trust, InspectionStatus::Unestablished, "issuer_trust_absent"),
        Some(k) => {
            let o = issuer_outcome(*k, r.outer);
            &&& pair_of(r.issuer_signature) == pair_or(o.0, (InspectionStatus::NotEvaluated, "prerequisite_not_established"))
            &&& r.actual_issuer_key == o.1
            &&& pair_of(r.issuer_key_association) == pair_or(o.2, (InspectionStatus::Unestablished, "issuer_key_absent"))
            &&& pair_of(r.issuer_identity_trust) == pair_or(o.3, (InspectionStatus::Unestablished, "issuer_trust_absent"))
        },
    }
    &&& match site_context(payload) {
        Some(id) => finding_is(r.payload_context, InspectionStatus::Passed, "included_json_site_context_not_pser_validation")
            && site == Some(id),
        None => finding_is(r.payload_context, InspectionStatus::Failed, "canonical_json_site_context_required")
            && site is None,
    }
    &&& r.receipts@.len() == r.outer.receipts@.len()
    &&& forall|i: int| 0 <= i < r.receipts@.len() ==> receipt_outcome_ok(#[trigger] r.receipts@[i], i, r.outer.receipts@[i]@, inputs, r.outer.claims, site)
    &&& r.acceptable_receipt_indices@ == acceptable_indices(r.receipts@)
    &&& r.acceptable_receipt_indices@.len() == 0 ==> finding_is(r.registration_evidence, InspectionStatus::Unestablished, "no_acceptable_receipt")
    &&& r.acceptable_receipt_indices@.len() > 0 ==> finding_is(r.registration_evidence, InspectionStatus::Passed, "at_least_one_acceptable_receipt_caller_trust")
    &&& inputs.subject is Unspecified ==> finding_is(r.subject_policy, InspectionStatus::Unestablished, "subject_convention_absent")
    &&& !(inputs.subject is Unspecified) ==> pair_of(r.subject_policy) == statement_subject_outcome(r.receipts@)
    &&& match inputs.application {
        StatementApplicationPolicy::Unspecified =>
            finding_is(r.application_profile, InspectionStatus::Unestablished, "application_policy_absent")
            && finding_is(r.application_policy, InspectionStatus::Unestablished, "application_policy_absent"),
        StatementApplicationPolicy::SignedJsonSiteV1 { require_subject, require_all_receipts, require_authenticated_digest } =>
            pair_of(r.application_profile) == profile_outcome(opt_text(r.outer.protected_content_type))
            && pair_of(r.application_policy) == application_outcome(r, require_subject, require_all_receipts, require_authenticated_digest),
    }
}

/// Coordinates the exact transmitted bytes: outer inspection, candidate
/// derivation, the explicit expected digest, the issuer signature, the
/// included site context, every attached Receipt and the named policies. A
/// good Receipt never erases the findings of another; only a malformed outer
/// structure or policy stops dependent work. `LocalSimulation` never passes
/// registration or application acceptance.
pub fn verify_transparent_statement<'a>(
    bytes: &'a [u8],
    inputs: &'a StatementVerificationInputs<'a>,
    policy: &TransparentStatementPolicy,
) -> (r: TransparentStatementReport<'a>)
    ensures
        r.outer.encoded_statement == bytes,
        r.outer.policy == *policy,
        r.inputs == inputs,
        r.policy_id == TRANSPARENT_STATEMENT_POLICY_ID,
        r.outer.structure.status == InspectionStatus::Passed ==> outer_ok(bytes@, *policy) && outer_content(r.outer, bytes@, *policy),
        r.outer.structure.status != InspectionStatus::Passed ==> r.outer.structure.status == InspectionStatus::Failed,
        (outer_policy_valid(*policy) && bytes@.len() <= policy.max_statement_bytes) ==>
            (r.outer.structure.status == InspectionStatus::Passed <==> outer_accepted(bytes@, *policy)),
        !outer_policy_valid(*policy) ==> finding_is(r.outer.structure, InspectionStatus::Failed, "outer_policy_limit"),
        finding_is(r.hardware_appraisal, InspectionStatus::NotEvaluated, "hardware_not_implemented"),
        finding_is(r.overall_profile, InspectionStatus::Unestablished, "full_pser_conformance_not_established"),
        !statement_gate(r.outer) ==> r.candidate_entry is None
            && finding_is(r.candidate_derivation, InspectionStatus::NotEvaluated, "prerequisite_not_established")
            && untouched_after_candidate(r),
        statement_gate(r.outer) && candidate_from_statement(bytes@) is Err ==> r.candidate_entry is None
            && finding_is(r.candidate_derivation, InspectionStatus::Failed, "candidate_derivation")
            && untouched_after_candidate(r),
        statement_gate(r.outer) && candidate_from_statement(bytes@) is Ok ==>
            statement_checked(r, *inputs, candidate_from_statement(bytes@)->Ok_0),
        r.registration_evidence.status == InspectionStatus::Passed ==>
            inputs.services.origin == TrustInputOrigin::CallerAuthenticatedExternal,
        r.application_policy.status == InspectionStatus::Passed ==>
            r.registration_evidence.status == InspectionStatus::Passed
            && inputs.services.origin == TrustInputOrigin::CallerAuthenticatedExternal,
{
    let outer = inspect_transparent_statement(bytes, policy);
    if outer.structure.status != InspectionStatus::Passed || outer.selected_policy.status != InspectionStatus::Passed {
        return initial_report(outer, inputs, skip());
    }
    let candidate = match derive_candidate_entry(bytes) {
        Ok(c) => c,
        Err(_) => {
            return initial_report(outer, inputs, fail("candidate_derivation"));
        }
    };
    let payload = match &outer.payload_bytes {
        Some(p) => crate::receipt::copy_bytes(p.as_slice()),
        None => {
            return initial_report(outer, inputs, skip());
        }
    };
    let (digest_equality, digest_origin) = digest_findings(inputs, candidate.as_slice(), payload.as_slice());
    let (issuer_signature, actual_issuer_key, issuer_key_association, issuer_identity_trust) = issuer_findings(inputs, &outer);
    let included_site_id = site_id_of(payload.as_slice());
    let payload_context = if included_site_id.is_some() {
        pass("included_json_site_context_not_pser_validation")
    } else {
        fail("canonical_json_site_context_required")
    };
    let receipts = run_receipts(bytes, inputs, policy, &outer, &included_site_id);
    let accepted = acceptable(&receipts);
    let registration_evidence = if accepted.len() == 0 {
        unset("no_acceptable_receipt")
    } else {
        pass("at_least_one_acceptable_receipt_caller_trust")
    };
    let subject_policy = match inputs.subject {
        SubjectPolicy::Unspecified => unset("subject_convention_absent"),
        _ => statement_subject(&receipts),
    };
    let mut r = TransparentStatementReport {
        outer,
        inputs,
        policy_id: TRANSPARENT_STATEMENT_POLICY_ID,
        candidate_entry: Some(candidate),
        candidate_derivation: pass("exact_candidate_derived"),
        digest_equality,
        digest_origin,
        issuer_signature,
        actual_issuer_key,
        issuer_key_association,
        issuer_identity_trust,
        payload_context,
        application_profile: unset("application_policy_absent"),
        included_site_id,
        receipts,
        acceptable_receipt_indices: accepted,
        registration_evidence,
        subject_policy,
        application_policy: unset("application_policy_absent"),
        hardware_appraisal: f(InspectionStatus::NotEvaluated, "hardware_not_implemented"),
        overall_profile: unset("full_pser_conformance_not_established"),
    };
    if let StatementApplicationPolicy::SignedJsonSiteV1 { require_subject, require_all_receipts, require_authenticated_digest } = inputs.application {
        r.application_profile = profile_finding(&r.outer.protected_content_type);
        r.application_policy = application_finding(&r, require_subject, require_all_receipts, require_authenticated_digest);
    }
    r
}

/// A report whose findings after candidate derivation keep their initial
/// values.
fn initial_report<'a>(outer: OuterStatementReport<'a>, inputs: &'a StatementVerificationInputs<'a>, candidate_derivation: InspectionFinding) -> (r: TransparentStatementReport<'a>)
    ensures
        r.outer == outer,
        r.inputs == inputs,
        r.policy_id == TRANSPARENT_STATEMENT_POLICY_ID,
        r.candidate_entry is None,
        r.candidate_derivation == candidate_derivation,
        untouched_after_candidate(r),
        finding_is(r.hardware_appraisal, InspectionStatus::NotEvaluated, "hardware_not_implemented"),
        finding_is(r.overall_profile, InspectionStatus::Unestablished, "full_pser_conformance_not_established"),
{
    TransparentStatementReport {
        outer,
        inputs,
        policy_id: TRANSPARENT_STATEMENT_POLICY_ID,
        candidate_entry: None,
        candidate_derivation,
        digest_equality: unset("expected_digest_absent"),
        digest_origin: unset("expected_digest_origin_absent"),
        issuer_signature: skip(),
        actual_issuer_key: None,
        issuer_key_association: unset("issuer_key_absent"),
        issuer_identity_trust: unset("issuer_trust_absent"),
        payload_context: skip(),
        application_profile: unset("application_policy_absent"),
        included_site_id: None,
        receipts: Vec::new(),
        acceptable_receipt_indices: Vec::new(),
        registration_evidence: skip(),
        subject_policy: unset("subject_convention_absent"),
        application_policy: unset("application_policy_absent"),
        hardware_appraisal: f(InspectionStatus::NotEvaluated, "hardware_not_implemented"),
        overall_profile: unset("full_pser_conformance_not_established"),
    }
}

fn digest_findings(inputs: &StatementVerificationInputs, candidate: &[u8], payload: &[u8]) -> (r: (InspectionFinding, InspectionFinding))
    ensures
        match inputs.expected_digest {
            None => finding_is(r.0, InspectionStatus::Unestablished, "expected_digest_absent")
                && finding_is(r.1, InspectionStatus::Unestablished, "expected_digest_origin_absent"),
            Some(d) => (pair_of(r.0), pair_of(r.1))
                == digest_outcome(*d, if d.target == DigestTarget::CandidateEntrySha256 { candidate@ } else { payload@ }),
        },
{
    match inputs.expected_digest {
        None => (unset("expected_digest_absent"), unset("expected_digest_origin_absent")),
        Some(d) => match d.target {
            DigestTarget::CandidateEntrySha256 => check_digest(d, candidate),
            DigestTarget::PayloadSha256 => check_digest(d, payload),
        },
    }
}

fn issuer_findings(inputs: &StatementVerificationInputs, outer: &OuterStatementReport) -> (r: (InspectionFinding, Option<[u8; 32]>, InspectionFinding, InspectionFinding))
    requires
        outer.protected_bytes is Some,
        outer.payload_bytes is Some,
        outer.signature_bytes is Some,
    ensures
        match inputs.issuer {
            None => finding_is(r.0, InspectionStatus::Unestablished, "issuer_key_absent")
                && r.1 is None
                && finding_is(r.2, InspectionStatus::Unestablished, "issuer_key_absent")
                && finding_is(r.3, InspectionStatus::Unestablished, "issuer_trust_absent"),
            Some(k) => {
                let o = issuer_outcome(*k, *outer);
                &&& pair_of(r.0) == pair_or(o.0, (InspectionStatus::NotEvaluated, "prerequisite_not_established"))
                &&& r.1 == o.1
                &&& pair_of(r.2) == pair_or(o.2, (InspectionStatus::Unestablished, "issuer_key_absent"))
                &&& pair_of(r.3) == pair_or(o.3, (InspectionStatus::Unestablished, "issuer_trust_absent"))
            },
        },
{
    match inputs.issuer {
        None => (unset("issuer_key_absent"), None, unset("issuer_key_absent"), unset("issuer_trust_absent")),
        Some(k) => {
            let (signature, key, association, trust) = check_issuer(k, outer);
            let signature = match signature { Some(x) => x, None => skip() };
            let association = match association { Some(x) => x, None => unset("issuer_key_absent") };
            let trust = match trust { Some(x) => x, None => unset("issuer_trust_absent") };
            (signature, key, association, trust)
        }
    }
}

fn run_receipts<'a>(
    bytes: &'a [u8],
    inputs: &'a StatementVerificationInputs<'a>,
    policy: &TransparentStatementPolicy,
    outer: &OuterStatementReport,
    site: &Option<String>,
) -> (outcomes: Vec<StatementReceiptOutcome>)
    ensures
        outcomes@.len() == outer.receipts@.len(),
        forall|j: int| 0 <= j < outcomes@.len() ==> receipt_outcome_ok(#[trigger] outcomes@[j], j, outer.receipts@[j]@, *inputs,
            outer.claims, opt_text(*site)),
{
    let mut outcomes: Vec<StatementReceiptOutcome> = Vec::new();
    let mut i: usize = 0;
    while i < outer.receipts.len()
        invariant
            i <= outer.receipts@.len(),
            outcomes@.len() == i,
            forall|j: int| 0 <= j < i ==> receipt_outcome_ok(#[trigger] outcomes@[j], j, outer.receipts@[j]@, *inputs,
                outer.claims, opt_text(*site)),
        decreases outer.receipts@.len() - i,
    {
        let o = verify_one_receipt(i, &outer.receipts[i], bytes, inputs, policy, &outer.claims, site);
        outcomes.push(o);
        i = i + 1;
    }
    outcomes
}

fn acceptable(rs: &Vec<StatementReceiptOutcome>) -> (accepted: Vec<usize>)
    ensures
        accepted@ == acceptable_indices(rs@),
        accepted@.len() > 0 ==> exists|m: int| 0 <= m < rs@.len()
            && (#[trigger] rs@[m]).acceptable_for_registration.status == InspectionStatus::Passed,
{
    let mut accepted: Vec<usize> = Vec::new();
    let mut j: usize = 0;
    while j < rs.len()
        invariant
            j <= rs@.len(),
            accepted@ == acceptable_indices(rs@.take(j as int)),
        decreases rs@.len() - j,
    {
        proof {
            assert(rs@.take(j + 1).drop_last() =~= rs@.take(j as int));
        }
        if rs[j].acceptable_for_registration.status == InspectionStatus::Passed {
            accepted.push(rs[j].index);
        }
        j = j + 1;
    }
    proof {
        assert(rs@.take(j as int) =~= rs@);
        lemma_acceptable_indices(rs@);
    }
    accepted
}

} // verus!
