//! Key-free, offline inspection of an encoded SCITT Receipt: envelope
//! structure, text claims and local policy, without signature, inclusion or
//! trust verification.
use vstd::prelude::*;
use crate::cbor::{CborValue, CborV, cbor_equal, float_bits_equal, is_nan_bits, view_items, view_entries, lemma_view_items, lemma_view_entries, entry_value, get, cbor_eq, copy_value, copy_entries, cbor_decode, cbor_decode_exact};
use crate::receipt::{as_u64, bytes_of};
use crate::receipt_cbor::{Budget, Role, ScanState, wf_cbor, scan_accepts, scan_item};
use crate::text::str_chars;
use vstd::string::StrSliceExecFns;

verus! {

/// The status of one inspection finding.
#[derive(Debug, Clone, Copy, PartialEq, Eq, Structural)]
pub enum InspectionStatus {
    Passed,
    Failed,
    Unsupported,
    Unestablished,
    NotEvaluated,
}

/// One independently scoped finding. Codes are machine-readable, not
/// acceptance badges.
#[derive(Debug, Clone, PartialEq, Eq)]
pub struct InspectionFinding {
    pub status: InspectionStatus,
    pub code: &'static str,
    pub detail: &'static str,
    pub evidence_refs: Vec<&'static str>,
}

/// Whether a finding has the given status and code.
pub open spec fn finding_is(f: InspectionFinding, status: InspectionStatus, code: &'static str) -> bool {
    f.status == status && f.code == code
}

impl InspectionFinding {
    fn new(status: InspectionStatus, code: &'static str, detail: &'static str) -> (f: Self)
        ensures
            f.status == status,
            f.code == code,
            f.detail == detail,
            f.evidence_refs@ == seq!["encoded_receipt"],
    {
        InspectionFinding { status, code, detail, evidence_refs: vec!["encoded_receipt"] }
    }

    /// A field-for-field copy.
    pub fn duplicate(&self) -> (f: Self)
        ensures
            f.status == self.status,
            f.code == self.code,
            f.detail == self.detail,
            f.evidence_refs@ == self.evidence_refs@,
    {
        let mut refs: Vec<&'static str> = Vec::new();
        let mut i: usize = 0;
        while i < self.evidence_refs.len()
            invariant
                i <= self.evidence_refs@.len(),
                refs@ == self.evidence_refs@.take(i as int),
            decreases self.evidence_refs@.len() - i,
        {
            refs.push(self.evidence_refs[i]);
            i = i + 1;
            proof {
                assert(refs@ =~= self.evidence_refs@.take(i as int));
            }
        }
        proof {
            assert(refs@ =~= self.evidence_refs@);
        }
        InspectionFinding { status: self.status, code: self.code, detail: self.detail, evidence_refs: refs }
    }

    fn passed() -> (f: Self)
        ensures
            finding_is(f, InspectionStatus::Passed, "checked"),
    {
        Self::new(InspectionStatus::Passed, "checked", "Passed only this inspection dimension; unauthenticated.")
    }

    fn skipped() -> (f: Self)
        ensures
            finding_is(f, InspectionStatus::NotEvaluated, "dependent_check_not_run"),
    {
        Self::new(
            InspectionStatus::NotEvaluated,
            "dependent_check_not_run",
            "A prerequisite was not established; this is not a pass.",
        )
    }

    fn later() -> (f: Self)
        ensures
            finding_is(f, InspectionStatus::NotEvaluated, "outside_phase1"),
    {
        Self::new(
            InspectionStatus::NotEvaluated,
            "outside_phase1",
            "Phase 1 does not evaluate cryptography, trust, subject correspondence or application acceptance.",
        )
    }
}

/// Finite local resource ceilings, not universal RFC limits.
#[derive(Debug, Clone, Copy, PartialEq, Eq)]
pub struct InspectionLimits {
    pub max_receipt_bytes: usize,
    pub max_protected_bytes: usize,
    pub max_signature_bytes: usize,
    pub max_cbor_nesting: usize,
    pub max_cbor_items: usize,
    pub max_map_entries: usize,
    pub max_proofs_per_receipt: usize,
    pub max_path_nodes_per_proof: usize,
    pub max_certificate_chain_length: usize,
    pub max_certificate_bytes: usize,
    pub max_claim_text_characters: usize,
    pub max_tree_size: u64,
}

impl InspectionLimits {
    /// The default hard ceilings.
    pub open spec fn defaults() -> InspectionLimits {
        InspectionLimits {
            max_receipt_bytes: 1_048_576,
            max_protected_bytes: 65_536,
            max_signature_bytes: 1_024,
            max_cbor_nesting: 16,
            max_cbor_items: 4_096,
            max_map_entries: 64,
            max_proofs_per_receipt: 16,
            max_path_nodes_per_proof: 64,
            max_certificate_chain_length: 8,
            max_certificate_bytes: 65_536,
            max_claim_text_characters: 8_192,
            max_tree_size: 0xffff_ffff_ffff_ffff,
        }
    }
}

impl Default for InspectionLimits {
    fn default() -> (r: Self)
        ensures
            r == InspectionLimits::defaults(),
    {
        InspectionLimits {
            max_receipt_bytes: 1_048_576,
            max_protected_bytes: 65_536,
            max_signature_bytes: 1_024,
            max_cbor_nesting: 16,
            max_cbor_items: 4_096,
            max_map_entries: 64,
            max_proofs_per_receipt: 16,
            max_path_nodes_per_proof: 64,
            max_certificate_chain_length: 8,
            max_certificate_bytes: 65_536,
            max_claim_text_characters: 8_192,
            max_tree_size: u64::MAX,
        }
    }
}

/// The inspection dimension a problem belongs to.
#[derive(Clone, Copy, Debug, PartialEq, Eq)]
pub enum Dimension {
    Structure,
    Claims,
    Policy,
}

/// A rejection in one dimension, with its machine-readable code.
#[derive(Clone, Copy, Debug, PartialEq, Eq)]
pub struct Problem {
    pub dimension: Dimension,
    pub code: &'static str,
}

impl Problem {
    #[verifier::allow_in_spec]
    pub fn structure(code: &'static str) -> Self
        returns
            (Problem { dimension: Dimension::Structure, code }),
    {
        Problem { dimension: Dimension::Structure, code }
    }

    #[verifier::allow_in_spec]
    pub fn policy(code: &'static str) -> Self
        returns
            (Problem { dimension: Dimension::Policy, code }),
    {
        Problem { dimension: Dimension::Policy, code }
    }

    #[verifier::allow_in_spec]
    pub fn claims(code: &'static str) -> Self
        returns
            (Problem { dimension: Dimension::Claims, code }),
    {
        Problem { dimension: Dimension::Claims, code }
    }
}


/// Whether every limit is positive and within its default hard ceiling.
pub open spec fn limits_valid(l: InspectionLimits) -> bool {
    let d = InspectionLimits::defaults();
    &&& 0 < l.max_receipt_bytes <= d.max_receipt_bytes
    &&& 0 < l.max_protected_bytes <= d.max_protected_bytes
    &&& 0 < l.max_signature_bytes <= d.max_signature_bytes
    &&& 0 < l.max_cbor_nesting <= d.max_cbor_nesting
    &&& 0 < l.max_cbor_items <= d.max_cbor_items
    &&& 0 < l.max_map_entries <= d.max_map_entries
    &&& 0 < l.max_proofs_per_receipt <= d.max_proofs_per_receipt
    &&& 0 < l.max_path_nodes_per_proof <= d.max_path_nodes_per_proof
    &&& 0 < l.max_certificate_chain_length <= d.max_certificate_chain_length
    &&& 0 < l.max_certificate_bytes <= d.max_certificate_bytes
    &&& 0 < l.max_claim_text_characters <= d.max_claim_text_characters
    &&& 0 < l.max_tree_size <= d.max_tree_size
}

/// Selected local policy. Limits may be tightened, never raised above the
/// default hard ceilings.
#[derive(Debug, Clone, Copy, PartialEq, Eq)]
pub struct InspectionPolicy {
    pub strict_cross_map: bool,
    pub limits: InspectionLimits,
}

impl Default for InspectionPolicy {
    fn default() -> (r: Self)
        ensures
            r.strict_cross_map == false,
            r.limits == InspectionLimits::defaults(),
    {
        InspectionPolicy { strict_cross_map: false, limits: InspectionLimits::default() }
    }
}

/// The identifier of the inspection policy.
pub const INSPECTION_POLICY_ID: &'static str = "pask71-local-ed25519-rfc9162/1";

/// Whether a `crit` label is one the initial profile understands.
pub open spec fn understood_critical(n: int) -> bool {
    n == 1 || n == 2 || n == 4 || n == 15 || n == 395
}

impl InspectionPolicy {
    /// Whether the policy's limits are usable.
    pub fn valid(&self) -> (r: bool)
        ensures
            r == limits_valid(self.limits),
    {
        let d = InspectionLimits::default();
        let l = &self.limits;
        l.max_receipt_bytes > 0 && l.max_receipt_bytes <= d.max_receipt_bytes
            && l.max_protected_bytes > 0 && l.max_protected_bytes <= d.max_protected_bytes
            && l.max_signature_bytes > 0 && l.max_signature_bytes <= d.max_signature_bytes
            && l.max_cbor_nesting > 0 && l.max_cbor_nesting <= d.max_cbor_nesting
            && l.max_cbor_items > 0 && l.max_cbor_items <= d.max_cbor_items
            && l.max_map_entries > 0 && l.max_map_entries <= d.max_map_entries
            && l.max_proofs_per_receipt > 0 && l.max_proofs_per_receipt <= d.max_proofs_per_receipt
            && l.max_path_nodes_per_proof > 0 && l.max_path_nodes_per_proof <= d.max_path_nodes_per_proof
            && l.max_certificate_chain_length > 0 && l.max_certificate_chain_length <= d.max_certificate_chain_length
            && l.max_certificate_bytes > 0 && l.max_certificate_bytes <= d.max_certificate_bytes
            && l.max_claim_text_characters > 0 && l.max_claim_text_characters <= d.max_claim_text_characters
            && l.max_tree_size > 0 && l.max_tree_size <= d.max_tree_size
    }
}

/// Receipt-controlled text, explicitly unauthenticated.
#[derive(Debug, Clone, PartialEq, Eq)]
pub struct UnauthenticatedReceiptClaims {
    pub issuer: String,
    pub subject: String,
    pub authenticated: bool,
}

impl UnauthenticatedReceiptClaims {
    /// A field-for-field copy.
    pub fn duplicate(&self) -> (c: Self)
        ensures
            c.issuer@ == self.issuer@,
            c.subject@ == self.subject@,
            c.authenticated == self.authenticated,
    {
        UnauthenticatedReceiptClaims { issuer: self.issuer.clone(), subject: self.subject.clone(), authenticated: self.authenticated }
    }
}

/// Key equality for duplicate detection: maps compare as sets of entries,
/// floats compare as numbers with every NaN equal to every NaN, everything
/// else as `Value` equality.
pub open spec fn keys_equal(a: CborV, b: CborV) -> bool
    decreases a, 0int,
{
    match (a, b) {
        (CborV::Entries(x), CborV::Entries(y)) => x.len() == y.len() && forall|i: int|
            0 <= i < x.len() ==> matched_in(#[trigger] x[i], y),
        (CborV::Array(x), CborV::Array(y)) => x.len() == y.len() && forall|i: int|
            0 <= i < x.len() ==> keys_equal(#[trigger] x[i], y[i]),
        (CborV::Tag(s, x), CborV::Tag(t, y)) => s == t && keys_equal(*x, *y),
        (CborV::Float(x), CborV::Float(y)) => float_bits_equal(x, y) || (is_nan_bits(x) && is_nan_bits(y)),
        _ => cbor_equal(a, b),
    }
}

/// Whether some entry of `ys` has a key and a value equal to those of `e`.
pub open spec fn matched_in(e: (CborV, CborV), ys: Seq<(CborV, CborV)>) -> bool
    decreases e, ys.len(),
{
    if ys.len() == 0 {
        false
    } else {
        (keys_equal(e.0, ys[0].0) && keys_equal(e.1, ys[0].1)) || matched_in(e, ys.drop_first())
    }
}

proof fn lemma_matched_in(e: (CborV, CborV), ys: Seq<(CborV, CborV)>)
    ensures
        matched_in(e, ys) <==> exists|j: int| #![trigger ys[j]]
            0 <= j < ys.len() && keys_equal(e.0, ys[j].0) && keys_equal(e.1, ys[j].1),
    decreases ys.len(),
{
    if ys.len() > 0 {
        lemma_matched_in(e, ys.drop_first());
        if matched_in(e, ys.drop_first()) {
            let j = choose|j: int| #![trigger ys.drop_first()[j]] 0 <= j < ys.drop_first().len()
                && keys_equal(e.0, ys.drop_first()[j].0) && keys_equal(e.1, ys.drop_first()[j].1);
            assert(ys.drop_first()[j] == ys[j + 1]);
        }
        if exists|j: int| #![trigger ys[j]] 0 <= j < ys.len() && keys_equal(e.0, ys[j].0) && keys_equal(e.1, ys[j].1) {
            let j = choose|j: int| #![trigger ys[j]] 0 <= j < ys.len() && keys_equal(e.0, ys[j].0) && keys_equal(e.1, ys[j].1);
            if j > 0 {
                assert(ys.drop_first()[j - 1] == ys[j]);
            }
        }
    }
}

/// Whether every map in `v`, at any depth, has pairwise distinct keys.
pub open spec fn unique_maps(v: CborV) -> bool
    decreases v,
{
    match v {
        CborV::Entries(es) => unique_entries(es),
        CborV::Array(items) => unique_items(items),
        CborV::Tag(_, inner) => unique_maps(*inner),
        _ => true,
    }
}

/// Whether no key among `prior` equals `key`.
pub open spec fn key_fresh(key: CborV, prior: Seq<(CborV, CborV)>) -> bool {
    forall|j: int| 0 <= j < prior.len() ==> !keys_equal(key, #[trigger] prior[j].0)
}

/// Whether the entries have pairwise distinct keys and hold only
/// duplicate-free data items.
pub open spec fn unique_entries(es: Seq<(CborV, CborV)>) -> bool
    decreases es,
{
    if es.len() == 0 {
        true
    } else {
        unique_entries(es.drop_last()) && key_fresh(es.last().0, es.drop_last())
            && unique_maps(es.last().0) && unique_maps(es.last().1)
    }
}

/// Whether every data item of `items` is duplicate-free.
pub open spec fn unique_items(items: Seq<CborV>) -> bool
    decreases items,
{
    if items.len() == 0 {
        true
    } else {
        unique_items(items.drop_last()) && unique_maps(items.last())
    }
}

proof fn lemma_unique_entries_prefix(es: Seq<(CborV, CborV)>, k: int)
    requires
        0 <= k <= es.len(),
        unique_entries(es),
    ensures
        unique_entries(es.take(k)),
    decreases es.len(),
{
    if k < es.len() {
        lemma_unique_entries_prefix(es.drop_last(), k);
        assert(es.drop_last().take(k) =~= es.take(k));
    } else {
        assert(es.take(k) =~= es);
    }
}

proof fn lemma_unique_items_prefix(items: Seq<CborV>, k: int)
    requires
        0 <= k <= items.len(),
        unique_items(items),
    ensures
        unique_items(items.take(k)),
    decreases items.len(),
{
    if k < items.len() {
        lemma_unique_items_prefix(items.drop_last(), k);
        assert(items.drop_last().take(k) =~= items.take(k));
    } else {
        assert(items.take(k) =~= items);
    }
}

/// Whether a header or claim label is an integer or a text string.
pub open spec fn is_label(v: CborV) -> bool {
    v is Integer || v is Text
}

/// Whether every key of a map is a label.
pub open spec fn labels_ok(m: Seq<(CborV, CborV)>) -> bool {
    forall|i: int| 0 <= i < m.len() ==> is_label(#[trigger] m[i].0)
}


proof fn lemma_keys_unequal_entries(xs: Seq<(CborV, CborV)>, ys: Seq<(CborV, CborV)>, i: int)
    requires
        xs.len() == ys.len(),
        0 <= i < xs.len(),
        forall|j: int| 0 <= j < ys.len() ==> !(keys_equal(xs[i].0, #[trigger] ys[j].0) && keys_equal(xs[i].1, ys[j].1)),
    ensures
        !keys_equal(CborV::Entries(xs), CborV::Entries(ys)),
{
    lemma_matched_in(xs[i], ys);
    if matched_in(xs[i], ys) {
        let j = choose|j: int| #![trigger ys[j]] 0 <= j < ys.len() && keys_equal(xs[i].0, ys[j].0) && keys_equal(xs[i].1, ys[j].1);
        assert(ys[j].0 == ys[j].0);
    }
}

proof fn lemma_keys_equal_arrays(xs: Seq<CborV>, ys: Seq<CborV>)
    requires
        xs.len() == ys.len(),
        forall|i: int| 0 <= i < xs.len() ==> keys_equal(#[trigger] xs[i], ys[i]),
    ensures
        keys_equal(CborV::Array(xs), CborV::Array(ys)),
{
    reveal_with_fuel(keys_equal, 2);
}

proof fn lemma_keys_unequal_arrays(xs: Seq<CborV>, ys: Seq<CborV>, i: int)
    requires
        xs.len() == ys.len(),
        0 <= i < xs.len(),
        !keys_equal(xs[i], ys[i]),
    ensures
        !keys_equal(CborV::Array(xs), CborV::Array(ys)),
{
    reveal_with_fuel(keys_equal, 2);
}

/// Key equality for duplicate detection (see [`keys_equal`]).
pub fn equal_key(a: &CborValue, b: &CborValue) -> (r: bool)
    ensures
        r == keys_equal(a@, b@),
    decreases a,
{
    match a {
        CborValue::Entries(x) => match b {
            CborValue::Entries(y) => {
                let ghost xs = view_entries(x@);
                let ghost ys = view_entries(y@);
                proof {
                    lemma_view_entries(x@);
                    lemma_view_entries(y@);
                }
                if x.len() != y.len() {
                    return false;
                }
                assert(decreases_to!(*a => *x));
                let mut i: usize = 0;
                while i < x.len()
                    invariant
                        i <= x@.len(),
                        x@.len() == y@.len(),
                        decreases_to!(*a => *x),
                        a@ == CborV::Entries(xs),
                        b@ == CborV::Entries(ys),
                        xs == view_entries(x@),
                        ys == view_entries(y@),
                        xs.len() == x@.len(),
                        ys.len() == y@.len(),
                        forall|j: int| 0 <= j < x@.len() ==> #[trigger] xs[j] == (x@[j].0@, x@[j].1@),
                        forall|j: int| 0 <= j < y@.len() ==> #[trigger] ys[j] == (y@[j].0@, y@[j].1@),
                        forall|k: int| 0 <= k < i ==> matched_in(#[trigger] xs[k], ys),
                    decreases x@.len() - i,
                {
                    proof {
                        assert(decreases_to!(*x => x@));
                        assert(decreases_to!(x@ => x@[i as int]));
                        assert(decreases_to!(x@[i as int] => x@[i as int].0));
                        assert(decreases_to!(x@[i as int] => x@[i as int].1));
                    }
                    assert(xs[i as int] == (x@[i as int].0@, x@[i as int].1@));
                    let mut j: usize = 0;
                    let mut found = false;
                    while j < y.len()
                        invariant
                            j <= y@.len(),
                            i < x@.len(),
                            x@.len() == y@.len(),
                            decreases_to!(*a => *x),
                            decreases_to!(*a => x@[i as int].0),
                            decreases_to!(*a => x@[i as int].1),
                            a@ == CborV::Entries(xs),
                            b@ == CborV::Entries(ys),
                            xs == view_entries(x@),
                            ys == view_entries(y@),
                            xs.len() == x@.len(),
                            ys.len() == y@.len(),
                            xs[i as int] == (x@[i as int].0@, x@[i as int].1@),
                            forall|m: int| 0 <= m < y@.len() ==> #[trigger] ys[m] == (y@[m].0@, y@[m].1@),
                            !found ==> forall|m: int| 0 <= m < j ==> !(keys_equal(xs[i as int].0, #[trigger] ys[m].0) && keys_equal(xs[i as int].1, ys[m].1)),
                            found ==> matched_in(xs[i as int], ys),
                        decreases y@.len() - j,
                    {
                        if !found {
                            let ek = equal_key(&x[i].0, &y[j].0);
                            let ev = equal_key(&x[i].1, &y[j].1);
                            assert(ys[j as int] == (y@[j as int].0@, y@[j as int].1@));
                            if ek && ev {
                                proof {
                                    lemma_matched_in(xs[i as int], ys);
                                }
                                found = true;
                            }
                        }
                        j = j + 1;
                    }
                    if !found {
                        proof {
                            lemma_keys_unequal_entries(xs, ys, i as int);
                        }
                        return false;
                    }
                    i = i + 1;
                }
                assert(keys_equal(CborV::Entries(xs), CborV::Entries(ys)));
                true
            }
            _ => false,
        },
        CborValue::Array(x) => match b {
            CborValue::Array(y) => {
                let ghost xs = view_items(x@);
                let ghost ys = view_items(y@);
                proof {
                    lemma_view_items(x@);
                    lemma_view_items(y@);
                }
                if x.len() != y.len() {
                    return false;
                }
                assert(decreases_to!(*a => *x));
                let mut i: usize = 0;
                while i < x.len()
                    invariant
                        i <= x@.len(),
                        x@.len() == y@.len(),
                        decreases_to!(*a => *x),
                        a@ == CborV::Array(xs),
                        b@ == CborV::Array(ys),
                        xs == view_items(x@),
                        ys == view_items(y@),
                        xs.len() == x@.len(),
                        ys.len() == y@.len(),
                        forall|j: int| 0 <= j < x@.len() ==> #[trigger] xs[j] == x@[j]@,
                        forall|j: int| 0 <= j < y@.len() ==> #[trigger] ys[j] == y@[j]@,
                        forall|j: int| 0 <= j < i ==> keys_equal(#[trigger] xs[j], ys[j]),
                    decreases x@.len() - i,
                {
                    proof {
                        assert(decreases_to!(*x => x@));
                        assert(decreases_to!(x@ => x@[i as int]));
                    }
                    let e = equal_key(&x[i], &y[i]);
                    assert(xs[i as int] == x@[i as int]@);
                    assert(ys[i as int] == y@[i as int]@);
                    if !e {
                        proof {
                            lemma_keys_unequal_arrays(xs, ys, i as int);
                        }
                        return false;
                    }
                    i = i + 1;
                }
                proof {
                    lemma_keys_equal_arrays(xs, ys);
                }
                true
            }
            _ => false,
        },
        CborValue::Tag(s, x) => match b {
            CborValue::Tag(t, y) => {
                let bx: &CborValue = &**x;
                let by: &CborValue = &**y;
                assert(a@ == CborV::Tag(*s, Box::new(bx@)));
                assert(b@ == CborV::Tag(*t, Box::new(by@)));
                if *s != *t {
                    return false;
                }
                equal_key(bx, by)
            }
            _ => false,
        },
        CborValue::Float(x) => match b {
            CborValue::Float(y) => float_key_eq(*x, *y),
            _ => false,
        },
        _ => crate::cbor::cbor_eq(a, b),
    }
}

fn float_key_eq(a: u64, b: u64) -> (r: bool)
    ensures
        r == (float_bits_equal(a, b) || (is_nan_bits(a) && is_nan_bits(b))),
{
    let a_nan = (a & 0x7ff0_0000_0000_0000u64) == 0x7ff0_0000_0000_0000u64 && (a & 0x000f_ffff_ffff_ffffu64) != 0;
    let b_nan = (b & 0x7ff0_0000_0000_0000u64) == 0x7ff0_0000_0000_0000u64 && (b & 0x000f_ffff_ffff_ffffu64) != 0;
    let equal = !a_nan && !b_nan && (a == b || ((a & 0x7fff_ffff_ffff_ffffu64) == 0 && (b & 0x7fff_ffff_ffff_ffffu64) == 0));
    equal || (a_nan && b_nan)
}


/// Rejects a duplicate key in any map at any depth, comparing keys with
/// [`equal_key`], so alternate encodings of one integer cannot bypass it.
pub fn check_unique_maps(value: &CborValue) -> (r: Result<(), &'static str>)
    ensures
        r is Ok <==> unique_maps(value@),
        r is Err ==> r == Err::<(), &'static str>("duplicate_key"),
    decreases value,
{
    match value {
        CborValue::Entries(es) => {
            let ghost ev = view_entries(es@);
            proof { lemma_view_entries(es@); }
            assert(decreases_to!(*value => *es));
            assert(ev.take(0) =~= Seq::<(CborV, CborV)>::empty());
            let mut i: usize = 0;
            while i < es.len()
                invariant
                    i <= es@.len(),
                    decreases_to!(*value => *es),
                    value@ == CborV::Entries(ev),
                    ev == view_entries(es@),
                    ev.len() == es@.len(),
                    forall|k: int| 0 <= k < es@.len() ==> #[trigger] ev[k] == (es@[k].0@, es@[k].1@),
                    unique_entries(ev.take(i as int)),
                decreases es@.len() - i,
            {
                proof {
                    assert(decreases_to!(*es => es@));
                    assert(decreases_to!(es@ => es@[i as int]));
                    assert(decreases_to!(es@[i as int] => es@[i as int].0));
                    assert(decreases_to!(es@[i as int] => es@[i as int].1));
                }
                let ghost next = ev.take(i + 1);
                assert(next.drop_last() =~= ev.take(i as int));
                assert(next.last() == ev[i as int]);
                assert(ev[i as int] == (es@[i as int].0@, es@[i as int].1@));
                let mut j: usize = 0;
                while j < i
                    invariant
                        j <= i,
                        i < es@.len(),
                        value@ == CborV::Entries(ev),
                        ev == view_entries(es@),
                        ev.len() == es@.len(),
                        next == ev.take(i + 1),
                        next.drop_last() == ev.take(i as int),
                        next.last() == ev[i as int],
                        forall|k: int| 0 <= k < es@.len() ==> #[trigger] ev[k] == (es@[k].0@, es@[k].1@),
                        forall|m: int| 0 <= m < j ==> !keys_equal(ev[i as int].0, #[trigger] ev[m].0),
                    decreases i - j,
                {
                    assert(ev[j as int] == (es@[j as int].0@, es@[j as int].1@));
                    if equal_key(&es[i].0, &es[j].0) {
                        proof {
                            assert(next.drop_last()[j as int] == ev[j as int]);
                            assert(keys_equal(ev[i as int].0, ev[j as int].0));
                            assert(keys_equal(next.last().0, next.drop_last()[j as int].0));
                            assert(!key_fresh(next.last().0, next.drop_last()));
                            assert(!unique_entries(next));
                            if unique_entries(ev) {
                                lemma_unique_entries_prefix(ev, i + 1);
                            }
                        }
                        return Err("duplicate_key");
                    }
                    j = j + 1;
                }
                assert(key_fresh(next.last().0, next.drop_last())) by {
                    assert forall|m: int| 0 <= m < next.drop_last().len() implies !keys_equal(next.last().0, #[trigger] next.drop_last()[m].0) by {
                        assert(next.drop_last()[m] == ev[m]);
                    }
                }
                match check_unique_maps(&es[i].0) {
                    Ok(()) => {}
                    Err(e) => {
                        proof {
                            if unique_entries(ev) {
                                lemma_unique_entries_prefix(ev, i + 1);
                            }
                        }
                        return Err(e);
                    }
                }
                match check_unique_maps(&es[i].1) {
                    Ok(()) => {}
                    Err(e) => {
                        proof {
                            if unique_entries(ev) {
                                lemma_unique_entries_prefix(ev, i + 1);
                            }
                        }
                        return Err(e);
                    }
                }
                i = i + 1;
            }
            assert(ev.take(i as int) =~= ev);
            Ok(())
        }
        CborValue::Array(items) => {
            let ghost iv = view_items(items@);
            proof { lemma_view_items(items@); }
            assert(decreases_to!(*value => *items));
            assert(iv.take(0) =~= Seq::<CborV>::empty());
            let mut i: usize = 0;
            while i < items.len()
                invariant
                    i <= items@.len(),
                    decreases_to!(*value => *items),
                    value@ == CborV::Array(iv),
                    iv == view_items(items@),
                    iv.len() == items@.len(),
                    forall|k: int| 0 <= k < items@.len() ==> #[trigger] iv[k] == items@[k]@,
                    unique_items(iv.take(i as int)),
                decreases items@.len() - i,
            {
                proof {
                    assert(decreases_to!(*items => items@));
                    assert(decreases_to!(items@ => items@[i as int]));
                }
                let ghost next = iv.take(i + 1);
                assert(next.drop_last() =~= iv.take(i as int));
                assert(next.last() == iv[i as int]);
                assert(iv[i as int] == items@[i as int]@);
                match check_unique_maps(&items[i]) {
                    Ok(()) => {}
                    Err(e) => {
                        proof {
                            if unique_items(iv) {
                                lemma_unique_items_prefix(iv, i + 1);
                            }
                        }
                        return Err(e);
                    }
                }
                i = i + 1;
            }
            assert(iv.take(i as int) =~= iv);
            Ok(())
        }
        CborValue::Tag(t, inner) => {
            let b: &CborValue = &**inner;
            assert(value@ == CborV::Tag(*t, Box::new(b@)));
            check_unique_maps(b)
        }
        _ => Ok(()),
    }
}

/// Rejects a map key that is neither an integer nor a text string.
pub(crate) fn labels(map: &[(CborValue, CborValue)]) -> (r: Result<(), Problem>)
    ensures
        r is Ok <==> labels_ok(view_entries(map@)),
        r is Err ==> r == Err::<(), Problem>(Problem::structure("header_label_type")),
{
    proof { lemma_view_entries(map@); }
    let mut i: usize = 0;
    while i < map.len()
        invariant
            i <= map@.len(),
            view_entries(map@).len() == map@.len(),
            forall|k: int| 0 <= k < map@.len() ==> #[trigger] view_entries(map@)[k] == (map@[k].0@, map@[k].1@),
            forall|k: int| 0 <= k < i ==> is_label(#[trigger] view_entries(map@)[k].0),
        decreases map@.len() - i,
    {
        assert(view_entries(map@)[i as int] == (map@[i as int].0@, map@[i as int].1@));
        match &map[i].0 {
            CborValue::Integer(_) | CborValue::Text(_) => {}
            _ => {
                assert(!is_label(view_entries(map@)[i as int].0));
                return Err(Problem::structure("header_label_type"));
            }
        }
        i = i + 1;
    }
    Ok(())
}


/// The first problem among the nodes of an inclusion path.
pub open spec fn path_node_problem(path: Seq<CborV>) -> Option<Problem>
    decreases path.len(),
{
    if path.len() == 0 {
        None
    } else {
        match path[0] {
            CborV::Bytes(b) => if b.len() == 32 {
                path_node_problem(path.drop_first())
            } else {
                Some(Problem::structure("path_node_length"))
            },
            _ => Some(Problem::structure("path_node_type")),
        }
    }
}

/// The problem with a decoded RFC 9162 inclusion proof under a tree-size
/// limit, if any.
pub open spec fn proof_problem(value: CborV, max_tree_size: int) -> Option<Problem> {
    match value {
        CborV::Array(items) => if items.len() != 3 {
            Some(Problem::structure("proof_element_count"))
        } else if as_u64(items[0]) is None {
            Some(Problem::structure("tree_type"))
        } else if as_u64(items[1]) is None {
            Some(Problem::structure("leaf_type"))
        } else if as_u64(items[0]).unwrap() == 0 {
            Some(Problem::structure("tree_bounds"))
        } else if as_u64(items[0]).unwrap() > max_tree_size {
            Some(Problem::policy("tree_size_limit"))
        } else if as_u64(items[1]).unwrap() >= as_u64(items[0]).unwrap() {
            Some(Problem::structure("leaf_bounds"))
        } else {
            match items[2] {
                CborV::Array(path) => if path.len() == 0 {
                    Some(Problem::structure("empty_path"))
                } else {
                    path_node_problem(path)
                },
                _ => Some(Problem::structure("path_type")),
            }
        },
        _ => Some(Problem::structure("proof_array_type")),
    }
}

fn u64_of(value: &CborValue) -> (r: Option<u64>)
    ensures
        match as_u64(value@) {
            Some(n) => r == Some(n as u64),
            None => r is None,
        },
{
    match value {
        CborValue::Integer(n) => if *n >= 0 && *n <= 0xffff_ffff_ffff_ffffi128 {
            Some(*n as u64)
        } else {
            None
        },
        _ => None,
    }
}

fn inspect_proof(value: &CborValue, limits: &InspectionLimits) -> (r: Result<(), Problem>)
    ensures
        match proof_problem(value@, limits.max_tree_size as int) {
            Some(p) => r == Err::<(), Problem>(p),
            None => r is Ok,
        },
{
    let items = match value {
        CborValue::Array(items) => items,
        _ => return Err(Problem::structure("proof_array_type")),
    };
    proof { lemma_view_items(items@); }
    if items.len() != 3 {
        return Err(Problem::structure("proof_element_count"));
    }
    let tree = match u64_of(&items[0]) {
        Some(n) => n,
        None => return Err(Problem::structure("tree_type")),
    };
    let leaf = match u64_of(&items[1]) {
        Some(n) => n,
        None => return Err(Problem::structure("leaf_type")),
    };
    if tree == 0 {
        return Err(Problem::structure("tree_bounds"));
    }
    if tree > limits.max_tree_size {
        return Err(Problem::policy("tree_size_limit"));
    }
    if leaf >= tree {
        return Err(Problem::structure("leaf_bounds"));
    }
    let path = match &items[2] {
        CborValue::Array(p) => p,
        _ => return Err(Problem::structure("path_type")),
    };
    let ghost pv = view_items(path@);
    proof { lemma_view_items(path@); }
    if path.len() == 0 {
        return Err(Problem::structure("empty_path"));
    }
    let ghost whole = proof_problem(value@, limits.max_tree_size as int);
    assert(whole == path_node_problem(pv));
    assert(pv.subrange(0, pv.len() as int) =~= pv);
    let mut i: usize = 0;
    while i < path.len()
        invariant
            i <= path@.len(),
            pv == view_items(path@),
            pv.len() == path@.len(),
            forall|k: int| 0 <= k < path@.len() ==> #[trigger] pv[k] == path@[k]@,
            whole == proof_problem(value@, limits.max_tree_size as int),
            whole == path_node_problem(pv.subrange(i as int, pv.len() as int)),
        decreases path@.len() - i,
    {
        let ghost rest = pv.subrange(i as int, pv.len() as int);
        proof {
            assert(rest[0] == pv[i as int]);
            assert(rest.drop_first() =~= pv.subrange(i + 1, pv.len() as int));
        }
        match &path[i] {
            CborValue::Bytes(node) => {
                if node.len() != 32 {
                    return Err(Problem::structure("path_node_length"));
                }
            }
            _ => return Err(Problem::structure("path_node_type")),
        }
        i = i + 1;
    }
    assert(pv.subrange(i as int, pv.len() as int) =~= Seq::<CborV>::empty());
    Ok(())
}

/// Whether `fluent_uri` parses `text` as an RFC 3986 URI.
pub uninterp spec fn uri_parses(text: Seq<char>) -> bool;

/// `fluent_uri::Uri::parse`: whether `text` is an RFC 3986 URI.
#[verifier::external_body]
pub(crate) fn uri(text: &str) -> (r: bool)
    ensures
        r == uri_parses(text@),
{
    fluent_uri::Uri::parse(text).is_ok()
}

/// The value under `key` in the protected map, else in the unprotected one.
pub open spec fn either(p: Seq<(CborV, CborV)>, u: Seq<(CborV, CborV)>, key: int) -> Option<CborV> {
    match entry_value(p, key) {
        Some(v) => Some(v),
        None => entry_value(u, key),
    }
}

/// Whether an `x5t` value has the `[alg, hash]` shape.
pub open spec fn x5t_shape_ok(v: CborV) -> bool {
    v matches CborV::Array(a) && a.len() == 2 && is_label(a[0]) && a[1] is Bytes
}

/// The first problem among the certificates of an `x5chain`.
pub open spec fn cert_problem(certs: Seq<CborV>, max_bytes: int) -> Option<Problem>
    decreases certs.len(),
{
    if certs.len() == 0 {
        None
    } else {
        match certs[0] {
            CborV::Bytes(c) => if c.len() > max_bytes {
                Some(Problem::policy("certificate_byte_limit"))
            } else {
                cert_problem(certs.drop_first(), max_bytes)
            },
            _ => Some(Problem::claims("x5chain_shape")),
        }
    }
}

/// The problem with the X.509 header shapes (`x5t` 34, `x5chain` 33),
/// protected map first.
pub open spec fn x509_problem(p: Seq<(CborV, CborV)>, u: Seq<(CborV, CborV)>, limits: InspectionLimits) -> Option<Problem> {
    if either(p, u, 34) matches Some(t) && !x5t_shape_ok(t) {
        Some(Problem::claims("x5t_shape"))
    } else {
        match either(p, u, 33) {
            None => None,
            Some(chain) => {
                let certs = match chain {
                    CborV::Bytes(_) => Some(seq![chain]),
                    CborV::Array(cs) => if cs.len() >= 2 { Some(cs) } else { None },
                    _ => None,
                };
                match certs {
                    None => Some(Problem::claims("x5chain_shape")),
                    Some(cs) => if cs.len() > limits.max_certificate_chain_length {
                        Some(Problem::policy("certificate_count_limit"))
                    } else {
                        cert_problem(cs, limits.max_certificate_bytes as int)
                    },
                }
            },
        }
    }
}

pub(crate) fn get_either<'a>(p: &'a [(CborValue, CborValue)], u: &'a [(CborValue, CborValue)], key: i128) -> (r: Option<&'a CborValue>)
    ensures
        match either(view_entries(p@), view_entries(u@), key as int) {
            Some(m) => r matches Some(x) && x@ == m,
            None => r is None,
        },
{
    match get(p, key) {
        Some(v) => Some(v),
        None => get(u, key),
    }
}

fn certificates_ok(certs: &[CborValue], limits: &InspectionLimits) -> (r: Result<(), Problem>)
    ensures
        match cert_problem(view_items(certs@), limits.max_certificate_bytes as int) {
            Some(p) => r == Err::<(), Problem>(p),
            None => r is Ok,
        },
        r matches Err(pr) ==> pr.dimension != Dimension::Structure,
{
    let ghost cv = view_items(certs@);
    proof { lemma_view_items(certs@); }
    let ghost whole = cert_problem(cv, limits.max_certificate_bytes as int);
    assert(cv.subrange(0, cv.len() as int) =~= cv);
    let mut i: usize = 0;
    while i < certs.len()
        invariant
            i <= certs@.len(),
            cv == view_items(certs@),
            cv.len() == certs@.len(),
            forall|k: int| 0 <= k < certs@.len() ==> #[trigger] cv[k] == certs@[k]@,
            whole == cert_problem(cv, limits.max_certificate_bytes as int),
            whole == cert_problem(cv.subrange(i as int, cv.len() as int), limits.max_certificate_bytes as int),
        decreases certs@.len() - i,
    {
        let ghost rest = cv.subrange(i as int, cv.len() as int);
        proof {
            assert(rest[0] == cv[i as int]);
            assert(rest.drop_first() =~= cv.subrange(i + 1, cv.len() as int));
        }
        match &certs[i] {
            CborValue::Bytes(c) => {
                if c.len() > limits.max_certificate_bytes {
                    return Err(Problem::policy("certificate_byte_limit"));
                }
            }
            _ => return Err(Problem::claims("x5chain_shape")),
        }
        i = i + 1;
    }
    assert(cv.subrange(i as int, cv.len() as int) =~= Seq::<CborV>::empty());
    Ok(())
}

fn x509_shape(p: &[(CborValue, CborValue)], u: &[(CborValue, CborValue)], limits: &InspectionLimits) -> (r: Result<(), Problem>)
    ensures
        match x509_problem(view_entries(p@), view_entries(u@), *limits) {
            Some(pr) => r == Err::<(), Problem>(pr),
            None => r is Ok,
        },
        r matches Err(pr) ==> pr.dimension != Dimension::Structure,
{
    if let Some(x5t) = get_either(p, u, 34) {
        let ok = match x5t {
            CborValue::Array(a) => {
                proof { lemma_view_items(a@); }
                a.len() == 2 && (match &a[0] {
                    CborValue::Integer(_) | CborValue::Text(_) => true,
                    _ => false,
                }) && (match &a[1] {
                    CborValue::Bytes(_) => true,
                    _ => false,
                })
            }
            _ => false,
        };
        if !ok {
            return Err(Problem::claims("x5t_shape"));
        }
    }
    if let Some(chain) = get_either(p, u, 33) {
        match chain {
            CborValue::Bytes(c) => {
                if 1 > limits.max_certificate_chain_length {
                    return Err(Problem::policy("certificate_count_limit"));
                }
                proof {
                    let cs = seq![chain@];
                    assert(cs.drop_first() =~= Seq::<CborV>::empty());
                    assert(cs[0] == chain@);
                    assert(cert_problem(Seq::<CborV>::empty(), limits.max_certificate_bytes as int) is None);
                }
                if c.len() > limits.max_certificate_bytes {
                    return Err(Problem::policy("certificate_byte_limit"));
                }
                Ok(())
            }
            CborValue::Array(certs) => {
                proof { lemma_view_items(certs@); }
                if certs.len() < 2 {
                    return Err(Problem::claims("x5chain_shape"));
                }
                if certs.len() > limits.max_certificate_chain_length {
                    return Err(Problem::policy("certificate_count_limit"));
                }
                certificates_ok(certs.as_slice(), limits)
            }
            _ => Err(Problem::claims("x5chain_shape")),
        }
    } else {
        Ok(())
    }
}


/// The problem with a required protected integer header, if any.
pub open spec fn required_header_problem(p: Seq<(CborV, CborV)>, u: Seq<(CborV, CborV)>, key: int) -> Option<Problem> {
    match entry_value(p, key) {
        None => Some(Problem::claims(
            if entry_value(u, key) is Some { "required_header_location" } else { "missing_required_header" },
        )),
        Some(v) => if v is Integer { None } else { Some(Problem::claims("required_header_type")) },
    }
}

/// The text claim under `label` of a CWT claims map.
pub open spec fn claim_text(claims: Seq<(CborV, CborV)>, label: int) -> Result<Seq<char>, Problem> {
    match entry_value(claims, label) {
        None => Err(Problem::claims(
            if entry_value(claims, 1) is None && entry_value(claims, 2) is None {
                "missing_integer_claims"
            } else {
                "missing_claim"
            },
        )),
        Some(CborV::Text(t)) => Ok(t),
        Some(_) => Err(Problem::claims("claim_value_type")),
    }
}

/// Whether `t` contains a colon.
pub open spec fn has_colon(t: Seq<char>) -> bool {
    t.contains(':')
}

/// Whether the protected map carries an X.509 header (`x5chain` or `x5t`).
pub open spec fn protected_x509(p: Seq<(CborV, CborV)>) -> bool {
    entry_value(p, 33) is Some || entry_value(p, 34) is Some
}

/// The checks on the issuer and subject claims and on the key identifier.
pub open spec fn claims_checks(p: Seq<(CborV, CborV)>, u: Seq<(CborV, CborV)>, limits: InspectionLimits, iss: Seq<char>, sub: Seq<char>) -> Result<(Seq<char>, Seq<char>), Problem> {
    let x509 = protected_x509(p);
    if x509 && (iss.len() == 0 || iss.len() > 8192) {
        Err(Problem::claims("issuer_length"))
    } else if iss.len() > limits.max_claim_text_characters || sub.len() > limits.max_claim_text_characters {
        Err(Problem::policy("claim_text_limit"))
    } else if x509 && !uri_parses(iss) {
        Err(Problem::claims("x509_issuer_uri"))
    } else if (has_colon(iss) && !uri_parses(iss)) || (has_colon(sub) && !uri_parses(sub)) {
        Err(Problem::claims("uri_syntax"))
    } else if x509_problem(p, u, limits) is Some {
        Err(x509_problem(p, u, limits).unwrap())
    } else if either(p, u, 4) matches Some(k) && !(k is Bytes) {
        Err(Problem::claims("kid_type"))
    } else if !x509 && entry_value(p, 4) is None {
        Err(if entry_value(u, 4) is Some {
            Problem::policy("protected_kid_required")
        } else {
            Problem::claims("missing_key_identifier")
        })
    } else {
        Ok((iss, sub))
    }
}

/// The unauthenticated `(iss, sub)` claims of protected map `p` and
/// unprotected map `u`, or the first problem found with them.
pub open spec fn claims_outcome(p: Seq<(CborV, CborV)>, u: Seq<(CborV, CborV)>, limits: InspectionLimits) -> Result<(Seq<char>, Seq<char>), Problem> {
    if required_header_problem(p, u, 1) is Some {
        Err(required_header_problem(p, u, 1).unwrap())
    } else if required_header_problem(p, u, 395) is Some {
        Err(required_header_problem(p, u, 395).unwrap())
    } else {
        match entry_value(p, 15) {
            None => Err(Problem::claims(if entry_value(u, 15) is Some { "claims_location" } else { "missing_claims" })),
            Some(CborV::Entries(c)) => if !labels_ok(c) {
                Err(Problem::claims("claim_label_type"))
            } else {
                match claim_text(c, 1) {
                    Err(pr) => Err(pr),
                    Ok(iss) => match claim_text(c, 2) {
                        Err(pr) => Err(pr),
                        Ok(sub) => claims_checks(p, u, limits, iss, sub),
                    },
                }
            },
            Some(_) => Err(Problem::claims("claims_map_type")),
        }
    }
}

fn required_header(p: &[(CborValue, CborValue)], u: &[(CborValue, CborValue)], key: i128) -> (r: Result<(), Problem>)
    ensures
        match required_header_problem(view_entries(p@), view_entries(u@), key as int) {
            Some(pr) => r == Err::<(), Problem>(pr),
            None => r is Ok,
        },
{
    match get(p, key) {
        None => Err(Problem::claims(if get(u, key).is_some() { "required_header_location" } else { "missing_required_header" })),
        Some(v) => match v {
            CborValue::Integer(_) => Ok(()),
            _ => Err(Problem::claims("required_header_type")),
        },
    }
}

fn claim_text_of<'a>(claims: &'a [(CborValue, CborValue)], label: i128) -> (r: Result<&'a String, Problem>)
    ensures
        match claim_text(view_entries(claims@), label as int) {
            Ok(t) => r matches Ok(s) && s@ == t,
            Err(pr) => r == Err::<&String, Problem>(pr),
        },
{
    match get(claims, label) {
        None => Err(Problem::claims(
            if get(claims, 1).is_none() && get(claims, 2).is_none() { "missing_integer_claims" } else { "missing_claim" },
        )),
        Some(v) => match v {
            CborValue::Text(t) => Ok(t),
            _ => Err(Problem::claims("claim_value_type")),
        },
    }
}

/// Whether a string contains a colon.
pub(crate) fn contains_colon(s: &str) -> (r: bool)
    ensures
        r == has_colon(s@),
{
    let chars = str_chars(s);
    let mut i: usize = 0;
    while i < chars.len()
        invariant
            i <= chars@.len(),
            chars@ == s@,
            forall|k: int| 0 <= k < i ==> chars@[k] != ':',
        decreases chars@.len() - i,
    {
        if chars[i] == ':' {
            assert(s@[i as int] == ':');
            return true;
        }
        i = i + 1;
    }
    false
}

fn inspect_claims(p: &[(CborValue, CborValue)], u: &[(CborValue, CborValue)], limits: &InspectionLimits) -> (r: Result<UnauthenticatedReceiptClaims, Problem>)
    ensures
        match claims_outcome(view_entries(p@), view_entries(u@), *limits) {
            Ok((iss, sub)) => r matches Ok(c) && c.issuer@ == iss && c.subject@ == sub && !c.authenticated,
            Err(pr) => r == Err::<UnauthenticatedReceiptClaims, Problem>(pr),
        },
        r matches Err(pr) ==> pr.dimension != Dimension::Structure,
{
    let ghost pv = view_entries(p@);
    let ghost uv = view_entries(u@);
    required_header(p, u, 1)?;
    required_header(p, u, 395)?;
    let claims = match get(p, 15) {
        None => return Err(Problem::claims(if get(u, 15).is_some() { "claims_location" } else { "missing_claims" })),
        Some(c) => c,
    };
    let claims = match claims {
        CborValue::Entries(c) => c,
        _ => return Err(Problem::claims("claims_map_type")),
    };
    if labels(claims.as_slice()).is_err() {
        return Err(Problem::claims("claim_label_type"));
    }
    let iss = claim_text_of(claims.as_slice(), 1)?;
    let sub = claim_text_of(claims.as_slice(), 2)?;
    let x509 = get(p, 33).is_some() || get(p, 34).is_some();
    let iss_len = iss.as_str().unicode_len();
    let sub_len = sub.as_str().unicode_len();
    if x509 && (iss_len == 0 || iss_len > 8192) {
        return Err(Problem::claims("issuer_length"));
    }
    if iss_len > limits.max_claim_text_characters || sub_len > limits.max_claim_text_characters {
        return Err(Problem::policy("claim_text_limit"));
    }
    if x509 && !uri(iss.as_str()) {
        return Err(Problem::claims("x509_issuer_uri"));
    }
    if (contains_colon(iss.as_str()) && !uri(iss.as_str())) || (contains_colon(sub.as_str()) && !uri(sub.as_str())) {
        return Err(Problem::claims("uri_syntax"));
    }
    x509_shape(p, u, limits)?;
    if let Some(kid) = get_either(p, u, 4) {
        match kid {
            CborValue::Bytes(_) => {}
            _ => return Err(Problem::claims("kid_type")),
        }
    }
    if !x509 && get(p, 4).is_none() {
        return Err(if get(u, 4).is_some() {
            Problem::policy("protected_kid_required")
        } else {
            Problem::claims("missing_key_identifier")
        });
    }
    Ok(UnauthenticatedReceiptClaims { issuer: iss.clone(), subject: sub.clone(), authenticated: false })
}


/// Whether some key of `m` equals `label` as data items.
pub open spec fn key_present(m: Seq<(CborV, CborV)>, label: CborV) -> bool {
    exists|k: int| 0 <= k < m.len() && cbor_equal(#[trigger] m[k].0, label)
}

/// The problem with the `i`-th `crit` label, if any.
pub open spec fn crit_problem_at(c: Seq<CborV>, i: int, p: Seq<(CborV, CborV)>) -> Option<Problem> {
    if !is_label(c[i]) {
        Some(Problem::structure("crit_label_type"))
    } else if exists|j: int| 0 <= j < i && cbor_equal(#[trigger] c[j], c[i]) {
        Some(Problem::structure("crit_duplicate_label"))
    } else if c[i] == CborV::Integer(2) {
        Some(Problem::structure("crit_self_reference"))
    } else if !key_present(p, c[i]) {
        Some(Problem::structure("crit_reference_absent"))
    } else {
        None
    }
}

/// Whether a `crit` label names semantics the initial profile understands.
pub open spec fn crit_understood(label: CborV) -> bool {
    label matches CborV::Integer(n) && understood_critical(n)
}

/// Checks `crit` labels from index `i` on: whether one of them is not
/// understood, or the first problem.
pub open spec fn crit_scan(c: Seq<CborV>, p: Seq<(CborV, CborV)>, i: int) -> Result<bool, Problem>
    decreases c.len() - i,
{
    if i < 0 || i >= c.len() {
        Ok(false)
    } else {
        match crit_problem_at(c, i, p) {
            Some(pr) => Err(pr),
            None => match crit_scan(c, p, i + 1) {
                Err(pr) => Err(pr),
                Ok(unknown) => Ok(unknown || !crit_understood(c[i])),
            },
        }
    }
}

/// The `crit` (2) header of protected map `p`: whether it names a critical
/// label the profile does not understand, or the problem with it.
pub open spec fn crit_outcome(p: Seq<(CborV, CborV)>) -> Result<bool, Problem> {
    match entry_value(p, 2) {
        None => Ok(false),
        Some(CborV::Array(c)) => if c.len() == 0 {
            Err(Problem::structure("crit_empty"))
        } else {
            crit_scan(c, p, 0)
        },
        Some(_) => Err(Problem::structure("crit_type")),
    }
}

/// Folds an already-seen unknown label into a scan result.
pub open spec fn or_unknown(seen: bool, rest: Result<bool, Problem>) -> Result<bool, Problem> {
    match rest {
        Ok(u) => Ok(seen || u),
        Err(pr) => Err(pr),
    }
}

pub(crate) fn key_present_exec(m: &[(CborValue, CborValue)], label: &CborValue) -> (r: bool)
    ensures
        r == key_present(view_entries(m@), label@),
{
    let ghost mv = view_entries(m@);
    proof { lemma_view_entries(m@); }
    let mut k: usize = 0;
    while k < m.len()
        invariant
            k <= m@.len(),
            mv == view_entries(m@),
            mv.len() == m@.len(),
            forall|j: int| 0 <= j < m@.len() ==> #[trigger] mv[j] == (m@[j].0@, m@[j].1@),
            forall|j: int| 0 <= j < k ==> !cbor_equal(#[trigger] mv[j].0, label@),
        decreases m@.len() - k,
    {
        assert(mv[k as int] == (m@[k as int].0@, m@[k as int].1@));
        if cbor_eq(&m[k].0, label) {
            assert(cbor_equal(mv[k as int].0, label@));
            return true;
        }
        k = k + 1;
    }
    false
}

fn crit_check(p: &[(CborValue, CborValue)]) -> (r: Result<bool, Problem>)
    ensures
        r == crit_outcome(view_entries(p@)),
{
    let ghost pv = view_entries(p@);
    let crit = match get(p, 2) {
        None => return Ok(false),
        Some(c) => c,
    };
    let c = match crit {
        CborValue::Array(c) => c,
        _ => return Err(Problem::structure("crit_type")),
    };
    let ghost cv = view_items(c@);
    proof { lemma_view_items(c@); }
    if c.len() == 0 {
        return Err(Problem::structure("crit_empty"));
    }
    let ghost whole = crit_outcome(pv);
    assert(whole == crit_scan(cv, pv, 0));
    let mut unknown = false;
    let mut i: usize = 0;
    while i < c.len()
        invariant
            i <= c@.len(),
            pv == view_entries(p@),
            cv == view_items(c@),
            cv.len() == c@.len(),
            forall|k: int| 0 <= k < c@.len() ==> #[trigger] cv[k] == c@[k]@,
            whole == crit_outcome(pv),
            whole == or_unknown(unknown, crit_scan(cv, pv, i as int)),
        decreases c@.len() - i,
    {
        let label = &c[i];
        assert(cv[i as int] == label@);
        match label {
            CborValue::Integer(_) | CborValue::Text(_) => {}
            _ => return Err(Problem::structure("crit_label_type")),
        }
        let mut j: usize = 0;
        while j < i
            invariant
                j <= i,
                i < c@.len(),
                pv == view_entries(p@),
                whole == crit_outcome(pv),
                whole == or_unknown(unknown, crit_scan(cv, pv, i as int)),
                is_label(cv[i as int]),
                cv == view_items(c@),
                cv.len() == c@.len(),
                forall|k: int| 0 <= k < c@.len() ==> #[trigger] cv[k] == c@[k]@,
                forall|k: int| 0 <= k < j ==> !cbor_equal(#[trigger] cv[k], cv[i as int]),
            decreases i - j,
        {
            assert(cv[j as int] == c@[j as int]@);
            if cbor_eq(&c[j], &c[i]) {
                assert(cbor_equal(cv[j as int], cv[i as int]));
                return Err(Problem::structure("crit_duplicate_label"));
            }
            j = j + 1;
        }
        let is_two = match label {
            CborValue::Integer(n) => *n == 2,
            _ => false,
        };
        if is_two {
            return Err(Problem::structure("crit_self_reference"));
        }
        if !key_present_exec(p, label) {
            return Err(Problem::structure("crit_reference_absent"));
        }
        let understood = match label {
            CborValue::Integer(n) => *n == 1 || *n == 2 || *n == 4 || *n == 15 || *n == 395,
            _ => false,
        };
        if !understood {
            unknown = true;
        }
        i = i + 1;
    }
    Ok(unknown)
}


/// Whether `label` equals, as a data item, some key of `m`.
pub open spec fn key_in(label: CborV, m: Seq<(CborV, CborV)>) -> bool {
    exists|k: int| 0 <= k < m.len() && cbor_equal(label, #[trigger] m[k].0)
}

/// Whether a label occurs in both header maps.
pub open spec fn maps_overlap(p: Seq<(CborV, CborV)>, u: Seq<(CborV, CborV)>) -> bool {
    exists|i: int| 0 <= i < p.len() && key_in(#[trigger] p[i].0, u)
}

/// The unprotected entries whose labels the protected map does not carry,
/// in order.
pub open spec fn unprotected_extra(u: Seq<(CborV, CborV)>, p: Seq<(CborV, CborV)>) -> Seq<(CborV, CborV)>
    decreases u.len(),
{
    if u.len() == 0 {
        Seq::empty()
    } else if key_in(u.last().0, p) {
        unprotected_extra(u.drop_last(), p)
    } else {
        unprotected_extra(u.drop_last(), p).push(u.last())
    }
}

/// The effective headers: the protected map, then the unprotected entries
/// it does not override.
pub open spec fn effective_headers(p: Seq<(CborV, CborV)>, u: Seq<(CborV, CborV)>) -> Seq<(CborV, CborV)> {
    p + unprotected_extra(u, p)
}

pub(crate) fn key_in_exec(label: &CborValue, m: &[(CborValue, CborValue)]) -> (r: bool)
    ensures
        r == key_in(label@, view_entries(m@)),
{
    let ghost mv = view_entries(m@);
    proof { lemma_view_entries(m@); }
    let mut k: usize = 0;
    while k < m.len()
        invariant
            k <= m@.len(),
            mv == view_entries(m@),
            mv.len() == m@.len(),
            forall|j: int| 0 <= j < m@.len() ==> #[trigger] mv[j] == (m@[j].0@, m@[j].1@),
            forall|j: int| 0 <= j < k ==> !cbor_equal(label@, #[trigger] mv[j].0),
        decreases m@.len() - k,
    {
        assert(mv[k as int] == (m@[k as int].0@, m@[k as int].1@));
        if cbor_eq(label, &m[k].0) {
            assert(cbor_equal(label@, mv[k as int].0));
            return true;
        }
        k = k + 1;
    }
    false
}

pub(crate) fn overlap_exec(p: &[(CborValue, CborValue)], u: &[(CborValue, CborValue)]) -> (r: bool)
    ensures
        r == maps_overlap(view_entries(p@), view_entries(u@)),
{
    let ghost pv = view_entries(p@);
    proof { lemma_view_entries(p@); }
    let mut i: usize = 0;
    while i < p.len()
        invariant
            i <= p@.len(),
            pv == view_entries(p@),
            pv.len() == p@.len(),
            forall|j: int| 0 <= j < p@.len() ==> #[trigger] pv[j] == (p@[j].0@, p@[j].1@),
            forall|j: int| 0 <= j < i ==> !key_in(#[trigger] pv[j].0, view_entries(u@)),
        decreases p@.len() - i,
    {
        assert(pv[i as int] == (p@[i as int].0@, p@[i as int].1@));
        if key_in_exec(&p[i].0, u) {
            assert(key_in(pv[i as int].0, view_entries(u@)));
            return true;
        }
        i = i + 1;
    }
    false
}

pub(crate) fn merge_headers(p: &[(CborValue, CborValue)], u: &[(CborValue, CborValue)]) -> (r: Vec<(CborValue, CborValue)>)
    ensures
        view_entries(r@) == effective_headers(view_entries(p@), view_entries(u@)),
{
    let ghost pv = view_entries(p@);
    let ghost uv = view_entries(u@);
    proof { lemma_view_entries(u@); }
    let mut out = copy_entries(p);
    assert(uv.take(0) =~= Seq::<(CborV, CborV)>::empty());
    assert(pv + Seq::<(CborV, CborV)>::empty() =~= pv);
    let mut i: usize = 0;
    while i < u.len()
        invariant
            i <= u@.len(),
            pv == view_entries(p@),
            uv == view_entries(u@),
            uv.len() == u@.len(),
            forall|j: int| 0 <= j < u@.len() ==> #[trigger] uv[j] == (u@[j].0@, u@[j].1@),
            view_entries(out@) == pv + unprotected_extra(uv.take(i as int), pv),
        decreases u@.len() - i,
    {
        let ghost before = view_entries(out@);
        assert(uv.take(i + 1).drop_last() =~= uv.take(i as int));
        assert(uv.take(i + 1).last() == uv[i as int]);
        assert(uv[i as int] == (u@[i as int].0@, u@[i as int].1@));
        if !key_in_exec(&u[i].0, p) {
            let k = copy_value(&u[i].0);
            let v = copy_value(&u[i].1);
            let ghost old_out = out@;
            out.push((k, v));
            proof {
                assert(out@.drop_last() =~= old_out);
                assert(out@.last() == (k, v));
                assert(view_entries(out@) == view_entries(out@.drop_last()).push((out@.last().0@, out@.last().1@)));
                assert(view_entries(out@) =~= before.push(uv[i as int]));
                assert(before.push(uv[i as int]) =~= pv + unprotected_extra(uv.take(i as int), pv).push(uv[i as int]));
            }
        }
        i = i + 1;
    }
    assert(uv.take(i as int) =~= uv);
    out
}


/// The entries of a map data item.
pub open spec fn entries_of(value: CborV) -> Seq<(CborV, CborV)> {
    match value {
        CborV::Entries(es) => es,
        _ => Seq::empty(),
    }
}

/// The single duplicate-free data item `bytes` encode.
pub open spec fn decoded_unique(bytes: Seq<u8>) -> Option<CborV> {
    match cbor_decode_exact(bytes) {
        Some(v) => if unique_maps(v) { Some(v) } else { None },
        None => None,
    }
}

/// Whether one element of the inclusion-proof array is a byte string
/// holding a well-formed, duplicate-free, well-shaped RFC 9162 proof.
pub open spec fn proof_item_ok(item: CborV, limits: InspectionLimits) -> bool {
    &&& item is Bytes
    &&& wf_cbor(bytes_of(item), limits.max_cbor_nesting - 5)
    &&& decoded_unique(bytes_of(item)) is Some
    &&& proof_problem(decoded_unique(bytes_of(item)).unwrap(), limits.max_tree_size as int) is None
}

/// Whether the `vdp` map of an RFC9162_SHA256 Receipt carries acceptable
/// inclusion proofs.
pub open spec fn proofs_ok(vdp: Seq<(CborV, CborV)>, limits: InspectionLimits) -> bool {
    match entry_value(vdp, -1) {
        Some(v) => proof_array_ok(v, limits),
        None => vdp.len() > 0,
    }
}

/// Whether the inclusion-proof array is nonempty, within the limit, and
/// made of acceptable proofs.
pub open spec fn proof_array_ok(value: CborV, limits: InspectionLimits) -> bool {
    match value {
        CborV::Array(ps) => 0 < ps.len() <= limits.max_proofs_per_receipt
            && forall|i: int| 0 <= i < ps.len() ==> proof_item_ok(#[trigger] ps[i], limits),
        _ => false,
    }
}

/// The item count after scanning `bytes` from `items` counted items, where
/// the scan reaches the end of one data item.
pub open spec fn items_after_scan(bytes: Seq<u8>, depth: int, role: Role, l: InspectionLimits, items: int) -> int {
    match scan_item(bytes, 0, depth, role, l, ScanState { items, issuer: 0, subject: 0, x509: false }) {
        Some((_, s, _)) => s.items,
        None => items,
    }
}

/// Whether the inclusion proofs `ps[i ..]` pass, one after another, the
/// scan at nesting 5 (with the item count running on from `items`), the
/// duplicate-free decoding and the proof-shape rules.
pub open spec fn proof_items_accepted(ps: Seq<CborV>, i: int, l: InspectionLimits, items: int) -> bool
    decreases ps.len() - i,
{
    if i < 0 || i >= ps.len() {
        true
    } else {
        &&& ps[i] is Bytes
        &&& scan_accepts(bytes_of(ps[i]), 5, Role::Proof, l, items)
        &&& decoded_unique(bytes_of(ps[i])) is Some
        &&& proof_problem(decoded_unique(bytes_of(ps[i])).unwrap(), l.max_tree_size as int) is None
        &&& proof_items_accepted(ps, i + 1, l, items_after_scan(bytes_of(ps[i]), 5, Role::Proof, l, items))
    }
}

/// Whether the inclusion-proof array `value` passes all checks with the
/// item count starting at `items`.
pub open spec fn proofs_accepted(value: CborV, l: InspectionLimits, items: int) -> bool {
    match value {
        CborV::Array(ps) => 0 < ps.len() <= l.max_proofs_per_receipt && proof_items_accepted(ps, 0, l, items),
        _ => false,
    }
}

/// Whether the `vdp` map of unprotected map `uv` passes all checks under
/// protected map `pv`, with the item count starting at `items`.
pub open spec fn vdp_accepted(pv: Seq<(CborV, CborV)>, uv: Seq<(CborV, CborV)>, l: InspectionLimits, items: int) -> bool {
    &&& entry_value(uv, 396) matches Some(CborV::Entries(_))
    &&& labels_ok(vdp_of(uv))
    &&& int_header(pv, 395) == Some(1int) ==> match entry_value(vdp_of(uv), -1) {
        Some(v) => proofs_accepted(v, l, items),
        None => vdp_of(uv).len() > 0,
    }
}

/// Whether the `vdp` map carries a proof type other than inclusion proofs.
pub open spec fn proof_type_unknown(vdp: Seq<(CborV, CborV)>) -> bool {
    exists|i: int| 0 <= i < vdp.len() && (#[trigger] vdp[i]).0 != CborV::Integer(-1)
}

/// The integer under `key` in a header map.
pub open spec fn int_header(m: Seq<(CborV, CborV)>, key: int) -> Option<int> {
    match entry_value(m, key) {
        Some(CborV::Integer(n)) => Some(n),
        _ => None,
    }
}

/// The `vdp` (396) map of the unprotected header.
pub open spec fn vdp_of(u: Seq<(CborV, CborV)>) -> Seq<(CborV, CborV)> {
    entries_of(entry_value(u, 396).unwrap())
}

/// The header-level structure rules for protected map `p` and unprotected
/// map `u`.
pub open spec fn header_rules(p: Seq<(CborV, CborV)>, u: Seq<(CborV, CborV)>, limits: InspectionLimits) -> bool {
    &&& labels_ok(p)
    &&& labels_ok(u)
    &&& !(entry_value(p, 15) is Some && entry_value(u, 15) is Some)
    &&& entry_value(u, 2) is None
    &&& entry_value(p, 396) is None
    &&& crit_outcome(p) is Ok
    &&& entry_value(u, 396) matches Some(CborV::Entries(vdp))
    &&& labels_ok(vdp_of(u))
    &&& int_header(p, 395) == Some(1int) ==> proofs_ok(vdp_of(u), limits)
}

/// The protected-header bytes, unprotected map, payload item and signature
/// bytes of an encoded, duplicate-free, tag-18 `COSE_Sign1` Receipt.
pub open spec fn receipt_parts(bytes: Seq<u8>) -> Option<(Seq<u8>, Seq<(CborV, CborV)>, CborV, Seq<u8>)> {
    match decoded_unique(bytes) {
        Some(CborV::Tag(t, inner)) => if t != 18 {
            None
        } else {
            match *inner {
                CborV::Array(items) => if items.len() == 4 && items[0] is Bytes && items[1] is Entries
                    && (items[2] is Bytes || items[2] is Null) && items[3] is Bytes {
                    Some((bytes_of(items[0]), entries_of(items[1]), items[2], bytes_of(items[3])))
                } else {
                    None
                },
                _ => None,
            }
        },
        _ => None,
    }
}

/// The structure problem the decoded outer item of a Receipt fails with, if
/// any: a missing or wrong tag, an array that is not four elements, an
/// element of the wrong type, or empty protected bytes.
pub open spec fn receipt_shape_problem(v: CborV) -> Option<Problem> {
    match v {
        CborV::Tag(t, inner) => if t != 18 {
            Some(Problem::structure("wrong_receipt_tag"))
        } else {
            match *inner {
                CborV::Array(items) => if items.len() != 4 {
                    Some(Problem::structure("element_count"))
                } else if !(items[0] is Bytes) {
                    Some(Problem::structure("protected_type"))
                } else if !(items[1] is Entries) {
                    Some(Problem::structure("unprotected_type"))
                } else if !(items[2] is Bytes || items[2] is Null) {
                    Some(Problem::structure("payload_type"))
                } else if !(items[3] is Bytes) {
                    Some(Problem::structure("signature_type"))
                } else if bytes_of(items[0]).len() == 0 {
                    Some(Problem::structure("protected_not_map"))
                } else {
                    None
                },
                _ => Some(Problem::structure("element_count")),
            }
        },
        _ => Some(Problem::structure("missing_receipt_tag")),
    }
}

/// Whether a Receipt passes every structure step of an inspection under
/// limits `l`, with the item count starting at `items`: the outer scan, the
/// duplicate-free decoding, the tagged four-element shape, the protected
/// scan and map, the header placement rules and the `vdp` map.
pub open spec fn receipt_accepted(bytes: Seq<u8>, l: InspectionLimits, items: int) -> bool {
    let after_outer = items_after_scan(bytes, 0, Role::Envelope, l, items);
    &&& scan_accepts(bytes, 0, Role::Envelope, l, items)
    &&& decoded_unique(bytes) matches Some(v)
    &&& receipt_shape_problem(v) is None
    &&& receipt_parts(bytes) matches Some((p, u, m, s))
    &&& scan_accepts(p, 2, Role::ProtectedMap, l, after_outer)
    &&& protected_map(p) matches Some(pm)
    &&& header_checks_outcome(pm, u) is Ok
    &&& vdp_accepted(pm, u, l, items_after_scan(p, 2, Role::ProtectedMap, l, after_outer))
}

/// The protected header map that nonempty protected-header bytes encode.
pub open spec fn protected_map(p: Seq<u8>) -> Option<Seq<(CborV, CborV)>> {
    if p.len() == 0 {
        None
    } else {
        match decoded_unique(p) {
            Some(CborV::Entries(m)) => Some(m),
            _ => None,
        }
    }
}

/// Whether encoded Receipt bytes pass every structure rule under a policy.
pub open spec fn structure_ok(bytes: Seq<u8>, policy: InspectionPolicy) -> bool {
    let l = policy.limits;
    &&& limits_valid(l)
    &&& bytes.len() <= l.max_receipt_bytes
    &&& wf_cbor(bytes, l.max_cbor_nesting as int)
    &&& receipt_parts(bytes) matches Some((p, u, m, s))
    &&& wf_cbor(p, l.max_cbor_nesting - 2)
    &&& protected_map(p) matches Some(pm)
    &&& header_rules(pm, u, l)
}

/// The support finding a structurally sound Receipt earns, when its
/// algorithm and VDS are integers and no X.509 header is present: `None`
/// for a full pass.
pub open spec fn support_code(p: Seq<(CborV, CborV)>, u: Seq<(CborV, CborV)>) -> Option<&'static str> {
    let vds = int_header(p, 395).unwrap();
    if vds == 2 {
        Some("ccf_profile_not_implemented")
    } else if vds != 1 {
        Some("unknown_vds_registry_review")
    } else if int_header(p, 1) != Some(-8int) {
        Some("ts_algorithm")
    } else if crit_outcome(p) == Ok::<bool, Problem>(true) {
        Some("critical_semantics")
    } else if proof_type_unknown(vdp_of(u)) {
        Some("proof_type_registry_review")
    } else {
        None
    }
}

/// An inspection report over one encoded Receipt. Protected, payload and
/// signature contents are exact; effective headers are decoded conveniences,
/// not replacement signed bytes.
pub struct EnvelopeReport<'a> {
    pub encoded_receipt: &'a [u8],
    pub protected_bytes: Option<Vec<u8>>,
    pub payload_bytes: Option<Vec<u8>>,
    pub signature_bytes: Option<Vec<u8>>,
    pub unauthenticated_claims: Option<UnauthenticatedReceiptClaims>,
    pub effective_headers: Vec<(CborValue, CborValue)>,
    pub structure: InspectionFinding,
    pub required_claims: InspectionFinding,
    pub support: InspectionFinding,
    pub selected_policy: InspectionFinding,
    pub policy_id: &'static str,
    pub policy: InspectionPolicy,
    pub cbor_items_inspected: usize,
    pub ts_signature: InspectionFinding,
    pub inclusion: InspectionFinding,
    pub ts_identity_trust: InspectionFinding,
    pub subject_policy: InspectionFinding,
    pub application_policy: InspectionFinding,
}

/// The bytes of an optional byte vector.
pub open spec fn opt_bytes(v: Option<Vec<u8>>) -> Option<Seq<u8>> {
    match v {
        Some(b) => Some(b@),
        None => None,
    }
}

fn apply_problem(report: &mut EnvelopeReport, problem: Problem)
    ensures
        final(report).encoded_receipt == old(report).encoded_receipt,
        final(report).policy == old(report).policy,
        final(report).protected_bytes == old(report).protected_bytes,
        final(report).payload_bytes == old(report).payload_bytes,
        final(report).signature_bytes == old(report).signature_bytes,
        final(report).unauthenticated_claims == old(report).unauthenticated_claims,
        final(report).effective_headers == old(report).effective_headers,
        final(report).policy_id == old(report).policy_id,
        final(report).cbor_items_inspected == old(report).cbor_items_inspected,
        final(report).ts_signature == old(report).ts_signature,
        final(report).inclusion == old(report).inclusion,
        final(report).ts_identity_trust == old(report).ts_identity_trust,
        final(report).subject_policy == old(report).subject_policy,
        final(report).application_policy == old(report).application_policy,
        match problem.dimension {
            Dimension::Structure => finding_is(final(report).structure, InspectionStatus::Failed, problem.code)
                && finding_is(final(report).required_claims, InspectionStatus::NotEvaluated, "dependent_check_not_run")
                && finding_is(final(report).support, InspectionStatus::NotEvaluated, "dependent_check_not_run")
                && final(report).selected_policy == old(report).selected_policy,
            Dimension::Claims => finding_is(final(report).required_claims, InspectionStatus::Failed, problem.code)
                && final(report).structure == old(report).structure
                && final(report).support == old(report).support
                && final(report).selected_policy == old(report).selected_policy,
            Dimension::Policy => finding_is(final(report).selected_policy, InspectionStatus::Failed, problem.code)
                && final(report).structure == old(report).structure
                && final(report).support == old(report).support
                && final(report).required_claims == old(report).required_claims,
        },
{
    let finding = InspectionFinding::new(
        InspectionStatus::Failed,
        problem.code,
        "Rejected in the named dimension; consult policy and exact input bytes.",
    );
    match problem.dimension {
        Dimension::Structure => {
            report.structure = finding;
            report.required_claims = InspectionFinding::skipped();
            report.support = InspectionFinding::skipped();
        }
        Dimension::Claims => report.required_claims = finding,
        Dimension::Policy => report.selected_policy = finding,
    }
}

pub(crate) fn decode_unique(bytes: &[u8]) -> (r: Result<CborValue, Problem>)
    ensures
        r is Ok <==> decoded_unique(bytes@) is Some,
        r matches Ok(v) ==> decoded_unique(bytes@) == Some(v@),
{
    let value = match cbor_decode(bytes) {
        Ok(v) => v,
        Err(unreadable) => {
            if unreadable {
                return Err(Problem::structure("invalid_cbor"));
            }
            return Err(Problem::structure("trailing_cbor"));
        }
    };
    match check_unique_maps(&value) {
        Ok(()) => Ok(value),
        Err(code) => Err(Problem::structure(code)),
    }
}


/// The header-placement rules of a Receipt's protected and unprotected
/// maps, in the order they are checked; `Ok` tells whether `crit` names an
/// unknown label.
pub open spec fn header_checks_outcome(pv: Seq<(CborV, CborV)>, uv: Seq<(CborV, CborV)>) -> Result<bool, Problem> {
    if !labels_ok(pv) || !labels_ok(uv) {
        Err(Problem::structure("header_label_type"))
    } else if entry_value(pv, 15) is Some && entry_value(uv, 15) is Some {
        Err(Problem::structure("label15_single_occurrence"))
    } else if entry_value(uv, 2) is Some {
        Err(Problem::structure("crit_location"))
    } else if entry_value(pv, 396) is Some {
        Err(Problem::structure("vdp_location"))
    } else {
        crit_outcome(pv)
    }
}

fn header_checks(p: &[(CborValue, CborValue)], u: &[(CborValue, CborValue)]) -> (r: Result<bool, Problem>)
    ensures
        r == header_checks_outcome(view_entries(p@), view_entries(u@)),
        r matches Ok(unknown) ==> {
            let pv = view_entries(p@);
            let uv = view_entries(u@);
            &&& labels_ok(pv)
            &&& labels_ok(uv)
            &&& !(entry_value(pv, 15) is Some && entry_value(uv, 15) is Some)
            &&& entry_value(uv, 2) is None
            &&& entry_value(pv, 396) is None
            &&& crit_outcome(pv) == Ok::<bool, Problem>(unknown)
        },
{
    labels(p)?;
    labels(u)?;
    if get(p, 15).is_some() && get(u, 15).is_some() {
        return Err(Problem::structure("label15_single_occurrence"));
    }
    if get(u, 2).is_some() {
        return Err(Problem::structure("crit_location"));
    }
    if get(p, 396).is_some() {
        return Err(Problem::structure("vdp_location"));
    }
    crit_check(p)
}

pub(crate) fn integer_of(value: Option<&CborValue>) -> (r: Option<i128>)
    ensures
        r == (match value {
            Some(v) => match v@ {
                CborV::Integer(n) => Some(n as i128),
                _ => None::<i128>,
            },
            None => None::<i128>,
        }),
{
    match value {
        Some(v) => match v {
            CborValue::Integer(n) => Some(*n),
            _ => None,
        },
        None => None,
    }
}

fn check_proofs(proofs: &CborValue, budget: &mut Budget) -> (r: Result<(), Problem>)
    ensures
        final(budget).limits == old(budget).limits,
        r is Ok ==> proof_array_ok(proofs@, *old(budget).limits),
        r is Ok <==> proofs_accepted(proofs@, *old(budget).limits, old(budget).items as int),
        !(proofs@ is Array) ==> r == Err::<(), Problem>(Problem::structure("inclusion_array_type")),
        proofs@ matches CborV::Array(ps) && ps.len() == 0 ==> r == Err::<(), Problem>(Problem::structure("empty_inclusion_array")),
        proofs@ matches CborV::Array(ps) && ps.len() > old(budget).limits.max_proofs_per_receipt
            ==> r == Err::<(), Problem>(Problem::policy("proof_limit")),
{
    let items = match proofs {
        CborValue::Array(items) => items,
        _ => return Err(Problem::structure("inclusion_array_type")),
    };
    let ghost iv = view_items(items@);
    proof { lemma_view_items(items@); }
    if items.len() == 0 {
        return Err(Problem::structure("empty_inclusion_array"));
    }
    if items.len() > budget.limits.max_proofs_per_receipt {
        return Err(Problem::policy("proof_limit"));
    }
    let ghost limits = *budget.limits;
    let mut i: usize = 0;
    while i < items.len()
        invariant
            i <= items@.len(),
            *budget.limits == limits,
            limits == *old(budget).limits,
            iv == view_items(items@),
            iv.len() == items@.len(),
            proofs@ == CborV::Array(iv),
            0 < iv.len() <= limits.max_proofs_per_receipt,
            forall|k: int| 0 <= k < items@.len() ==> #[trigger] iv[k] == items@[k]@,
            forall|k: int| 0 <= k < i ==> proof_item_ok(#[trigger] iv[k], limits),
            proof_items_accepted(iv, 0, limits, old(budget).items as int)
                == proof_items_accepted(iv, i as int, limits, budget.items as int),
        decreases items@.len() - i,
    {
        assert(iv[i as int] == items@[i as int]@);
        let ghost before = budget.items as int;
        let bytes = match &items[i] {
            CborValue::Bytes(b) => b,
            _ => return Err(Problem::structure("proof_not_bstr")),
        };
        budget.scan(bytes.as_slice(), 5, Role::Proof, "proof_trailing_data")?;
        let proof = decode_unique(bytes.as_slice())?;
        inspect_proof(&proof, budget.limits)?;
        proof {
            assert(budget.items as int == items_after_scan(bytes_of(iv[i as int]), 5, Role::Proof, limits, before));
        }
        i = i + 1;
    }
    proof {
        assert(proof_items_accepted(iv, i as int, limits, budget.items as int));
    }
    Ok(())
}

fn vdp_checks(p: &[(CborValue, CborValue)], u: &[(CborValue, CborValue)], budget: &mut Budget) -> (r: Result<bool, Problem>)
    ensures
        final(budget).limits == old(budget).limits,
        r matches Ok(unknown) ==> {
            let pv = view_entries(p@);
            let uv = view_entries(u@);
            &&& entry_value(uv, 396) matches Some(CborV::Entries(vdp))
            &&& labels_ok(vdp_of(uv))
            &&& int_header(pv, 395) == Some(1int) ==> proofs_ok(vdp_of(uv), *old(budget).limits)
            &&& unknown == (int_header(pv, 395) == Some(1int) && proof_type_unknown(vdp_of(uv)))
        },
        r is Ok <==> vdp_accepted(view_entries(p@), view_entries(u@), *old(budget).limits, old(budget).items as int),
        entry_value(view_entries(u@), 396) is None ==> r == Err::<bool, Problem>(Problem::structure("vdp_location")),
        entry_value(view_entries(u@), 396) matches Some(v) && !(v is Entries)
            ==> r == Err::<bool, Problem>(Problem::structure("vdp_map_type")),
{
    let vdp = match get(u, 396) {
        Some(v) => v,
        None => return Err(Problem::structure("vdp_location")),
    };
    let vdp = match vdp {
        CborValue::Entries(m) => m,
        _ => return Err(Problem::structure("vdp_map_type")),
    };
    let ghost vv = view_entries(vdp@);
    proof { lemma_view_entries(vdp@); }
    labels(vdp.as_slice())?;
    let vds = integer_of(get(p, 395));
    let mut proof_unknown = false;
    if vds == Some(1) {
        match get(vdp.as_slice(), -1) {
            Some(proofs) => {
                check_proofs(proofs, budget)?;
            }
            None => {
                if vdp.len() == 0 {
                    return Err(Problem::structure("missing_inclusion"));
                }
            }
        }
        let mut i: usize = 0;
        while i < vdp.len()
            invariant
                i <= vdp@.len(),
                vv == view_entries(vdp@),
                vv.len() == vdp@.len(),
                forall|k: int| 0 <= k < vdp@.len() ==> #[trigger] vv[k] == (vdp@[k].0@, vdp@[k].1@),
                proof_unknown ==> proof_type_unknown(vv),
                !proof_unknown ==> forall|k: int| 0 <= k < i ==> (#[trigger] vv[k]).0 == CborV::Integer(-1),
            decreases vdp@.len() - i,
        {
            assert(vv[i as int] == (vdp@[i as int].0@, vdp@[i as int].1@));
            let minus_one = match &vdp[i].0 {
                CborValue::Integer(n) => *n == -1,
                _ => false,
            };
            if !minus_one {
                assert(vv[i as int].0 != CborV::Integer(-1));
                proof_unknown = true;
            }
            i = i + 1;
        }
    }
    Ok(proof_unknown)
}


/// The fields an inspection never changes.
pub open spec fn same_frame(a: EnvelopeReport, b: EnvelopeReport) -> bool {
    &&& a.encoded_receipt == b.encoded_receipt
    &&& a.policy == b.policy
    &&& a.policy_id == b.policy_id
    &&& a.cbor_items_inspected == b.cbor_items_inspected
    &&& a.ts_signature == b.ts_signature
    &&& a.inclusion == b.inclusion
    &&& a.ts_identity_trust == b.ts_identity_trust
    &&& a.subject_policy == b.subject_policy
    &&& a.application_policy == b.application_policy
}

/// Whether a finding is the "dependent check not run" finding.
pub open spec fn is_skipped(f: InspectionFinding) -> bool {
    finding_is(f, InspectionStatus::NotEvaluated, "dependent_check_not_run")
}

/// The report before any inspection step has run.
pub open spec fn fresh_report(r: EnvelopeReport) -> bool {
    &&& is_skipped(r.structure)
    &&& is_skipped(r.required_claims)
    &&& is_skipped(r.support)
    &&& finding_is(r.selected_policy, InspectionStatus::Passed, "checked")
    &&& r.protected_bytes is None
    &&& r.payload_bytes is None
    &&& r.signature_bytes is None
    &&& r.unauthenticated_claims is None
    &&& r.effective_headers@.len() == 0
}

/// Whether the algorithm and VDS headers are integers and the VDS is not
/// the reserved zero.
pub open spec fn support_typed(p: Seq<(CborV, CborV)>) -> bool {
    int_header(p, 1) is Some && int_header(p, 395) is Some && int_header(p, 395) != Some(0int)
}

/// What a report over structurally sound Receipt bytes holds: the exact
/// element contents, the effective headers, and the claims and support
/// findings.
pub open spec fn report_content(rep: EnvelopeReport, bytes: Seq<u8>, policy: InspectionPolicy) -> bool {
    let (p, u, m, s) = receipt_parts(bytes).unwrap();
    let pm = protected_map(p).unwrap();
    let l = policy.limits;
    &&& opt_bytes(rep.protected_bytes) == Some(p)
    &&& opt_bytes(rep.signature_bytes) == Some(s)
    &&& opt_bytes(rep.payload_bytes) == (match m { CborV::Bytes(b) => Some(b), _ => None::<Seq<u8>> })
    &&& view_entries(rep.effective_headers@) == effective_headers(pm, u)
    &&& rep.required_claims.status == InspectionStatus::Passed ==> (claims_outcome(pm, u, l) matches Ok((iss, sub))
        && rep.unauthenticated_claims matches Some(c) && c.issuer@ == iss && c.subject@ == sub && !c.authenticated)
    &&& claims_outcome(pm, u, l) is Err ==> rep.required_claims.status != InspectionStatus::Passed
        && rep.unauthenticated_claims is None
    &&& (int_header(pm, 1) is None || int_header(pm, 395) is None) ==> is_skipped(rep.support)
    &&& (int_header(pm, 1) is Some && int_header(pm, 395) == Some(0int)) ==> finding_is(rep.support, InspectionStatus::Failed, "reserved_vds")
    &&& (support_typed(pm) && support_code(pm, u) is Some) ==> finding_is(rep.support, InspectionStatus::Unsupported, support_code(pm, u).unwrap())
    &&& (support_typed(pm) && support_code(pm, u) is None && !protected_x509(pm)) ==> finding_is(rep.support, InspectionStatus::Passed, "checked")
    &&& (support_typed(pm) && support_code(pm, u) is None && protected_x509(pm)) ==> rep.support.status != InspectionStatus::Passed
    &&& (policy.strict_cross_map && maps_overlap(pm, u)) ==> rep.selected_policy.status == InspectionStatus::Failed
}


fn support_finding(p: &[(CborValue, CborValue)], u: &[(CborValue, CborValue)], limits: &InspectionLimits, critical_unknown: bool, proof_unknown: bool, raw_x5t_invalid: bool) -> (r: Option<InspectionFinding>)
    requires
        crit_outcome(view_entries(p@)) == Ok::<bool, Problem>(critical_unknown),
        entry_value(view_entries(u@), 396) matches Some(CborV::Entries(vdp)),
        proof_unknown == (int_header(view_entries(p@), 395) == Some(1int) && proof_type_unknown(vdp_of(view_entries(u@)))),
    ensures
        ({
            let pm = view_entries(p@);
            let uv = view_entries(u@);
            &&& (int_header(pm, 1) is None || int_header(pm, 395) is None) ==> r is None
            &&& (int_header(pm, 1) is Some && int_header(pm, 395) == Some(0int)) ==> (r matches Some(f) && finding_is(f, InspectionStatus::Failed, "reserved_vds"))
            &&& (support_typed(pm) && support_code(pm, uv) is Some) ==> (r matches Some(f) && finding_is(f, InspectionStatus::Unsupported, support_code(pm, uv).unwrap()))
            &&& (support_typed(pm) && support_code(pm, uv) is None && !protected_x509(pm)) ==> (r matches Some(f) && finding_is(f, InspectionStatus::Passed, "checked"))
            &&& (support_typed(pm) && support_code(pm, uv) is None && protected_x509(pm)) ==> (r is None || (r matches Some(f) && f.status != InspectionStatus::Passed))
        }),
{
    let alg = integer_of(get(p, 1));
    let vds = integer_of(get(p, 395));
    let (a, v) = match (alg, vds) {
        (Some(a), Some(v)) => (a, v),
        _ => return None,
    };
    if v == 0 {
        return Some(InspectionFinding::new(
            InspectionStatus::Failed,
            "reserved_vds",
            "VDS zero is reserved, not an unsupported registration.",
        ));
    }
    let unsupported: Option<&'static str> = if v == 2 {
        Some("ccf_profile_not_implemented")
    } else if v != 1 {
        Some("unknown_vds_registry_review")
    } else if a != -8 {
        Some("ts_algorithm")
    } else if critical_unknown {
        Some("critical_semantics")
    } else if proof_unknown {
        Some("proof_type_registry_review")
    } else if get(p, 33).is_some() || get(p, 34).is_some() {
        if raw_x5t_invalid || x509_shape(p, u, limits).is_err() {
            return None;
        }
        Some("x509_not_implemented")
    } else {
        None
    };
    Some(match unsupported {
        Some(code) => InspectionFinding::new(
            InspectionStatus::Unsupported,
            code,
            "Not implemented by the initial Ed25519/RFC9162 policy; no crypto or trust finding follows.",
        ),
        None => InspectionFinding::passed(),
    })
}


fn inspect(report: &mut EnvelopeReport, budget: &mut Budget) -> (r: Result<(), Problem>)
    requires
        *old(budget).limits == old(report).policy.limits,
        fresh_report(*old(report)),
    ensures
        same_frame(*old(report), *final(report)),
        ({
            let bytes = old(report).encoded_receipt@;
            let policy = old(report).policy;
            let l = policy.limits;
            &&& !limits_valid(l) ==> r == Err::<(), Problem>(Problem::policy("invalid_policy_limits")) && *final(report) == *old(report)
            &&& (limits_valid(l) && bytes.len() > l.max_receipt_bytes) ==> r == Err::<(), Problem>(Problem::policy("receipt_byte_limit")) && *final(report) == *old(report)
            &&& r is Err ==> is_skipped(final(report).structure) && is_skipped(final(report).required_claims)
                && is_skipped(final(report).support) && final(report).unauthenticated_claims is None
            &&& r is Ok ==> finding_is(final(report).structure, InspectionStatus::Passed, "checked")
                && structure_ok(bytes, policy) && report_content(*final(report), bytes, policy)
            &&& (limits_valid(l) && bytes.len() <= l.max_receipt_bytes) ==>
                (r is Ok <==> receipt_accepted(bytes, l, old(budget).items as int))
            &&& (limits_valid(l) && bytes.len() <= l.max_receipt_bytes
                && scan_accepts(bytes, 0, Role::Envelope, l, old(budget).items as int)) ==> match decoded_unique(bytes) {
                    Some(v) => match receipt_shape_problem(v) {
                        Some(pr) => r == Err::<(), Problem>(pr)
                            && final(budget).items == items_after_scan(bytes, 0, Role::Envelope, l, old(budget).items as int),
                        None => true,
                    },
                    None => true,
                }
            &&& final(report).unauthenticated_claims matches Some(c) ==> !c.authenticated
            &&& r is Err ==> final(report).selected_policy == old(report).selected_policy
        }),
{
    if !report.policy.valid() {
        return Err(Problem::policy("invalid_policy_limits"));
    }
    if report.encoded_receipt.len() > budget.limits.max_receipt_bytes {
        return Err(Problem::policy("receipt_byte_limit"));
    }
    let ghost l = report.policy.limits;
    budget.scan(report.encoded_receipt, 0, Role::Envelope, "outer_trailing_data")?;
    let value = decode_unique(report.encoded_receipt)?;
    let inner: &CborValue = match &value {
        CborValue::Tag(tag, inner) => {
            if *tag != 18 {
                return Err(Problem::structure("wrong_receipt_tag"));
            }
            let b: &CborValue = &**inner;
            assert(value@ == CborV::Tag(*tag, Box::new(b@)));
            b
        }
        _ => return Err(Problem::structure("missing_receipt_tag")),
    };
    let items = match inner {
        CborValue::Array(items) => items,
        _ => return Err(Problem::structure("element_count")),
    };
    proof { lemma_view_items(items@); }
    if items.len() != 4 {
        return Err(Problem::structure("element_count"));
    }
    let p = match &items[0] {
        CborValue::Bytes(p) => p,
        _ => return Err(Problem::structure("protected_type")),
    };
    let u = match &items[1] {
        CborValue::Entries(u) => u,
        _ => return Err(Problem::structure("unprotected_type")),
    };
    match &items[2] {
        CborValue::Bytes(_) | CborValue::Null => {}
        _ => return Err(Problem::structure("payload_type")),
    }
    let s = match &items[3] {
        CborValue::Bytes(s) => s,
        _ => return Err(Problem::structure("signature_type")),
    };
    if p.len() == 0 {
        return Err(Problem::structure("protected_not_map"));
    }
    budget.scan(p.as_slice(), 2, Role::ProtectedMap, "protected_trailing_data")?;
    let protected = decode_unique(p.as_slice())?;
    let pm = match &protected {
        CborValue::Entries(pm) => pm,
        _ => return Err(Problem::structure("protected_not_map")),
    };
    let ghost pv = view_entries(pm@);
    let ghost uv = view_entries(u@);
    let critical_unknown = header_checks(pm.as_slice(), u.as_slice())?;
    let strict = report.policy.strict_cross_map;
    let overlaps = overlap_exec(pm.as_slice(), u.as_slice());
    let proof_unknown = vdp_checks(pm.as_slice(), u.as_slice(), budget)?;
    report.protected_bytes = Some(p.clone());
    report.signature_bytes = Some(s.clone());
    report.payload_bytes = match &items[2] {
        CborValue::Bytes(m) => Some(m.clone()),
        _ => None,
    };
    if strict && overlaps {
        apply_problem(report, Problem::policy("cross_map_overlap"));
    }
    report.effective_headers = merge_headers(pm.as_slice(), u.as_slice());
    report.structure = InspectionFinding::passed();
    proof {
        assert(receipt_parts(report.encoded_receipt@) == Some((p@, uv, items@[2]@, s@)));
        assert(protected_map(p@) == Some(pv));
    }
    let raw_x5t_invalid = budget.unprotected_x5t_invalid && get(pm.as_slice(), 34).is_none();
    let claims_result = if raw_x5t_invalid {
        Err(Problem::claims("x5t_shape"))
    } else {
        inspect_claims(pm.as_slice(), u.as_slice(), budget.limits)
    };
    match claims_result {
        Ok(claims) => {
            report.unauthenticated_claims = Some(claims);
            report.required_claims = InspectionFinding::passed();
        }
        Err(problem) => apply_problem(report, problem),
    }
    match support_finding(pm.as_slice(), u.as_slice(), budget.limits, critical_unknown, proof_unknown, raw_x5t_invalid) {
        Some(f) => report.support = f,
        None => {}
    }
    proof {
        let bytes = report.encoded_receipt@;
        assert(limits_valid(l));
        assert(*budget.limits == l);
        assert(wf_cbor(bytes, l.max_cbor_nesting as int));
        assert(wf_cbor(p@, l.max_cbor_nesting - 2));
        assert(header_rules(pv, uv, l));
        assert(structure_ok(bytes, report.policy));
        assert(opt_bytes(report.protected_bytes) == Some(p@));
        assert(view_entries(report.effective_headers@) == effective_headers(pv, uv));
        assert(report_content(*report, bytes, report.policy));
    }
    Ok(())
}


/// Inspects a single encoded tagged Receipt under explicit local policy,
/// with no keys, I/O, network, cryptography, subject binding or attachment
/// acceptance decision. A passed structure or claims finding does not
/// establish a valid signature.
pub fn inspect_scitt_receipt<'a>(receipt_bytes: &'a [u8], policy: &InspectionPolicy) -> (r: EnvelopeReport<'a>)
    ensures
        r.encoded_receipt == receipt_bytes,
        r.policy == *policy,
        r.policy_id == INSPECTION_POLICY_ID,
        finding_is(r.ts_signature, InspectionStatus::NotEvaluated, "outside_phase1"),
        finding_is(r.inclusion, InspectionStatus::NotEvaluated, "outside_phase1"),
        finding_is(r.ts_identity_trust, InspectionStatus::NotEvaluated, "outside_phase1"),
        finding_is(r.subject_policy, InspectionStatus::NotEvaluated, "outside_phase1"),
        finding_is(r.application_policy, InspectionStatus::NotEvaluated, "outside_phase1"),
        !limits_valid(policy.limits) ==> finding_is(r.selected_policy, InspectionStatus::Failed, "invalid_policy_limits")
            && is_skipped(r.structure) && r.protected_bytes is None,
        (limits_valid(policy.limits) && receipt_bytes@.len() > policy.limits.max_receipt_bytes)
            ==> finding_is(r.selected_policy, InspectionStatus::Failed, "receipt_byte_limit")
            && is_skipped(r.structure) && r.protected_bytes is None,
        r.structure.status == InspectionStatus::Passed ==> finding_is(r.structure, InspectionStatus::Passed, "checked")
            && structure_ok(receipt_bytes@, *policy) && report_content(r, receipt_bytes@, *policy),
        r.structure.status != InspectionStatus::Passed ==> is_skipped(r.support)
            && r.required_claims.status != InspectionStatus::Passed && r.unauthenticated_claims is None,
        (limits_valid(policy.limits) && receipt_bytes@.len() <= policy.limits.max_receipt_bytes) ==>
            (r.structure.status == InspectionStatus::Passed <==> receipt_accepted(receipt_bytes@, policy.limits, 0)),
        (limits_valid(policy.limits) && receipt_bytes@.len() <= policy.limits.max_receipt_bytes
            && scan_accepts(receipt_bytes@, 0, Role::Envelope, policy.limits, 0)) ==> match decoded_unique(receipt_bytes@) {
                Some(v) => match receipt_shape_problem(v) {
                    Some(pr) => finding_is(r.structure, InspectionStatus::Failed, pr.code)
                        && finding_is(r.required_claims, InspectionStatus::NotEvaluated, "dependent_check_not_run")
                        && finding_is(r.support, InspectionStatus::NotEvaluated, "dependent_check_not_run")
                        && r.selected_policy.status == InspectionStatus::Passed
                        && r.cbor_items_inspected == items_after_scan(receipt_bytes@, 0, Role::Envelope, policy.limits, 0),
                    None => true,
                },
                None => true,
            },
        r.unauthenticated_claims matches Some(c) ==> !c.authenticated,
{
    let mut report = EnvelopeReport {
        encoded_receipt: receipt_bytes,
        protected_bytes: None,
        payload_bytes: None,
        signature_bytes: None,
        unauthenticated_claims: None,
        effective_headers: Vec::new(),
        structure: InspectionFinding::skipped(),
        required_claims: InspectionFinding::skipped(),
        support: InspectionFinding::skipped(),
        selected_policy: InspectionFinding::passed(),
        policy_id: INSPECTION_POLICY_ID,
        policy: *policy,
        cbor_items_inspected: 0,
        ts_signature: InspectionFinding::later(),
        inclusion: InspectionFinding::later(),
        ts_identity_trust: InspectionFinding::later(),
        subject_policy: InspectionFinding::later(),
        application_policy: InspectionFinding::later(),
    };
    let mut budget = Budget { limits: &policy.limits, items: 0, unprotected_x5t_invalid: false };
    let ghost before = report;
    match inspect(&mut report, &mut budget) {
        Ok(()) => {}
        Err(problem) => {
            proof {
                if limits_valid(policy.limits) && receipt_bytes@.len() <= policy.limits.max_receipt_bytes
                    && scan_accepts(receipt_bytes@, 0, Role::Envelope, policy.limits, 0)
                    && decoded_unique(receipt_bytes@) is Some
                    && receipt_shape_problem(decoded_unique(receipt_bytes@)->Some_0) is Some {
                    assert(problem.dimension == Dimension::Structure);
                    assert(report.selected_policy == before.selected_policy);
                }
            }
            apply_problem(&mut report, problem);
        },
    }
    report.cbor_items_inspected = budget.items;
    report
}

} // verus!
