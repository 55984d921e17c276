//! Attaching a Receipt to a Signed Statement under the unprotected
//! `receipts` label (394), checking container structure only: never
//! signatures, proofs, claims or trust.
use vstd::prelude::*;
use crate::cbor::{CborValue, CborV, cbor_read, cbor_written, cbor_decode, cbor_write, key_index, view_items, view_entries,
    lemma_view_items, lemma_view_entries, lemma_key_index, copy_value, copy_entries, cbor_read_prefix, cbor_decode_exact};
use crate::cbor::{no_bignum_tag, nests_within, read_back, entry_value, map_value};
use crate::entry::{candidate_from_statement, candidate_from_items};
use crate::envelope::{StatementModel, statement_outcome, header_outcome, signature_ok, es256_signature_ok, statement_opens,
    headers_accept, signed_bytes, ALG_EDDSA, ALG_ES256};
use crate::cwt::CWT_CLAIMS_LABEL;
use crate::receipt::{copy_bytes, sign1_items, receipts_from_statement, receipts_from_items, receipts_from_header,
    receipt_element, AttachedModel};

verus! {

/// The unprotected header label under which Receipts are attached.
pub const RECEIPTS_LABEL: i128 = 394;

/// Errors from `attach_receipt`.
#[derive(Debug, Clone, PartialEq, Eq)]
pub enum AttachError {
    /// The statement bytes are not a valid `COSE_Sign1`.
    NotCoseSign1,
    /// The statement carried trailing bytes after the `COSE_Sign1`.
    TrailingBytes,
    /// The `COSE_Sign1` did not carry exactly four elements.
    NotFourElements,
    /// The unprotected header element was not a map.
    UnprotectedNotMap,
    /// The receipt bytes are not valid CBOR.
    ReceiptNotCbor,
    /// The receipt carried trailing bytes.
    ReceiptTrailingBytes,
    /// A `receipts` header already existed but was not an array.
    ExistingReceiptsNotArray,
    /// A structural statement check failed.
    InvalidStatement(&'static str),
    /// A Receipt was not a single tag-18 `COSE_Sign1` array.
    ReceiptNotTaggedSign1,
    /// A structural Receipt check failed (not a claims or proof check).
    InvalidReceipt(&'static str),
    /// Appending would create protected/unprotected receipts ambiguity.
    ProtectedReceipts,
    /// Existing receipts are empty, malformed, or decoded legacy values.
    InvalidExistingReceipt,
    /// Re-encoding the modified statement failed.
    ReencodeFailed,
}

/// The text of an attachment error's message.
pub open spec fn attach_error_text(e: AttachError) -> Seq<char> {
    match e {
        AttachError::NotCoseSign1 => "statement is not a valid COSE_Sign1"@,
        AttachError::TrailingBytes => "trailing bytes after COSE_Sign1"@,
        AttachError::NotFourElements => "COSE_Sign1 must carry exactly four elements"@,
        AttachError::UnprotectedNotMap => "unprotected header must be a map"@,
        AttachError::ReceiptNotCbor => "receipt is not valid CBOR"@,
        AttachError::ReceiptTrailingBytes => "trailing bytes after receipt"@,
        AttachError::ExistingReceiptsNotArray => "existing receipts header was not an array"@,
        AttachError::InvalidStatement(reason) => "invalid statement: "@ + reason@,
        AttachError::ReceiptNotTaggedSign1 => "receipt must be a tag-18 COSE_Sign1"@,
        AttachError::InvalidReceipt(reason) => "invalid receipt: "@ + reason@,
        AttachError::ProtectedReceipts => "cannot append to protected receipts"@,
        AttachError::InvalidExistingReceipt => "existing receipts must be nonempty byte-string-wrapped tagged Receipts"@,
        AttachError::ReencodeFailed => "failed to re-encode the statement"@,
    }
}

impl AttachError {
    /// The human-readable message of this error.
    pub fn message(&self) -> (r: String)
        ensures
            r@ == attach_error_text(*self),
    {
        match self {
            AttachError::NotCoseSign1 => "statement is not a valid COSE_Sign1".to_owned(),
            AttachError::TrailingBytes => "trailing bytes after COSE_Sign1".to_owned(),
            AttachError::NotFourElements => "COSE_Sign1 must carry exactly four elements".to_owned(),
            AttachError::UnprotectedNotMap => "unprotected header must be a map".to_owned(),
            AttachError::ReceiptNotCbor => "receipt is not valid CBOR".to_owned(),
            AttachError::ReceiptTrailingBytes => "trailing bytes after receipt".to_owned(),
            AttachError::ExistingReceiptsNotArray => "existing receipts header was not an array".to_owned(),
            AttachError::InvalidStatement(reason) => crate::text::concat("invalid statement: ", reason),
            AttachError::ReceiptNotTaggedSign1 => "receipt must be a tag-18 COSE_Sign1".to_owned(),
            AttachError::InvalidReceipt(reason) => crate::text::concat("invalid receipt: ", reason),
            AttachError::ProtectedReceipts => "cannot append to protected receipts".to_owned(),
            AttachError::InvalidExistingReceipt => "existing receipts must be nonempty byte-string-wrapped tagged Receipts".to_owned(),
            AttachError::ReencodeFailed => "failed to re-encode the statement".to_owned(),
        }
    }
}

/// Whether a header label is an integer or text.
pub open spec fn is_label_value(k: CborV) -> bool {
    k is Integer || k is Text
}

/// The first label rule broken from entry `i` on: a label that is neither
/// integer nor text, or a label repeated from an earlier entry.
pub open spec fn label_problem(es: Seq<(CborV, CborV)>, i: int) -> Option<&'static str>
    decreases es.len() - i,
{
    if i < 0 || i >= es.len() {
        None
    } else if !is_label_value(es[i].0) {
        Some("COSE header labels must be integers or text")
    } else if exists|j: int| 0 <= j < i && (#[trigger] es[j]).0 == es[i].0 {
        Some("duplicate COSE header label")
    } else {
        label_problem(es, i + 1)
    }
}

/// Whether some label occurs in both maps.
pub open spec fn maps_share_label(a: Seq<(CborV, CborV)>, b: Seq<(CborV, CborV)>) -> bool {
    exists|i: int, j: int| 0 <= i < a.len() && 0 <= j < b.len() && (#[trigger] a[i]).0 == (#[trigger] b[j]).0
}

/// The protected header entries of a `COSE_Sign1` array when its container
/// and header structure are sound, or the rule it breaks. A Receipt may have
/// a `null` (detached) payload.
pub open spec fn envelope_outcome(items: Seq<CborV>, allow_detached: bool) -> Result<Seq<(CborV, CborV)>, &'static str> {
    if !(items.len() == 4 && items[0] is Bytes && items[1] is Entries && items[3] is Bytes) {
        Err("expected [protected bstr, unprotected map, payload, signature bstr]")
    } else if !(items[2] is Bytes || (allow_detached && items[2] is Null)) {
        Err("payload must be a byte string (or null for a Receipt)")
    } else {
        let p = items[0]->Bytes_0;
        let u = items[1]->Entries_0;
        let header: Result<Seq<(CborV, CborV)>, &'static str> = if p.len() == 0 {
            Ok(Seq::empty())
        } else {
            match cbor_read(p) {
                None => Err("protected header is not CBOR"),
                Some((v, rest)) => if rest != 0 {
                    Err("trailing bytes in protected header")
                } else {
                    match v {
                        CborV::Entries(es) => Ok(es),
                        _ => Err("protected header must encode a map"),
                    }
                },
            }
        };
        match header {
            Err(m) => Err(m),
            Ok(pm) => if label_problem(pm, 0) is Some {
                Err(label_problem(pm, 0)->Some_0)
            } else if label_problem(u, 0) is Some {
                Err(label_problem(u, 0)->Some_0)
            } else if maps_share_label(pm, u) {
                Err("header label occurs in both protected and unprotected maps")
            } else {
                Ok(pm)
            },
        }
    }
}

/// Whether two header labels are equal (integers and text only).
fn label_eq(a: &CborValue, b: &CborValue) -> (r: bool)
    ensures
        is_label_value(a@) ==> r == (a@ == b@),
{
    match (a, b) {
        (CborValue::Integer(x), CborValue::Integer(y)) => *x == *y,
        (CborValue::Text(x), CborValue::Text(y)) => crate::text::str_eq(x.as_str(), y.as_str()),
        _ => false,
    }
}

fn check_labels(es: &[(CborValue, CborValue)]) -> (r: Result<(), &'static str>)
    ensures
        match label_problem(view_entries(es@), 0) {
            Some(m) => r == Err::<(), &'static str>(m),
            None => r is Ok,
        },
{
    proof {
        lemma_view_entries(es@);
    }
    let ghost ve = view_entries(es@);
    let mut i: usize = 0;
    while i < es.len()
        invariant
            i <= es@.len(),
            ve == view_entries(es@),
            ve.len() == es@.len(),
            forall|m: int| 0 <= m < es@.len() ==> #[trigger] ve[m] == (es@[m].0@, es@[m].1@),
            label_problem(ve, 0) == label_problem(ve, i as int),
            forall|m: int| 0 <= m < i ==> is_label_value(#[trigger] ve[m].0),
        decreases es@.len() - i,
    {
        assert(ve[i as int] == (es@[i as int].0@, es@[i as int].1@));
        let is_label = match &es[i].0 {
            CborValue::Integer(_) => true,
            CborValue::Text(_) => true,
            _ => false,
        };
        if !is_label {
            return Err("COSE header labels must be integers or text");
        }
        let mut j: usize = 0;
        while j < i
            invariant
                j <= i < es@.len(),
                ve == view_entries(es@),
                ve.len() == es@.len(),
                forall|m: int| 0 <= m < es@.len() ==> #[trigger] ve[m] == (es@[m].0@, es@[m].1@),
                forall|m: int| 0 <= m < i ==> is_label_value(#[trigger] ve[m].0),
                forall|m: int| 0 <= m < j ==> (#[trigger] ve[m]).0 != ve[i as int].0,
                is_label_value(ve[i as int].0),
                label_problem(ve, 0) == label_problem(ve, i as int),
            decreases i - j,
        {
            assert(ve[j as int] == (es@[j as int].0@, es@[j as int].1@));
            if label_eq(&es[j].0, &es[i].0) {
                assert(ve[j as int].0 == ve[i as int].0);
                return Err("duplicate COSE header label");
            }
            j = j + 1;
        }
        i = i + 1;
    }
    Ok(())
}

fn share_label(a: &[(CborValue, CborValue)], b: &[(CborValue, CborValue)]) -> (r: bool)
    requires
        label_problem(view_entries(a@), 0) is None,
    ensures
        r == maps_share_label(view_entries(a@), view_entries(b@)),
{
    proof {
        lemma_no_label_problem(view_entries(a@), 0);
        lemma_view_entries(a@);
        lemma_view_entries(b@);
    }
    let ghost va = view_entries(a@);
    let ghost vb = view_entries(b@);
    let mut i: usize = 0;
    while i < a.len()
        invariant
            i <= a@.len(),
            va == view_entries(a@),
            vb == view_entries(b@),
            va.len() == a@.len(),
            vb.len() == b@.len(),
            forall|m: int| 0 <= m < a@.len() ==> #[trigger] va[m] == (a@[m].0@, a@[m].1@),
            forall|m: int| 0 <= m < b@.len() ==> #[trigger] vb[m] == (b@[m].0@, b@[m].1@),
            forall|m: int| 0 <= m < a@.len() ==> is_label_value(#[trigger] va[m].0),
            forall|m: int, n: int| 0 <= m < i && 0 <= n < vb.len() ==> (#[trigger] va[m]).0 != (#[trigger] vb[n]).0,
        decreases a@.len() - i,
    {
        let mut j: usize = 0;
        while j < b.len()
            invariant
                i < a@.len(),
                j <= b@.len(),
                va == view_entries(a@),
                vb == view_entries(b@),
                va.len() == a@.len(),
                vb.len() == b@.len(),
                forall|m: int| 0 <= m < a@.len() ==> #[trigger] va[m] == (a@[m].0@, a@[m].1@),
                forall|m: int| 0 <= m < b@.len() ==> #[trigger] vb[m] == (b@[m].0@, b@[m].1@),
                forall|m: int| 0 <= m < a@.len() ==> is_label_value(#[trigger] va[m].0),
                forall|n: int| 0 <= n < j ==> va[i as int].0 != (#[trigger] vb[n]).0,
            decreases b@.len() - j,
        {
            assert(va[i as int] == (a@[i as int].0@, a@[i as int].1@));
            assert(vb[j as int] == (b@[j as int].0@, b@[j as int].1@));
            if label_eq(&a[i].0, &b[j].0) {
                assert(va[i as int].0 == vb[j as int].0);
                return true;
            }
            j = j + 1;
        }
        i = i + 1;
    }
    false
}

proof fn lemma_no_label_problem(es: Seq<(CborV, CborV)>, i: int)
    requires
        0 <= i,
        label_problem(es, i) is None,
    ensures
        forall|m: int| i <= m < es.len() ==> is_label_value(#[trigger] es[m].0),
    decreases es.len() - i,
{
    if i < es.len() {
        lemma_no_label_problem(es, i + 1);
    }
}

/// Checks the container and header structure of a `COSE_Sign1` array and
/// returns its protected header entries.
pub(crate) fn validate_envelope(items: &[CborValue], allow_detached: bool) -> (r: Result<Vec<(CborValue, CborValue)>, &'static str>)
    ensures
        match envelope_outcome(view_items(items@), allow_detached) {
            Ok(pm) => r matches Ok(es) && view_entries(es@) == pm,
            Err(m) => r == Err::<Vec<(CborValue, CborValue)>, &'static str>(m),
        },
{
    proof {
        lemma_view_items(items@);
    }
    if items.len() != 4 {
        return Err("expected [protected bstr, unprotected map, payload, signature bstr]");
    }
    let (protected, unprotected) = match (&items[0], &items[1], &items[3]) {
        (CborValue::Bytes(p), CborValue::Entries(u), CborValue::Bytes(_)) => (p, u),
        _ => {
            return Err("expected [protected bstr, unprotected map, payload, signature bstr]");
        }
    };
    let payload_ok = match &items[2] {
        CborValue::Bytes(_) => true,
        CborValue::Null => allow_detached,
        _ => false,
    };
    if !payload_ok {
        return Err("payload must be a byte string (or null for a Receipt)");
    }
    let header: Vec<(CborValue, CborValue)> = if protected.len() == 0 {
        proof {
            lemma_view_entries(Seq::<(CborValue, CborValue)>::empty());
            assert(view_entries(Seq::<(CborValue, CborValue)>::empty()) =~= Seq::<(CborV, CborV)>::empty());
        }
        Vec::new()
    } else {
        match cbor_read_prefix(protected.as_slice()) {
            None => {
                return Err("protected header is not CBOR");
            }
            Some((v, rest)) => {
                if rest != 0 {
                    return Err("trailing bytes in protected header");
                }
                match v {
                    CborValue::Entries(es) => es,
                    _ => {
                        return Err("protected header must encode a map");
                    }
                }
            }
        }
    };
    let header_slice = header.as_slice();
    check_labels(header_slice)?;
    check_labels(unprotected.as_slice())?;
    if share_label(header_slice, unprotected.as_slice()) {
        return Err("header label occurs in both protected and unprotected maps");
    }
    Ok(header)
}

/// Whether a Receipt is one tag-18 `COSE_Sign1` array with sound structure,
/// or the error it gets.
pub open spec fn receipt_outcome(receipt: Seq<u8>) -> Result<(), AttachError> {
    match cbor_read(receipt) {
        None => Err(AttachError::ReceiptNotCbor),
        Some((v, rest)) => if rest != 0 {
            Err(AttachError::ReceiptTrailingBytes)
        } else {
            match v {
                CborV::Tag(18, inner) => match *inner {
                    CborV::Array(items) => match envelope_outcome(items, true) {
                        Ok(_) => Ok(()),
                        Err(m) => Err(AttachError::InvalidReceipt(m)),
                    },
                    _ => Err(AttachError::ReceiptNotTaggedSign1),
                },
                _ => Err(AttachError::ReceiptNotTaggedSign1),
            }
        },
    }
}

/// Checks that a Receipt is one tag-18 `COSE_Sign1` with sound container
/// and header structure.
pub fn validate_receipt(receipt: &[u8]) -> (r: Result<(), AttachError>)
    ensures
        r == receipt_outcome(receipt@),
{
    let value = match cbor_decode(receipt) {
        Ok(v) => v,
        Err(no_item) => {
            if no_item {
                return Err(AttachError::ReceiptNotCbor);
            } else {
                return Err(AttachError::ReceiptTrailingBytes);
            }
        }
    };
    match &value {
        CborValue::Tag(tag, inner) => {
            if *tag != 18 {
                return Err(AttachError::ReceiptNotTaggedSign1);
            }
            match &**inner {
                CborValue::Array(items) => match validate_envelope(items.as_slice(), true) {
                    Ok(_) => {
                        assert((**inner)@ == CborV::Array(view_items(items@)));
                        Ok(())
                    },
                    Err(m) => {
                        assert((**inner)@ == CborV::Array(view_items(items@)));
                        Err(AttachError::InvalidReceipt(m))
                    },
                },
                _ => Err(AttachError::ReceiptNotTaggedSign1),
            }
        }
        _ => Err(AttachError::ReceiptNotTaggedSign1),
    }
}

/// Whether every existing attachment is a byte string holding a sound
/// tagged Receipt.
pub open spec fn existing_ok(arr: Seq<CborV>) -> bool {
    forall|i: int| 0 <= i < arr.len() ==> (#[trigger] arr[i]) is Bytes && receipt_outcome(arr[i]->Bytes_0) is Ok
}

/// The unprotected entries after attaching a Receipt, or the error.
pub open spec fn appended(map: Seq<(CborV, CborV)>, receipt: Seq<u8>) -> Result<Seq<(CborV, CborV)>, AttachError> {
    match key_index(map, RECEIPTS_LABEL as int) {
        Some(k) => match map[k].1 {
            CborV::Array(arr) => if arr.len() == 0 || !existing_ok(arr) {
                Err(AttachError::InvalidExistingReceipt)
            } else {
                Ok(map.update(k, (map[k].0, CborV::Array(arr.push(CborV::Bytes(receipt))))))
            },
            _ => Err(AttachError::ExistingReceiptsNotArray),
        },
        None => Ok(map.push((CborV::Integer(RECEIPTS_LABEL as int), CborV::Array(seq![CborV::Bytes(receipt)])))),
    }
}

/// The statement array inside an optional tag 18.
pub open spec fn statement_array(v: CborV) -> CborV {
    match v {
        CborV::Tag(18, inner) => *inner,
        _ => v,
    }
}

/// What attaching a Receipt to statement bytes gives: the tag-18 statement
/// whose protected bytes, payload and signature are unchanged and whose
/// unprotected map carries the Receipt's exact bytes after every earlier
/// attachment, or the error.
pub open spec fn attach_outcome(statement: Seq<u8>, receipt: Seq<u8>) -> Result<Seq<u8>, AttachError> {
    match cbor_read(statement) {
        None => Err(AttachError::NotCoseSign1),
        Some((v, rest)) => if rest != 0 {
            Err(AttachError::TrailingBytes)
        } else {
            match statement_array(v) {
                CborV::Array(items) => if items.len() != 4 {
                    Err(AttachError::NotFourElements)
                } else {
                    match envelope_outcome(items, false) {
                        Err(m) => Err(AttachError::InvalidStatement(m)),
                        Ok(pm) => if key_index(pm, RECEIPTS_LABEL as int) is Some {
                            Err(AttachError::ProtectedReceipts)
                        } else if receipt_outcome(receipt) is Err {
                            Err(receipt_outcome(receipt)->Err_0)
                        } else {
                            match appended(items[1]->Entries_0, receipt) {
                                Err(e) => Err(e),
                                Ok(map) => match cbor_written(CborV::Tag(18, Box::new(CborV::Array(items.update(1, CborV::Entries(map)))))) {
                                    Some(bytes) => Ok(bytes),
                                    None => Err(AttachError::ReencodeFailed),
                                },
                            }
                        },
                    }
                },
                _ => Err(AttachError::NotCoseSign1),
            }
        },
    }
}

fn find_label(entries: &[(CborValue, CborValue)], key: i128) -> (r: Option<usize>)
    ensures
        r matches Some(i) ==> key_index(view_entries(entries@), key as int) == Some(i as int),
        r is None <==> key_index(view_entries(entries@), key as int) is None,
{
    proof {
        lemma_view_entries(entries@);
        lemma_key_index(view_entries(entries@), key as int);
    }
    let ghost ve = view_entries(entries@);
    let mut i: usize = 0;
    while i < entries.len()
        invariant
            i <= entries@.len(),
            ve == view_entries(entries@),
            ve.len() == entries@.len(),
            forall|m: int| 0 <= m < entries@.len() ==> #[trigger] ve[m] == (entries@[m].0@, entries@[m].1@),
            forall|m: int| 0 <= m < i ==> (#[trigger] ve[m]).0 != CborV::Integer(key as int),
            key_index(ve, key as int) matches Some(k) ==> 0 <= k < ve.len() && ve[k].0 == CborV::Integer(key as int)
                && forall|j: int| 0 <= j < k ==> #[trigger] ve[j].0 != CborV::Integer(key as int),
            key_index(ve, key as int) is None ==> forall|j: int| 0 <= j < ve.len() ==> #[trigger] ve[j].0 != CborV::Integer(key as int),
        decreases entries@.len() - i,
    {
        assert(ve[i as int] == (entries@[i as int].0@, entries@[i as int].1@));
        let hit = match &entries[i].0 {
            CborValue::Integer(n) => *n == key,
            _ => false,
        };
        if hit {
            return Some(i);
        }
        i = i + 1;
    }
    None
}

fn existing_valid(arr: &Vec<CborValue>) -> (r: bool)
    ensures
        r == existing_ok(view_items(arr@)),
{
    proof {
        lemma_view_items(arr@);
    }
    let ghost vi = view_items(arr@);
    let mut i: usize = 0;
    while i < arr.len()
        invariant
            i <= arr@.len(),
            vi == view_items(arr@),
            vi.len() == arr@.len(),
            forall|m: int| 0 <= m < arr@.len() ==> #[trigger] vi[m] == arr@[m]@,
            forall|m: int| 0 <= m < i ==> (#[trigger] vi[m]) is Bytes && receipt_outcome(vi[m]->Bytes_0) is Ok,
        decreases arr@.len() - i,
    {
        assert(vi[i as int] == arr@[i as int]@);
        match &arr[i] {
            CborValue::Bytes(b) => {
                if validate_receipt(b.as_slice()).is_err() {
                    return false;
                }
            }
            _ => {
                return false;
            }
        }
        i = i + 1;
    }
    true
}

fn append_receipt(map: &Vec<(CborValue, CborValue)>, receipt: &[u8]) -> (r: Result<Vec<(CborValue, CborValue)>, AttachError>)
    ensures
        match appended(view_entries(map@), receipt@) {
            Ok(m) => r matches Ok(x) && view_entries(x@) == m,
            Err(e) => r == Err::<Vec<(CborValue, CborValue)>, AttachError>(e),
        },
{
    proof {
        lemma_view_entries(map@);
        lemma_key_index(view_entries(map@), RECEIPTS_LABEL as int);
    }
    let ghost vm = view_entries(map@);
    let map_slice = map.as_slice();
    assert(map_slice@ == map@);
    match find_label(map_slice, RECEIPTS_LABEL) {
        Some(k) => {
            assert(vm[k as int] == (map@[k as int].0@, map@[k as int].1@));
            match &map[k].1 {
                CborValue::Array(arr) => {
                    proof {
                        lemma_view_items(arr@);
                        assert(map@[k as int].1@ == CborV::Array(view_items(arr@)));
                        assert(vm[k as int].1 == CborV::Array(view_items(arr@)));
                        assert(key_index(vm, RECEIPTS_LABEL as int) == Some(k as int));
                    }
                    if arr.len() == 0 || !existing_valid(arr) {
                        return Err(AttachError::InvalidExistingReceipt);
                    }
                    let mut extended: Vec<CborValue> = Vec::new();
                    let mut i: usize = 0;
                    while i < arr.len()
                        invariant
                            i <= arr@.len(),
                            extended@.len() == i,
                            forall|m: int| 0 <= m < i ==> (#[trigger] extended@[m])@ == arr@[m]@,
                        decreases arr@.len() - i,
                    {
                        extended.push(copy_value(&arr[i]));
                        i = i + 1;
                    }
                    extended.push(CborValue::Bytes(copy_bytes(receipt)));
                    proof {
                        lemma_view_items(extended@);
                        assert(view_items(extended@) =~= view_items(arr@).push(CborV::Bytes(receipt@)));
                    }
                    let mut out = copy_entries(map.as_slice());
                    proof {
                        lemma_view_entries(out@);
                    }
                    let key = copy_value(&map[k].0);
                    out.set(k, (key, CborValue::Array(extended)));
                    proof {
                        lemma_view_entries(out@);
                        assert(view_entries(out@) =~= vm.update(k as int, (vm[k as int].0, CborV::Array(view_items(arr@).push(CborV::Bytes(receipt@))))));
                    }
                    Ok(out)
                }
                _ => Err(AttachError::ExistingReceiptsNotArray),
            }
        }
        None => {
            let mut out = copy_entries(map.as_slice());
            let ghost before = out@;
            let mut single: Vec<CborValue> = Vec::new();
            single.push(CborValue::Bytes(copy_bytes(receipt)));
            proof {
                lemma_view_items(single@);
                assert(view_items(single@) =~= seq![CborV::Bytes(receipt@)]);
            }
            let attached = CborValue::Array(single);
            assert(attached@ == CborV::Array(seq![CborV::Bytes(receipt@)]));
            out.push((CborValue::Integer(RECEIPTS_LABEL), attached));
            proof {
                lemma_view_entries(before);
                lemma_view_entries(out@);
                assert(view_entries(out@) =~= vm.push((CborV::Integer(RECEIPTS_LABEL as int), CborV::Array(seq![CborV::Bytes(receipt@)]))));
            }
            Ok(out)
        }
    }
}

/// The Receipts a reader finds after attaching `receipt` to `statement`:
/// the earlier attachments in order, then the new Receipt's exact bytes.
pub open spec fn receipts_after_attach(statement: Seq<u8>, receipt: Seq<u8>) -> Seq<Seq<u8>> {
    match receipts_from_statement(statement) {
        Ok(AttachedModel::Present(rs)) => rs.push(receipt),
        _ => seq![receipt],
    }
}

/// Whether two parsed statements carry the same signed contents: protected
/// bytes, payload and signature, so that a signature check gives the same
/// answer on both.
pub open spec fn same_signed_contents(a: StatementModel, b: StatementModel) -> bool {
    a.protected == b.protected && a.payload == b.payload && a.signature == b.signature
}

/// Whether two parsed statements carry the same protected header, read the
/// same way, and the same unprotected labels apart from `receipts` (394).
pub open spec fn same_profile_headers(a: StatementModel, b: StatementModel) -> bool {
    &&& a.header == b.header
    &&& a.normalized == b.normalized
    &&& forall|k: int| k != RECEIPTS_LABEL as int ==>
        (#[trigger] entry_value(a.unprotected, k) is Some <==> entry_value(b.unprotected, k) is Some)
}

/// Statement verification answers alike on two parsed statements with the
/// same signed contents and profile headers, such as a statement and the
/// statement with a Receipt attached: the header rules and both signature
/// checks give the same results.
pub proof fn lemma_attachment_keeps_verification(a: StatementModel, b: StatementModel, alg: int, spec: Seq<char>,
    site_id: Seq<char>, key: [u8; 32], es256_key: Seq<u8>)
    requires
        same_signed_contents(a, b),
        same_profile_headers(a, b),
    ensures
        header_outcome(a, alg, spec, site_id) == header_outcome(b, alg, spec, site_id),
        signature_ok(a, key) == signature_ok(b, key),
        es256_signature_ok(a, es256_key) == es256_signature_ok(b, es256_key),
{
    assert(entry_value(a.unprotected, 1) is Some <==> entry_value(b.unprotected, 1) is Some);
    assert(entry_value(a.unprotected, 3) is Some <==> entry_value(b.unprotected, 3) is Some);
    assert(entry_value(a.unprotected, CWT_CLAIMS_LABEL as int) is Some
        <==> entry_value(b.unprotected, CWT_CLAIMS_LABEL as int) is Some);
}

/// A Receipt attached to a statement never breaks its verification: when a
/// statement opens and its Ed25519 (or ES256) signature verifies, a
/// statement that parses with the same signed contents and the same profile
/// headers, such as the statement with a Receipt attached, opens and
/// verifies under the same key too, and carries the same payload bytes.
pub proof fn lemma_attached_statement_verifies(s: Seq<u8>, out: Seq<u8>, key: [u8; 32], es256_key: Seq<u8>)
    requires
        statement_outcome(s) is Ok,
        statement_outcome(out) is Ok,
        same_signed_contents(statement_outcome(out)->Ok_0, statement_outcome(s)->Ok_0),
        same_profile_headers(statement_outcome(out)->Ok_0, statement_outcome(s)->Ok_0),
    ensures
        statement_opens(s, ALG_EDDSA as int) ==> statement_opens(out, ALG_EDDSA as int),
        statement_opens(s, ALG_ES256 as int) ==> statement_opens(out, ALG_ES256 as int),
        signature_ok(statement_outcome(s)->Ok_0, key) ==> signature_ok(statement_outcome(out)->Ok_0, key),
        es256_signature_ok(statement_outcome(s)->Ok_0, es256_key)
            ==> es256_signature_ok(statement_outcome(out)->Ok_0, es256_key),
        statement_outcome(out)->Ok_0.payload == statement_outcome(s)->Ok_0.payload,
{
    let a = statement_outcome(out)->Ok_0;
    let b = statement_outcome(s)->Ok_0;
    lemma_attachment_keeps_verification(a, b, ALG_EDDSA as int, Seq::empty(), Seq::empty(), key, es256_key);
    assert(signed_bytes(a) == signed_bytes(b));
    assert forall|alg: int| #![trigger headers_accept(a, alg, b.payload->Some_0)]
        b.payload is Some && headers_accept(b, alg, b.payload->Some_0) implies headers_accept(a, alg, b.payload->Some_0) by {
        assert forall|q: crate::payload::Payload| #[trigger] crate::payload::payload_is(q, crate::payload::readable(b.payload->Some_0)->Some_0)
            implies header_outcome(a, alg, q.spec@, q.site.id@) is Ok by {
            lemma_attachment_keeps_verification(a, b, alg, q.spec@, q.site.id@, key, es256_key);
        }
    }
}

/// Whether the statement's data item holds no bignum tag over a byte
/// string of at most 16 bytes (ciborium reads one as a tag only where the
/// string had indefinite length, and would read it back as an integer once
/// written) and its `COSE_Sign1` array nests its containers at most 255
/// deep, so that the tagged statement written back stays within the
/// reader's limit.
pub open spec fn attach_read_guard(statement: Seq<u8>) -> bool {
    cbor_read(statement) matches Some((v, _)) && no_bignum_tag(v) && nests_within(statement_array(v), 255)
}

proof fn lemma_labels_of(es: Seq<(CborV, CborV)>, i: int)
    requires
        0 <= i,
        label_problem(es, i) is None,
    ensures
        forall|j: int| i <= j < es.len() ==> is_label_value(#[trigger] es[j].0),
    decreases es.len() - i,
{
    if i < es.len() {
        lemma_labels_of(es, i + 1);
    }
}

proof fn lemma_label_problem_keys(es: Seq<(CborV, CborV)>, fs: Seq<(CborV, CborV)>, i: int)
    requires
        0 <= i,
        es.len() == fs.len(),
        forall|j: int| 0 <= j < es.len() ==> #[trigger] es[j].0 == fs[j].0,
    ensures
        label_problem(es, i) == label_problem(fs, i),
    decreases es.len() - i,
{
    if i < es.len() {
        assert(es[i].0 == fs[i].0);
        if exists|j: int| 0 <= j < i && (#[trigger] es[j]).0 == es[i].0 {
            let j = choose|j: int| 0 <= j < i && (#[trigger] es[j]).0 == es[i].0;
            assert(fs[j].0 == fs[i].0);
        }
        if exists|j: int| 0 <= j < i && (#[trigger] fs[j]).0 == fs[i].0 {
            let j = choose|j: int| 0 <= j < i && (#[trigger] fs[j]).0 == fs[i].0;
            assert(es[j].0 == es[i].0);
        }
        lemma_label_problem_keys(es, fs, i + 1);
    }
}

proof fn lemma_label_problem_push(es: Seq<(CborV, CborV)>, e: (CborV, CborV), i: int)
    requires
        0 <= i <= es.len(),
        label_problem(es, i) is None,
        is_label_value(e.0),
        forall|j: int| 0 <= j < es.len() ==> #[trigger] es[j].0 != e.0,
    ensures
        label_problem(es.push(e), i) is None,
    decreases es.len() - i,
{
    let s = es.push(e);
    if i < es.len() {
        assert(s[i] == es[i]);
        assert forall|j: int| 0 <= j < i implies (#[trigger] s[j]).0 != s[i].0 by {
            assert(s[j] == es[j]);
        }
        lemma_label_problem_push(es, e, i + 1);
    } else {
        assert(s[i] == e);
        assert forall|j: int| 0 <= j < i implies (#[trigger] s[j]).0 != s[i].0 by {
            assert(s[j] == es[j]);
        }
        assert(label_problem(s, i + 1) is None);
    }
}

proof fn lemma_key_index_keys(es: Seq<(CborV, CborV)>, fs: Seq<(CborV, CborV)>, key: int)
    requires
        es.len() == fs.len(),
        forall|j: int| 0 <= j < es.len() ==> #[trigger] es[j].0 == fs[j].0,
    ensures
        key_index(es, key) == key_index(fs, key),
    decreases es.len(),
{
    if es.len() > 0 {
        assert forall|j: int| 0 <= j < es.drop_last().len() implies #[trigger] es.drop_last()[j].0 == fs.drop_last()[j].0 by {
            assert(es.drop_last()[j] == es[j]);
            assert(fs.drop_last()[j] == fs[j]);
        }
        lemma_key_index_keys(es.drop_last(), fs.drop_last(), key);
        assert(es.last().0 == fs.last().0);
    }
}

proof fn lemma_read_back_labels(es: Seq<(CborV, CborV)>, fs: Seq<(CborV, CborV)>)
    requires
        read_back(CborV::Entries(es), CborV::Entries(fs)),
        forall|i: int| 0 <= i < es.len() ==> is_label_value(#[trigger] es[i].0),
    ensures
        fs.len() == es.len(),
        forall|i: int| 0 <= i < es.len() ==> #[trigger] fs[i].0 == es[i].0,
{
    assert forall|i: int| 0 <= i < es.len() implies #[trigger] fs[i].0 == es[i].0 by {
        assert(read_back(es[i].0, fs[i].0));
        assert(is_label_value(es[i].0));
    }
}

proof fn lemma_read_back_byte_array(xs: Seq<CborV>, w: CborV)
    requires
        read_back(CborV::Array(xs), w),
        forall|i: int| 0 <= i < xs.len() ==> (#[trigger] xs[i]) is Bytes,
    ensures
        w == CborV::Array(xs),
{
    let ys = w->Array_0;
    assert forall|i: int| 0 <= i < xs.len() implies #[trigger] ys[i] == xs[i] by {
        assert(read_back(xs[i], ys[i]));
        assert(xs[i] is Bytes);
    }
    assert(ys =~= xs);
}

proof fn lemma_byte_array_receipts(xs: Seq<CborV>)
    requires
        xs.len() > 0,
        forall|i: int| 0 <= i < xs.len() ==> (#[trigger] xs[i]) is Bytes,
    ensures
        receipts_from_header(CborV::Array(xs)) == AttachedModel::Present(Seq::new(xs.len(), |i: int| xs[i]->Bytes_0)),
{
    assert forall|i: int| 0 <= i < xs.len() implies #[trigger] receipt_element(xs[i]) == Some(xs[i]->Bytes_0) by {
        assert(xs[i] is Bytes);
    }
    assert(Seq::new(xs.len(), |i: int| receipt_element(xs[i]).unwrap()) =~= Seq::new(xs.len(), |i: int| xs[i]->Bytes_0));
}

/// The data item written for an attached statement holds no bignum tag and
/// nests within the reader's limit when the statement read does (the guard).
proof fn lemma_attach_value_bounds(v: CborV, items: Seq<CborV>, receipt: Seq<u8>, map2: Seq<(CborV, CborV)>)
    requires
        statement_array(v) == CborV::Array(items),
        items.len() == 4,
        items[0] is Bytes && items[1] is Entries && items[2] is Bytes && items[3] is Bytes,
        no_bignum_tag(v),
        nests_within(CborV::Array(items), 255),
        appended(items[1]->Entries_0, receipt) == Ok::<Seq<(CborV, CborV)>, AttachError>(map2),
    ensures
        no_bignum_tag(CborV::Tag(18, Box::new(CborV::Array(items.update(1, CborV::Entries(map2)))))),
        nests_within(CborV::Tag(18, Box::new(CborV::Array(items.update(1, CborV::Entries(map2))))), 256),
{
    let u = items[1]->Entries_0;
    let items2 = items.update(1, CborV::Entries(map2));
    assert(no_bignum_tag(CborV::Array(items)));
    assert(CborV::Array(items)->Array_0 == items);
    assert(forall|i: int| 0 <= i < items.len() ==> no_bignum_tag(#[trigger] items[i]));
    assert(forall|i: int| 0 <= i < items.len() ==> nests_within(#[trigger] items[i], 254));
    assert(no_bignum_tag(items[1]));
    assert(nests_within(items[1], 254));
    assert(CborV::Entries(u)->Entries_0 == u);
    assert(forall|i: int| 0 <= i < u.len() ==> no_bignum_tag((#[trigger] u[i]).0) && no_bignum_tag(u[i].1));
    assert(forall|i: int| 0 <= i < u.len() ==> nests_within((#[trigger] u[i]).0, 253) && nests_within(u[i].1, 253));
    let new_bytes = CborV::Bytes(receipt);
    match key_index(u, RECEIPTS_LABEL as int) {
        Some(k) => {
            lemma_key_index(u, RECEIPTS_LABEL as int);
            let arr = u[k].1->Array_0;
            assert(no_bignum_tag(u[k].1));
            assert(nests_within(u[k].1, 253));
            let arr2 = arr.push(new_bytes);
            assert forall|i: int| 0 <= i < arr2.len() implies no_bignum_tag(#[trigger] arr2[i]) && nests_within(arr2[i], 252) by {
                if i < arr.len() {
                    assert(arr2[i] == arr[i]);
                    assert(no_bignum_tag(arr[i]));
                    assert(nests_within(arr[i], 252));
                }
            }
            assert(no_bignum_tag(CborV::Array(arr2)));
            assert(nests_within(CborV::Array(arr2), 253));
            assert forall|i: int| 0 <= i < map2.len() implies no_bignum_tag(#[trigger] map2[i].0) && no_bignum_tag(map2[i].1)
                && nests_within(map2[i].0, 253) && nests_within(map2[i].1, 253) by {
                assert(no_bignum_tag(u[i].0) && no_bignum_tag(u[i].1));
                assert(nests_within(u[i].0, 253) && nests_within(u[i].1, 253));
            }
        },
        None => {
            let e = (CborV::Integer(RECEIPTS_LABEL as int), CborV::Array(seq![new_bytes]));
            assert(map2 == u.push(e));
            let one = seq![new_bytes];
            assert forall|i: int| 0 <= i < one.len() implies no_bignum_tag(#[trigger] one[i]) && nests_within(one[i], 252) by {
                assert(one[i] == new_bytes);
            }
            assert(CborV::Array(one)->Array_0 == one);
            assert(no_bignum_tag(CborV::Array(one)));
            assert(nests_within(CborV::Array(one), 253));
            assert forall|i: int| 0 <= i < map2.len() implies no_bignum_tag(#[trigger] map2[i].0) && no_bignum_tag(map2[i].1)
                && nests_within(map2[i].0, 253) && nests_within(map2[i].1, 253) by {
                if i < u.len() {
                    assert(map2[i] == u[i]);
                    assert(no_bignum_tag(u[i].0) && no_bignum_tag(u[i].1));
                    assert(nests_within(u[i].0, 253) && nests_within(u[i].1, 253));
                } else {
                    assert(map2[i] == e);
                }
            }
        },
    }
    assert(no_bignum_tag(CborV::Entries(map2)));
    assert(nests_within(CborV::Entries(map2), 254));
    assert forall|i: int| 0 <= i < items2.len() implies no_bignum_tag(#[trigger] items2[i]) && nests_within(items2[i], 254) by {
        if i != 1 {
            assert(items2[i] == items[i]);
        }
    }
    assert(no_bignum_tag(CborV::Array(items2)));
    assert(nests_within(CborV::Array(items2), 255));
}

/// What the reader finds in a statement that attaching accepts: the earlier
/// attachments, or none.
proof fn lemma_attach_read_before(statement: Seq<u8>, receipt: Seq<u8>, v: CborV, items: Seq<CborV>,
    pm: Seq<(CborV, CborV)>)
    requires
        cbor_read(statement) == Some((v, 0nat)),
        statement_array(v) == CborV::Array(items),
        items.len() == 4,
        envelope_outcome(items, false) == Ok::<Seq<(CborV, CborV)>, &'static str>(pm),
        key_index(pm, RECEIPTS_LABEL as int) is None,
        appended(items[1]->Entries_0, receipt) is Ok,
    ensures
        receipts_from_statement(statement) == Ok::<AttachedModel, &'static str>(receipts_from_items(items, pm)),
        receipts_from_items(items, pm) is Absent || receipts_from_items(items, pm) is Present,
{
    let u = items[1]->Entries_0;
    assert(sign1_items(v) == Some(items));
    lemma_key_index(pm, RECEIPTS_LABEL as int);
    match key_index(u, RECEIPTS_LABEL as int) {
        Some(k) => {
            lemma_key_index(u, RECEIPTS_LABEL as int);
            let arr = u[k].1->Array_0;
            assert forall|i: int| 0 <= i < arr.len() implies (#[trigger] arr[i]) is Bytes by {
                assert(existing_ok(arr));
            }
            lemma_byte_array_receipts(arr);
            assert(entry_value(u, RECEIPTS_LABEL as int) == Some(CborV::Array(arr)));
        },
        None => {
            assert(entry_value(pm, RECEIPTS_LABEL as int) is None);
        },
    }
}

/// What the reader finds in the statement that attaching writes: the same
/// protected entries, and the earlier attachments followed by the new
/// Receipt.
proof fn lemma_attach_read_back(statement: Seq<u8>, receipt: Seq<u8>, v: CborV, items: Seq<CborV>,
    pm: Seq<(CborV, CborV)>, map2: Seq<(CborV, CborV)>, w: CborV)
    requires
        cbor_read(statement) == Some((v, 0nat)),
        statement_array(v) == CborV::Array(items),
        items.len() == 4,
        envelope_outcome(items, false) == Ok::<Seq<(CborV, CborV)>, &'static str>(pm),
        key_index(pm, RECEIPTS_LABEL as int) is None,
        appended(items[1]->Entries_0, receipt) == Ok::<Seq<(CborV, CborV)>, AttachError>(map2),
        read_back(CborV::Tag(18, Box::new(CborV::Array(items.update(1, CborV::Entries(map2))))), w),
    ensures
        receipts_from_statement(statement) == Ok::<AttachedModel, &'static str>(receipts_from_items(items, pm)),
        sign1_items(w) matches Some(ys) && envelope_outcome(ys, false) == Ok::<Seq<(CborV, CborV)>, &'static str>(pm)
            && receipts_from_items(ys, pm) == AttachedModel::Present(receipts_after_attach(statement, receipt)),
        w matches CborV::Tag(t, y) && t == 18 && (*y matches CborV::Array(ys)
            && candidate_from_items(ys) == candidate_from_statement(statement)
            && ys.len() == 4 && ys[0] == items[0] && ys[2] == items[2] && ys[3] == items[3]
            && ys[1] is Entries && items[1] is Entries
            && forall|k: int| k != RECEIPTS_LABEL as int ==>
                (#[trigger] entry_value(ys[1]->Entries_0, k) is Some <==> entry_value(items[1]->Entries_0, k) is Some)),
{
    let u = items[1]->Entries_0;
    let p = items[0]->Bytes_0;
    let items2 = items.update(1, CborV::Entries(map2));
    assert(sign1_items(v) == Some(items));
    assert(receipts_from_statement(statement) == Ok::<AttachedModel, &'static str>(receipts_from_items(items, pm)));

    // The labels of the unprotected map before and after.
    lemma_labels_of(u, 0);
    lemma_key_index(u, RECEIPTS_LABEL as int);
    lemma_key_index(pm, RECEIPTS_LABEL as int);
    assert(label_problem(u, 0) is None);
    assert(!maps_share_label(pm, u));
    match key_index(u, RECEIPTS_LABEL as int) {
        Some(k) => {
            assert(map2 == u.update(k, (u[k].0, CborV::Array(u[k].1->Array_0.push(CborV::Bytes(receipt))))));
            assert forall|j: int| 0 <= j < u.len() implies #[trigger] u[j].0 == map2[j].0 by {}
            lemma_label_problem_keys(u, map2, 0);
            if maps_share_label(pm, map2) {
                let (i, j) = choose|i: int, j: int| 0 <= i < pm.len() && 0 <= j < map2.len() && (#[trigger] pm[i]).0 == (#[trigger] map2[j]).0;
                assert(u[j].0 == map2[j].0);
                assert(pm[i].0 == u[j].0);
                assert(maps_share_label(pm, u));
            }
        },
        None => {
            let e = (CborV::Integer(RECEIPTS_LABEL as int), CborV::Array(seq![CborV::Bytes(receipt)]));
            assert(map2 == u.push(e));
            lemma_label_problem_push(u, e, 0);
            if maps_share_label(pm, map2) {
                let (i, j) = choose|i: int, j: int| 0 <= i < pm.len() && 0 <= j < map2.len() && (#[trigger] pm[i]).0 == (#[trigger] map2[j]).0;
                if j < u.len() {
                    assert(map2[j] == u[j]);
                    assert(maps_share_label(pm, u));
                } else {
                    assert(map2[j] == e);
                    assert(pm[i].0 != CborV::Integer(RECEIPTS_LABEL as int));
                }
            }
        },
    }
    assert(label_problem(map2, 0) is None);
    assert(!maps_share_label(pm, map2));
    lemma_labels_of(map2, 0);

    // The item read back.
    let y = *(w->Tag_1);
    assert(read_back(CborV::Array(items2), y));
    let ys = y->Array_0;
    assert(ys.len() == 4);
    assert(read_back(items2[0], ys[0]));
    assert(read_back(items2[1], ys[1]));
    assert(read_back(items2[2], ys[2]));
    assert(read_back(items2[3], ys[3]));
    assert(ys[0] == items[0]);
    assert(ys[2] == items[2]);
    assert(ys[3] == items[3]);
    let fs = ys[1]->Entries_0;
    lemma_read_back_labels(map2, fs);
    assert forall|j: int| 0 <= j < map2.len() implies #[trigger] map2[j].0 == fs[j].0 by {}
    lemma_label_problem_keys(map2, fs, 0);
    lemma_key_index_keys(map2, fs, RECEIPTS_LABEL as int);
    if maps_share_label(pm, fs) {
        let (i, j) = choose|i: int, j: int| 0 <= i < pm.len() && 0 <= j < fs.len() && (#[trigger] pm[i]).0 == (#[trigger] fs[j]).0;
        assert(fs[j].0 == map2[j].0);
        assert(maps_share_label(pm, map2));
    }
    assert(sign1_items(w) == Some(ys));
    assert(envelope_outcome(ys, false) == Ok::<Seq<(CborV, CborV)>, &'static str>(pm));
    assert(candidate_from_statement(statement) == candidate_from_items(items));
    assert(candidate_from_items(ys) == candidate_from_items(items));
    assert forall|k: int| k != RECEIPTS_LABEL as int implies
        (#[trigger] entry_value(fs, k) is Some <==> entry_value(u, k) is Some) by {
        lemma_key_index_keys(map2, fs, k);
        match key_index(u, RECEIPTS_LABEL as int) {
            Some(i) => {
                assert forall|j: int| 0 <= j < u.len() implies #[trigger] u[j].0 == map2[j].0 by {}
                lemma_key_index_keys(u, map2, k);
            },
            None => {
                let e = (CborV::Integer(RECEIPTS_LABEL as int), CborV::Array(seq![CborV::Bytes(receipt)]));
                assert(map2 == u.push(e));
                assert(map2.drop_last() =~= u);
                assert(map2.last().0 != CborV::Integer(k));
            },
        }
    }

    // The receipts found.
    match key_index(u, RECEIPTS_LABEL as int) {
        Some(k) => {
            let arr = u[k].1->Array_0;
            let arr2 = arr.push(CborV::Bytes(receipt));
            assert(key_index(map2, RECEIPTS_LABEL as int) == Some(k)) by {
                assert forall|j: int| 0 <= j < u.len() implies #[trigger] u[j].0 == map2[j].0 by {}
                lemma_key_index_keys(u, map2, RECEIPTS_LABEL as int);
            }
            assert(map2[k].1 == CborV::Array(arr2));
            assert(read_back(map2[k].1, fs[k].1));
            assert forall|i: int| 0 <= i < arr2.len() implies (#[trigger] arr2[i]) is Bytes by {
                if i < arr.len() {
                    assert(arr2[i] == arr[i]);
                    assert(existing_ok(arr));
                }
            }
            assert forall|i: int| 0 <= i < arr.len() implies (#[trigger] arr[i]) is Bytes by {
                assert(existing_ok(arr));
            }
            lemma_read_back_byte_array(arr2, fs[k].1);
            lemma_byte_array_receipts(arr);
            lemma_byte_array_receipts(arr2);
            assert(entry_value(u, RECEIPTS_LABEL as int) == Some(CborV::Array(arr)));
            assert(receipts_from_items(items, pm) == receipts_from_header(CborV::Array(arr)));
            assert(Seq::new(arr2.len(), |i: int| arr2[i]->Bytes_0) =~= Seq::new(arr.len(), |i: int| arr[i]->Bytes_0).push(receipt));
            assert(receipts_from_items(ys, pm) == receipts_from_header(CborV::Array(arr2)));
        },
        None => {
            let one = seq![CborV::Bytes(receipt)];
            let e = (CborV::Integer(RECEIPTS_LABEL as int), CborV::Array(one));
            assert(map2 == u.push(e));
            assert(map2.drop_last() =~= u);
            assert(key_index(map2, RECEIPTS_LABEL as int) == Some(u.len() as int));
            assert(read_back(map2[u.len() as int].1, fs[u.len() as int].1));
            assert forall|i: int| 0 <= i < one.len() implies (#[trigger] one[i]) is Bytes by {
                assert(one[i] == CborV::Bytes(receipt));
            }
            lemma_read_back_byte_array(one, fs[u.len() as int].1);
            lemma_byte_array_receipts(one);
            assert(entry_value(pm, RECEIPTS_LABEL as int) is None);
            assert(receipts_from_items(items, pm) == AttachedModel::Absent);
            assert(Seq::new(one.len(), |i: int| one[i]->Bytes_0) =~= seq![receipt]);
            assert(receipts_from_items(ys, pm) == receipts_from_header(CborV::Array(one)));
        },
    }
}

/// Attaches a Receipt to a Signed Statement under unprotected label 394,
/// producing a tag-18 Transparent Statement. The protected bytes, payload
/// and signature are untouched; each attachment is the exact Receipt bytes,
/// after every earlier one. Only container structure is checked: never
/// signatures, proofs, claims or trust.
pub fn attach_receipt(statement: &[u8], receipt: &[u8]) -> (r: Result<Vec<u8>, AttachError>)
    ensures
        match attach_outcome(statement@, receipt@) {
            Ok(b) => r matches Ok(v) && v@ == b,
            Err(e) => r == Err::<Vec<u8>, AttachError>(e),
        },
        r is Ok ==> (receipts_from_statement(statement@) matches Ok(m) && (m is Absent || m is Present)),
        r matches Ok(out) ==> (attach_read_guard(statement@) ==> receipts_from_statement(out@)
            == Ok::<AttachedModel, &'static str>(AttachedModel::Present(receipts_after_attach(statement@, receipt@)))),
        r matches Ok(out) ==> (attach_read_guard(statement@) ==> candidate_from_statement(out@) == candidate_from_statement(statement@)),
        r matches Ok(out) ==> (attach_read_guard(statement@) && statement_outcome(out@) is Ok && statement_outcome(statement@) is Ok
            ==> same_signed_contents(statement_outcome(out@)->Ok_0, statement_outcome(statement@)->Ok_0)
                && same_profile_headers(statement_outcome(out@)->Ok_0, statement_outcome(statement@)->Ok_0)),
{
    let value = match cbor_decode(statement) {
        Ok(v) => v,
        Err(no_item) => {
            if no_item {
                return Err(AttachError::NotCoseSign1);
            } else {
                return Err(AttachError::TrailingBytes);
            }
        }
    };
    let items: &Vec<CborValue> = match &value {
        CborValue::Tag(tag, inner) => {
            if *tag != 18 {
                return Err(AttachError::NotCoseSign1);
            }
            match &**inner {
                CborValue::Array(items) => {
                    assert((**inner)@ == CborV::Array(view_items(items@)));
                    items
                },
                _ => {
                    return Err(AttachError::NotCoseSign1);
                }
            }
        }
        CborValue::Array(items) => items,
        _ => {
            return Err(AttachError::NotCoseSign1);
        }
    };
    proof {
        lemma_view_items(items@);
    }
    let ghost vi = view_items(items@);
    assert(statement_array(cbor_decode_exact(statement@)->Some_0) == CborV::Array(vi));
    if items.len() != 4 {
        return Err(AttachError::NotFourElements);
    }
    let protected = match validate_envelope(items.as_slice(), false) {
        Ok(p) => p,
        Err(m) => {
            return Err(AttachError::InvalidStatement(m));
        }
    };
    if find_label(protected.as_slice(), RECEIPTS_LABEL).is_some() {
        return Err(AttachError::ProtectedReceipts);
    }
    let map = match &items[1] {
        CborValue::Entries(m) => m,
        _ => {
            return Err(AttachError::UnprotectedNotMap);
        }
    };
    assert(vi[1] == items@[1]@);
    validate_receipt(receipt)?;
    let new_map = append_receipt(map, receipt)?;
    let new_items = vec![
        copy_value(&items[0]),
        CborValue::Entries(new_map),
        copy_value(&items[2]),
        copy_value(&items[3]),
    ];
    proof {
        lemma_view_items(new_items@);
        assert(vi[0] == items@[0]@);
        assert(vi[2] == items@[2]@);
        assert(vi[3] == items@[3]@);
        assert(view_items(new_items@) =~= vi.update(1, CborV::Entries(view_entries(new_map@))));
    }
    let array = CborValue::Array(new_items);
    assert(array@ == CborV::Array(vi.update(1, CborV::Entries(view_entries(new_map@)))));
    let out = CborValue::Tag(18, Box::new(array));
    assert(out@ == CborV::Tag(18, Box::new(CborV::Array(vi.update(1, CborV::Entries(view_entries(new_map@)))))));
    match cbor_write(&out) {
        Some(bytes) => {
            proof {
                let v = cbor_decode_exact(statement@)->Some_0;
                let pm = view_entries(protected@);
                let map2 = view_entries(new_map@);
                lemma_attach_read_before(statement@, receipt@, v, vi, pm);
                if attach_read_guard(statement@) {
                    lemma_attach_value_bounds(v, vi, receipt@, map2);
                    let w = cbor_read(bytes@)->Some_0.0;
                    lemma_attach_read_back(statement@, receipt@, v, vi, pm, map2, w);
                    let ys = (*(w->Tag_1))->Array_0;
                    assert(sign1_items(v) == Some(vi));
                    assert(sign1_items(w) == Some(ys));
                }
            }
            Ok(bytes)
        },
        None => Err(AttachError::ReencodeFailed),
    }
}

} // verus!
