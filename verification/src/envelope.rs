//! The attached-payload `COSE_Sign1` statement: production with Ed25519 and
//! verification of its structure, protected headers, payload and signature.
use vstd::prelude::*;
use vstd::string::StrSliceExecFns;
use crate::error::Error;
use crate::cbor::{CborValue, CborV, cbor_read, cbor_written, cbor_decode_exact, cbor_read_prefix, cbor_decode, cbor_write,
    entry_value, get, view_items, view_entries, lemma_view_items, lemma_view_entries, copy_entries};
use crate::cwt::{CwtClaims, cwt_claims, claims_value, CWT_CLAIMS_LABEL};
use crate::payload::{Payload, SPEC_VERSION, readable, payload_is, validation, payload_json, text_member, member, read_error,
    validation_matches, canonical_payload};
use crate::json::{jcs, JsonV};
use crate::receipt::{sig_structure, encode_sig_structure, copy_bytes, sign1_items};
use crate::crypto::{ed25519_accepts, ed25519_signature, ed25519_public, ed25519_verify, ed25519_sign,
    es256_accepts, es256_signature, es256_sign, es256_verify};
use crate::text::str_eq;

verus! {

/// Required protected content type for the profile.
pub const CONTENT_TYPE: &'static str = "application/pser+json; profile=wilder.pser/0.5";

/// The content type with every `/` written as `-`, which a producer might
/// have emitted to satisfy a one-slash content-type rule.
pub const CONTENT_TYPE_HYPHENATED: &'static str = "application-pser+json; profile=wilder.pser-0.5";

/// The content type of the 0.6 profile version.
pub const CONTENT_TYPE_06: &'static str = "application/pser+json; profile=wilder.pser/0.6";

/// The 0.6 content type with every `/` written as `-`.
pub const CONTENT_TYPE_06_HYPHENATED: &'static str = "application-pser+json; profile=wilder.pser-0.6";

/// Byte offset of the profile-version `/` in `CONTENT_TYPE` and
/// `CONTENT_TYPE_06`.
pub const PROFILE_SLASH_OFFSET: usize = 42;

/// Whether coset's `CoseSign1::from_cbor_value` accepts the value (its
/// arity, element types and both header maps, including coset's content-type
/// rules and duplicate-label check). False for a value with no ciborium form.
pub uninterp spec fn coset_sign1_accepts(v: CborV) -> bool;

/// `CoseSign1::from_cbor_value` on the ciborium form of a value: whether it
/// parses.
#[verifier::external_body]
fn coset_accepts_sign1(v: &CborValue) -> (r: bool)
    ensures
        r == coset_sign1_accepts(v@),
{
    match crate::cbor::to_ciborium(v) {
        Some(x) => <coset::CoseSign1 as coset::AsCborValue>::from_cbor_value(x).is_ok(),
        None => false,
    }
}

/// The protected content type a profile version calls for.
pub open spec fn content_type_for(spec: Seq<char>) -> Option<&'static str> {
    if spec == SPEC_VERSION@ {
        Some(CONTENT_TYPE)
    } else {
        None
    }
}

fn content_type_for_spec(spec: &str) -> (r: Option<&'static str>)
    ensures
        r == content_type_for(spec@),
{
    if str_eq(spec, SPEC_VERSION) {
        Some(CONTENT_TYPE)
    } else {
        None
    }
}

/// The number of entries from index `i` on whose label is the integer `k`.
pub open spec fn label_count(es: Seq<(CborV, CborV)>, k: int, i: int) -> int
    decreases es.len() - i,
{
    if i < 0 || i >= es.len() {
        0
    } else {
        (if es[i].0 == CborV::Integer(k) { 1int } else { 0int }) + label_count(es, k, i + 1)
    }
}

/// The profile content type a content-type value is read as: a profile
/// content type (0.5 or 0.6) or its hyphenated form.
pub open spec fn profile_content_type(v: CborV) -> Option<&'static str> {
    if v == CborV::Text(CONTENT_TYPE@) || v == CborV::Text(CONTENT_TYPE_HYPHENATED@) {
        Some(CONTENT_TYPE)
    } else if v == CborV::Text(CONTENT_TYPE_06@) || v == CborV::Text(CONTENT_TYPE_06_HYPHENATED@) {
        Some(CONTENT_TYPE_06)
    } else {
        None
    }
}

/// The profile content type of the last label-3 entry among the first `n`
/// entries that carries one.
pub open spec fn profile_content_type_in(es: Seq<(CborV, CborV)>, n: int) -> Option<&'static str>
    decreases n,
{
    if n <= 0 || n > es.len() {
        None
    } else if es[n - 1].0 == CborV::Integer(3) && profile_content_type(es[n - 1].1) is Some {
        profile_content_type(es[n - 1].1)
    } else {
        profile_content_type_in(es, n - 1)
    }
}

/// The `(label-3 count, profile content type seen)` of a decoded protected
/// header.
pub open spec fn content_type_scan(pv: CborV) -> (int, Option<&'static str>) {
    match pv {
        CborV::Entries(es) => (label_count(es, 3, 0), profile_content_type_in(es, es.len() as int)),
        _ => (0, None),
    }
}

/// The first index from `i` on at which `w` occurs in `p`.
pub open spec fn first_window(p: Seq<u8>, w: Seq<u8>, i: int) -> Option<int>
    decreases p.len() + 1 - i,
{
    if i < 0 || i > p.len() || i + w.len() > p.len() {
        None
    } else if p.subrange(i, i + w.len()) == w {
        Some(i)
    } else {
        first_window(p, w, i + 1)
    }
}

/// The protected bytes with the profile-version `/` of the first occurrence
/// of content type `ct` written as `-`, so that the one-slash rule accepts
/// the structure.
pub open spec fn patched(p: Seq<u8>, ct: &'static str) -> Seq<u8> {
    let w = vstd::utf8::encode_utf8(ct@);
    match first_window(p, w, 0) {
        Some(start) => if start + PROFILE_SLASH_OFFSET < p.len() { p.update(start + PROFILE_SLASH_OFFSET, 45u8) } else { p },
        None => p,
    }
}

/// A parsed statement: the original protected bytes, the protected header
/// entries as read, the profile content type its content type was
/// normalized to, if any, the unprotected entries, the payload and the
/// signature.
pub struct StatementModel {
    pub protected: Seq<u8>,
    pub header: Seq<(CborV, CborV)>,
    pub normalized: Option<&'static str>,
    pub unprotected: Seq<(CborV, CborV)>,
    pub payload: Option<Seq<u8>>,
    pub signature: Seq<u8>,
}

/// What parsing statement bytes gives.
pub open spec fn statement_outcome(bytes: Seq<u8>) -> Result<StatementModel, Error> {
    match cbor_read(bytes) {
        None => Err(Error::Cose("failed to parse COSE_Sign1 CBOR")),
        Some((v, rest)) => if rest != 0 {
            Err(Error::Cose("trailing bytes after COSE_Sign1"))
        } else {
            match sign1_items(v) {
                Some(items) => if items.len() == 0 || !(items[0] is Bytes) {
                    Err(Error::Cose("COSE_Sign1 protected header must be bytes"))
                } else {
                    let p = items[0]->Bytes_0;
                    match cbor_read(p) {
                        None => Err(Error::Cose("protected header is not valid CBOR")),
                        Some((pv, _)) => {
                            let (count, compat) = content_type_scan(pv);
                            if count > 1 {
                                Err(Error::Header("duplicate content_type in protected header"))
                            } else {
                                let p2 = match compat {
                                    Some(ct) => patched(p, ct),
                                    None => p,
                                };
                                let v2 = CborV::Array(items.update(0, CborV::Bytes(p2)));
                                if !coset_sign1_accepts(v2) {
                                    Err(Error::Cose("failed to parse COSE_Sign1 structure"))
                                } else {
                                    structure_model(items, p, p2, compat)
                                }
                            }
                        },
                    }
                },
                None => Err(Error::Cose("COSE_Sign1 must be an array")),
            }
        },
    }
}

/// The parts of an accepted statement array.
pub open spec fn structure_model(items: Seq<CborV>, p: Seq<u8>, p2: Seq<u8>, compat: Option<&'static str>) -> Result<StatementModel, Error> {
    if items.len() == 4 && cbor_decode_exact(p2) is Some && cbor_decode_exact(p2)->Some_0 is Entries && items[1] is Entries
        && (items[2] is Bytes || items[2] is Null) && items[3] is Bytes {
        Ok(StatementModel {
            protected: p,
            header: cbor_decode_exact(p2)->Some_0->Entries_0,
            normalized: compat,
            unprotected: items[1]->Entries_0,
            payload: if items[2] is Bytes { Some(items[2]->Bytes_0) } else { None },
            signature: items[3]->Bytes_0,
        })
    } else {
        Err(Error::Cose("failed to parse COSE_Sign1 structure"))
    }
}

/// A parsed statement.
pub struct ParsedStatement {
    pub protected: Vec<u8>,
    pub header: Vec<(CborValue, CborValue)>,
    pub normalized: Option<&'static str>,
    pub unprotected: Vec<(CborValue, CborValue)>,
    pub payload: Option<Vec<u8>>,
    pub signature: Vec<u8>,
}

/// Whether a parsed statement is a model.
pub open spec fn parsed_is(s: ParsedStatement, m: StatementModel) -> bool {
    &&& s.protected@ == m.protected
    &&& view_entries(s.header@) == m.header
    &&& s.normalized == m.normalized
    &&& view_entries(s.unprotected@) == m.unprotected
    &&& match s.payload {
        Some(b) => m.payload == Some(b@),
        None => m.payload is None,
    }
    &&& s.signature@ == m.signature
}

fn label_count_exec(es: &[(CborValue, CborValue)], k: i128) -> (r: usize)
    ensures
        r == label_count(view_entries(es@), k as int, 0),
{
    proof {
        lemma_view_entries(es@);
    }
    let ghost ve = view_entries(es@);
    let mut count: usize = 0;
    let mut i: usize = es.len();
    while i > 0
        invariant
            i <= es@.len(),
            ve == view_entries(es@),
            ve.len() == es@.len(),
            forall|m: int| 0 <= m < es@.len() ==> #[trigger] ve[m] == (es@[m].0@, es@[m].1@),
            count as int == label_count(ve, k as int, i as int),
            count <= es@.len() - i,
        decreases i,
    {
        i = i - 1;
        let is_label = match &es[i].0 {
            CborValue::Integer(n) => *n == k,
            _ => false,
        };
        if is_label {
            count = count + 1;
        }
    }
    count
}

fn profile_content_type_exec(v: &CborValue) -> (r: Option<&'static str>)
    ensures
        r == profile_content_type(v@),
{
    match v {
        CborValue::Text(t) => if str_eq(t.as_str(), CONTENT_TYPE) || str_eq(t.as_str(), CONTENT_TYPE_HYPHENATED) {
            Some(CONTENT_TYPE)
        } else if str_eq(t.as_str(), CONTENT_TYPE_06) || str_eq(t.as_str(), CONTENT_TYPE_06_HYPHENATED) {
            Some(CONTENT_TYPE_06)
        } else {
            None
        },
        _ => None,
    }
}

fn content_type_scan_exec(pv: &CborValue) -> (r: (usize, Option<&'static str>))
    ensures
        r.0 as int == content_type_scan(pv@).0,
        r.1 == content_type_scan(pv@).1,
{
    match pv {
        CborValue::Entries(es) => {
            proof {
                lemma_view_entries(es@);
            }
            let ghost ve = view_entries(es@);
            let count = label_count_exec(es.as_slice(), 3);
            let mut seen: Option<&'static str> = None;
            let mut i: usize = 0;
            while i < es.len()
                invariant
                    i <= es@.len(),
                    ve == view_entries(es@),
                    ve.len() == es@.len(),
                    forall|m: int| 0 <= m < es@.len() ==> #[trigger] ve[m] == (es@[m].0@, es@[m].1@),
                    seen == profile_content_type_in(ve, i as int),
                decreases es@.len() - i,
            {
                let is_label = match &es[i].0 {
                    CborValue::Integer(n) => *n == 3,
                    _ => false,
                };
                let profile = profile_content_type_exec(&es[i].1);
                proof {
                    assert(ve[i as int] == (es@[i as int].0@, es@[i as int].1@));
                    assert(is_label == (ve[i as int].0 == CborV::Integer(3)));
                    assert(profile == profile_content_type(ve[i as int].1));
                }
                if is_label && profile.is_some() {
                    seen = profile;
                }
                i = i + 1;
            }
            (count, seen)
        }
        _ => (0, None),
    }
}

fn window_at(p: &[u8], i: usize, w: &[u8]) -> (r: bool)
    requires
        i + w@.len() <= p@.len(),
    ensures
        r == (p@.subrange(i as int, i + w@.len()) == w@),
{
    let n = p.len();
    let mut j: usize = 0;
    while j < w.len()
        invariant
            n == p@.len(),
            j <= w@.len(),
            i + w@.len() <= p@.len(),
            forall|m: int| 0 <= m < j ==> p@[i + m] == w@[m],
        decreases w@.len() - j,
    {
        assert(i + j < p@.len());
        if p[i + j] != w[j] {
            proof {
                assert(p@.subrange(i as int, i + w@.len())[j as int] != w@[j as int]);
            }
            return false;
        }
        j = j + 1;
    }
    proof {
        assert(p@.subrange(i as int, i + w@.len()) =~= w@);
    }
    true
}

fn patch_protected(p: &mut Vec<u8>, ct: &'static str)
    ensures
        final(p)@ == patched(old(p)@, ct),
{
    let w = ct.as_bytes_vec();
    let ghost original = p@;
    if p.len() < w.len() {
        proof {
            assert(first_window(original, w@, 0) is None);
        }
        return;
    }
    if w.len() == 0 {
        assert(original.subrange(0, 0) =~= w@);
        if PROFILE_SLASH_OFFSET < p.len() {
            p.set(PROFILE_SLASH_OFFSET, 45u8);
        }
        return;
    }
    let n = p.len();
    let last = p.len() - w.len();
    let mut i: usize = 0;
    while i <= last
        invariant
            n == p@.len(),
            p@ == original,
            old(p)@ == original,
            w@ == vstd::utf8::encode_utf8(ct@),
            first_window(original, w@, 0) == first_window(original, w@, i as int),
            w@.len() <= p@.len(),
            w@.len() > 0,
            last == p@.len() - w@.len(),
            i <= last + 1,
        decreases last + 1 - i,
    {
        if window_at(p.as_slice(), i, w.as_slice()) {
            assert(first_window(original, w@, i as int) == Some(i as int));
            if PROFILE_SLASH_OFFSET < p.len() - i {
                p.set(i + PROFILE_SLASH_OFFSET, 45u8);
            }
            return;
        }
        i = i + 1;
    }
    proof {
        assert(first_window(original, w@, i as int) is None);
    }
}

/// Parses a `COSE_Sign1` from CBOR bytes. The content type is read from
/// label 3 of the decoded protected map, never found by a raw byte search;
/// when it is the profile content type (which has a second `/`), that `/`
/// is written as `-` in the bytes handed to the structural parse, the
/// original bytes are kept for the signature, and the content type is
/// normalized back.
fn parse_statement(bytes: &[u8]) -> (r: Result<ParsedStatement, Error>)
    ensures
        match statement_outcome(bytes@) {
            Ok(m) => r matches Ok(s) && parsed_is(s, m),
            Err(e) => r == Err::<ParsedStatement, Error>(e),
        },
{
    let value = match cbor_decode(bytes) {
        Ok(v) => v,
        Err(no_item) => {
            if no_item {
                return Err(Error::Cose("failed to parse COSE_Sign1 CBOR"));
            } else {
                return Err(Error::Cose("trailing bytes after COSE_Sign1"));
            }
        }
    };
    let ghost v0 = value@;
    let mut items = match value {
        CborValue::Array(items) => items,
        CborValue::Tag(tag, inner) => {
            let inner_value: CborValue = *inner;
            assert(v0 == CborV::Tag(tag, Box::new(inner_value@)));
            if tag != 18 {
                return Err(Error::Cose("COSE_Sign1 must be an array"));
            }
            match inner_value {
                CborValue::Array(items) => items,
                _ => {
                    return Err(Error::Cose("COSE_Sign1 must be an array"));
                }
            }
        }
        _ => {
            return Err(Error::Cose("COSE_Sign1 must be an array"));
        }
    };
    proof {
        lemma_view_items(items@);
        assert(sign1_items(v0) == Some(view_items(items@)));
    }
    let ghost original_items = view_items(items@);
    if items.len() == 0 {
        return Err(Error::Cose("COSE_Sign1 protected header must be bytes"));
    }
    let protected = match &items[0] {
        CborValue::Bytes(b) => copy_bytes(b.as_slice()),
        _ => {
            return Err(Error::Cose("COSE_Sign1 protected header must be bytes"));
        }
    };
    let header_value = match cbor_read_prefix(protected.as_slice()) {
        Some((v, _)) => v,
        None => {
            return Err(Error::Cose("protected header is not valid CBOR"));
        }
    };
    let (count, compat) = content_type_scan_exec(&header_value);
    if count > 1 {
        return Err(Error::Header("duplicate content_type in protected header"));
    }
    let mut readable = copy_bytes(protected.as_slice());
    match compat {
        Some(ct) => patch_protected(&mut readable, ct),
        None => {},
    }
    items.set(0, CborValue::Bytes(copy_bytes(readable.as_slice())));
    proof {
        lemma_view_items(items@);
        assert(view_items(items@) =~= original_items.update(0, CborV::Bytes(readable@)));
    }
    let candidate = CborValue::Array(items);
    if !coset_accepts_sign1(&candidate) {
        return Err(Error::Cose("failed to parse COSE_Sign1 structure"));
    }
    let items = match candidate {
        CborValue::Array(items) => items,
        _ => {
            return Err(Error::Cose("failed to parse COSE_Sign1 structure"));
        }
    };
    let ghost vi = view_items(items@);
    if items.len() != 4 {
        return Err(Error::Cose("failed to parse COSE_Sign1 structure"));
    }
    let header = match cbor_decode(readable.as_slice()) {
        Ok(CborValue::Entries(h)) => h,
        _ => {
            return Err(Error::Cose("failed to parse COSE_Sign1 structure"));
        }
    };
    let unprotected = match &items[1] {
        CborValue::Entries(u) => copy_entries(u.as_slice()),
        _ => {
            return Err(Error::Cose("failed to parse COSE_Sign1 structure"));
        }
    };
    let payload = match &items[2] {
        CborValue::Bytes(b) => Some(copy_bytes(b.as_slice())),
        CborValue::Null => None,
        _ => {
            return Err(Error::Cose("failed to parse COSE_Sign1 structure"));
        }
    };
    let signature = match &items[3] {
        CborValue::Bytes(b) => copy_bytes(b.as_slice()),
        _ => {
            return Err(Error::Cose("failed to parse COSE_Sign1 structure"));
        }
    };
    proof {
        assert(vi[1] == items@[1]@);
        assert(vi[2] == items@[2]@);
        assert(vi[3] == items@[3]@);
    }
    Ok(ParsedStatement { protected, header, normalized: compat, unprotected, payload, signature })
}

/// The effective protected content type: the profile content type when it
/// was normalized, otherwise the label-3 text.
pub open spec fn effective_content_type(m: StatementModel) -> Option<Seq<char>> {
    match m.normalized {
        Some(ct) => Some(ct@),
        None => match entry_value(m.header, 3) {
            Some(CborV::Text(t)) => Some(t),
            _ => None,
        },
    }
}

/// The protected- and unprotected-header rules of a parsed statement signed
/// with COSE algorithm `alg`, for a payload of profile version `spec` and
/// site identifier `site_id`.
pub open spec fn header_outcome(m: StatementModel, alg: int, spec: Seq<char>, site_id: Seq<char>) -> Result<(), Error> {
    if entry_value(m.header, 1) != Some(CborV::Integer(alg)) {
        Err(Error::Header("unexpected or missing signing algorithm"))
    } else if content_type_for(spec) is None {
        Err(Error::Validation("unsupported spec version"))
    } else if effective_content_type(m) != Some(content_type_for(spec)->Some_0@) {
        Err(Error::Header("protected content_type does not match payload spec version"))
    } else {
        match entry_value(m.header, CWT_CLAIMS_LABEL as int) {
            None => Err(Error::Header("CWT_Claims is missing")),
            Some(c) => if label_count(m.header, CWT_CLAIMS_LABEL as int, 0) > 1 {
                Err(Error::Header("CWT_Claims is duplicated"))
            } else {
                match cwt_claims(c) {
                    Err(msg) => Err(Error::Header(msg)),
                    Ok((iss, sub)) => if iss.len() == 0 {
                        Err(Error::Header("CWT iss must not be empty"))
                    } else if sub != vstd::utf8::encode_utf8(site_id) {
                        Err(Error::Header("CWT sub does not match site.id"))
                    } else if entry_value(m.unprotected, 1) is Some || entry_value(m.unprotected, 3) is Some
                        || entry_value(m.unprotected, CWT_CLAIMS_LABEL as int) is Some {
                        Err(Error::Header("profile headers must not appear in the unprotected map"))
                    } else {
                        Ok(())
                    },
                }
            },
        }
    }
}

/// A statement whose headers pass names the payload's site: its protected
/// CWT claims have a nonempty issuer and the UTF-8 bytes of the site
/// identifier as subject, its protected algorithm is the one checked for,
/// and the unprotected map repeats none of the profile headers.
pub proof fn lemma_accepted_headers_bind_site(m: StatementModel, alg: int, spec: Seq<char>, site_id: Seq<char>)
    requires
        header_outcome(m, alg, spec, site_id) is Ok,
    ensures
        entry_value(m.header, 1) == Some(CborV::Integer(alg)),
        entry_value(m.header, CWT_CLAIMS_LABEL as int) matches Some(c) && cwt_claims(c) matches Ok((iss, sub))
            && iss.len() > 0 && sub == vstd::utf8::encode_utf8(site_id),
        entry_value(m.unprotected, 1) is None && entry_value(m.unprotected, 3) is None
            && entry_value(m.unprotected, CWT_CLAIMS_LABEL as int) is None,
{
}

/// The CWT subject a statement's protected header names, if its claims
/// read.
pub open spec fn cwt_subject(m: StatementModel) -> Option<Seq<u8>> {
    match entry_value(m.header, CWT_CLAIMS_LABEL as int) {
        Some(c) => match cwt_claims(c) {
            Ok((_, sub)) => Some(sub),
            Err(_) => None,
        },
        None => None,
    }
}

fn validate_headers(s: &ParsedStatement, payload: &Payload, alg: i128, m: Ghost<StatementModel>) -> (r: Result<(), Error>)
    requires
        parsed_is(*s, m@),
    ensures
        r == header_outcome(m@, alg as int, payload.spec@, payload.site.id@),
{
    proof {
        lemma_view_entries(s.header@);
        lemma_view_entries(s.unprotected@);
    }
    let alg_ok = match get(s.header.as_slice(), 1) {
        Some(CborValue::Integer(a)) => *a == alg,
        _ => false,
    };
    if !alg_ok {
        return Err(Error::Header("unexpected or missing signing algorithm"));
    }
    let expected = match content_type_for_spec(payload.spec()) {
        Some(ct) => ct,
        None => {
            return Err(Error::Validation("unsupported spec version"));
        }
    };
    let ct_ok = match s.normalized {
        Some(ct) => str_eq(ct, expected),
        None => match get(s.header.as_slice(), 3) {
            Some(CborValue::Text(t)) => str_eq(t.as_str(), expected),
            _ => false,
        },
    };
    if !ct_ok {
        return Err(Error::Header("protected content_type does not match payload spec version"));
    }
    let claims_value = match get(s.header.as_slice(), CWT_CLAIMS_LABEL) {
        Some(c) => c,
        None => {
            return Err(Error::Header("CWT_Claims is missing"));
        }
    };
    if label_count_exec(s.header.as_slice(), CWT_CLAIMS_LABEL) > 1 {
        return Err(Error::Header("CWT_Claims is duplicated"));
    }
    let claims = CwtClaims::from_value(claims_value)?;
    if claims.issuer.as_str().is_empty() {
        return Err(Error::Header("CWT iss must not be empty"));
    }
    let site = payload.site_id().as_bytes_vec();
    if !crate::cbor::bytes_eq(claims.subject.as_slice(), site.as_slice()) {
        return Err(Error::Header("CWT sub does not match site.id"));
    }
    proof {
        assert(claims.subject@ =~= site@);
    }
    if get(s.unprotected.as_slice(), 1).is_some() || get(s.unprotected.as_slice(), 3).is_some()
        || get(s.unprotected.as_slice(), CWT_CLAIMS_LABEL).is_some() {
        return Err(Error::Header("profile headers must not appear in the unprotected map"));
    }
    Ok(())
}

/// The COSE algorithm identifier of EdDSA.
pub const ALG_EDDSA: i128 = -8;

/// The COSE algorithm identifier of ES256.
pub const ALG_ES256: i128 = -7;

/// The bytes a statement's signature covers: its `Sig_structure` over the
/// original protected bytes, empty external data and the payload.
pub open spec fn signed_bytes(m: StatementModel) -> Option<Seq<u8>> {
    cbor_written(sig_structure(m.protected, m.payload.unwrap()))
}

/// Whether the statement's signature verifies with `Verifier::verify` under
/// the Ed25519 public key `key`.
pub open spec fn signature_ok(m: StatementModel, key: [u8; 32]) -> bool {
    &&& m.signature.len() == 64
    &&& signed_bytes(m) matches Some(message)
    &&& ed25519_accepts(key@, message, m.signature)
}

/// Whether the statement's signature verifies with `Verifier::verify` under
/// the SEC1-encoded P-256 public key `key`.
pub open spec fn es256_signature_ok(m: StatementModel, key: Seq<u8>) -> bool {
    &&& m.signature.len() == 64
    &&& signed_bytes(m) matches Some(message)
    &&& es256_accepts(key, message, m.signature)
}

/// Whether the protected headers of statement `m` pass for algorithm `alg`
/// under every payload record the payload bytes `pb` hold.
pub open spec fn headers_accept(m: StatementModel, alg: int, pb: Seq<u8>) -> bool {
    forall|q: Payload| #[trigger] payload_is(q, readable(pb)->Some_0) ==> header_outcome(m, alg, q.spec@, q.site.id@) is Ok
}

/// Whether statement bytes pass every check but the signature itself for
/// algorithm `alg`: they parse, carry a canonical payload, their headers
/// pass, and the signature is 64 bytes over encodable signed bytes.
pub open spec fn statement_opens(statement: Seq<u8>, alg: int) -> bool {
    &&& statement_outcome(statement) matches Ok(m)
    &&& m.payload matches Some(pb)
    &&& canonical_payload(pb)
    &&& headers_accept(m, alg, pb)
    &&& m.signature.len() == 64
    &&& signed_bytes(m) is Some
}

/// Everything but the signature check: parses the statement, reads its
/// canonical payload and checks the headers for algorithm `alg`; gives the
/// payload, the bytes the signature covers, and the signature.
fn open_statement(statement: &[u8], alg: i128) -> (r: Result<(Payload, Vec<u8>, Vec<u8>), Error>)
    ensures
        statement_outcome(statement@) is Err ==> r == Err::<(Payload, Vec<u8>, Vec<u8>), Error>(statement_outcome(statement@)->Err_0),
        statement_outcome(statement@) matches Ok(m) && m.payload is None ==>
            r == Err::<(Payload, Vec<u8>, Vec<u8>), Error>(Error::Cose("detached payloads are not permitted")),
        r matches Ok((p, message, signature)) ==> statement_outcome(statement@) matches Ok(m) && m.payload matches Some(pb)
            && readable(pb) is Some && payload_is(p, readable(pb)->Some_0) && validation(p) is Ok
            && jcs(payload_json(p)) == Some(pb)
            && header_outcome(m, alg as int, p.spec@, p.site.id@) is Ok
            && signature@ == m.signature && signature@.len() == 64 && signed_bytes(m) == Some(message@),
        r matches Err(e) && statement_outcome(statement@) is Ok && e is Signature ==>
            statement_outcome(statement@)->Ok_0.signature.len() != 64 || signed_bytes(statement_outcome(statement@)->Ok_0) is None,
        statement_opens(statement@, alg as int) ==> r is Ok,
{
    let parsed = parse_statement(statement);
    let ghost outcome = statement_outcome(statement@);
    let parsed = match parsed {
        Ok(s) => s,
        Err(e) => {
            return Err(e);
        }
    };
    let ghost m = outcome->Ok_0;
    let payload_bytes = match &parsed.payload {
        Some(b) => b,
        None => {
            return Err(Error::Cose("detached payloads are not permitted"));
        }
    };
    let payload = Payload::parse_canonical(payload_bytes.as_slice())?;
    validate_headers(&parsed, &payload, alg, Ghost(m))?;
    if parsed.signature.len() != 64 {
        return Err(Error::Signature);
    }
    let message = match encode_sig_structure(parsed.protected.as_slice(), payload_bytes.as_slice()) {
        Some(message) => message,
        None => {
            return Err(Error::Signature);
        }
    };
    let signature = copy_bytes(parsed.signature.as_slice());
    Ok((payload, message, signature))
}

/// Parses and verifies an Ed25519 `COSE_Sign1` statement and its payload:
/// structure, canonical payload, protected headers, then the signature.
pub fn verify_ed25519(statement: &[u8], key: &[u8; 32]) -> (r: Result<Payload, Error>)
    ensures
        statement_outcome(statement@) is Err ==> r == Err::<Payload, Error>(statement_outcome(statement@)->Err_0),
        statement_outcome(statement@) matches Ok(m) && m.payload is None ==>
            r == Err::<Payload, Error>(Error::Cose("detached payloads are not permitted")),
        r matches Ok(p) ==> statement_outcome(statement@) matches Ok(m) && m.payload matches Some(pb)
            && readable(pb) is Some && payload_is(p, readable(pb)->Some_0) && validation(p) is Ok
            && jcs(payload_json(p)) == Some(pb)
            && header_outcome(m, ALG_EDDSA as int, p.spec@, p.site.id@) is Ok
            && signature_ok(m, *key),
        r matches Ok(p) ==> statement_outcome(statement@) matches Ok(m)
            && cwt_subject(m) == Some(vstd::utf8::encode_utf8(p.site.id@)),
        r matches Err(e) && statement_outcome(statement@) is Ok && e is Signature ==>
            !signature_ok(statement_outcome(statement@)->Ok_0, *key),
        statement_opens(statement@, ALG_EDDSA as int) && signature_ok(statement_outcome(statement@)->Ok_0, *key) ==> r is Ok,
{
    let (payload, message, signature) = open_statement(statement, ALG_EDDSA)?;
    if !ed25519_verify(key, message.as_slice(), signature.as_slice()) {
        return Err(Error::Signature);
    }
    Ok(payload)
}

/// Parses and verifies an ES256 `COSE_Sign1` statement and its payload
/// under the SEC1-encoded P-256 public key `key`: structure, canonical
/// payload, protected headers, then the signature.
pub fn verify_es256(statement: &[u8], key: &[u8]) -> (r: Result<Payload, Error>)
    ensures
        statement_outcome(statement@) is Err ==> r == Err::<Payload, Error>(statement_outcome(statement@)->Err_0),
        statement_outcome(statement@) matches Ok(m) && m.payload is None ==>
            r == Err::<Payload, Error>(Error::Cose("detached payloads are not permitted")),
        r matches Ok(p) ==> statement_outcome(statement@) matches Ok(m) && m.payload matches Some(pb)
            && readable(pb) is Some && payload_is(p, readable(pb)->Some_0) && validation(p) is Ok
            && jcs(payload_json(p)) == Some(pb)
            && header_outcome(m, ALG_ES256 as int, p.spec@, p.site.id@) is Ok
            && es256_signature_ok(m, key@),
        r matches Ok(p) ==> statement_outcome(statement@) matches Ok(m)
            && cwt_subject(m) == Some(vstd::utf8::encode_utf8(p.site.id@)),
        r matches Err(e) && statement_outcome(statement@) is Ok && e is Signature ==>
            !es256_signature_ok(statement_outcome(statement@)->Ok_0, key@),
        statement_opens(statement@, ALG_ES256 as int) && es256_signature_ok(statement_outcome(statement@)->Ok_0, key@) ==> r is Ok,
{
    let (payload, message, signature) = open_statement(statement, ALG_ES256)?;
    if !es256_verify(key, message.as_slice(), signature.as_slice()) {
        return Err(Error::Signature);
    }
    Ok(payload)
}

/// The protected header map a statement signed with COSE algorithm `alg`
/// is produced with.
pub open spec fn protected_map_for(alg: int, issuer: Seq<char>, subject: Seq<u8>) -> CborV {
    CborV::Entries(seq![
        (CborV::Integer(1), CborV::Integer(alg)),
        (CborV::Integer(3), CborV::Text(CONTENT_TYPE@)),
        (CborV::Integer(CWT_CLAIMS_LABEL as int), claims_value(issuer, subject)),
    ])
}

/// The protected header map of an Ed25519 statement.
pub open spec fn protected_map(issuer: Seq<char>, subject: Seq<u8>) -> CborV {
    protected_map_for(ALG_EDDSA as int, issuer, subject)
}

/// The statement bytes produced with algorithm `alg` from a payload's JCS
/// bytes, `sign` giving the signature of the signed bytes; `None` when an
/// encoding step or the signing fails.
pub open spec fn produced_with(alg: int, issuer: Seq<char>, site_id: Seq<char>, payload: Seq<u8>,
    sign: spec_fn(Seq<u8>) -> Option<Seq<u8>>) -> Option<Seq<u8>> {
    match cbor_written(protected_map_for(alg, issuer, vstd::utf8::encode_utf8(site_id))) {
        Some(protected) => match cbor_written(sig_structure(protected, payload)) {
            Some(message) => match sign(message) {
                Some(signature) => cbor_written(CborV::Array(seq![
                    CborV::Bytes(protected),
                    CborV::Entries(Seq::empty()),
                    CborV::Bytes(payload),
                    CborV::Bytes(signature),
                ])),
                None => None,
            },
            None => None,
        },
        None => None,
    }
}

/// The Ed25519 statement bytes produced from a payload's JCS bytes.
pub open spec fn produced(issuer: Seq<char>, site_id: Seq<char>, payload: Seq<u8>, secret: Seq<u8>) -> Option<Seq<u8>> {
    produced_with(ALG_EDDSA as int, issuer, site_id, payload, |m: Seq<u8>| Some(ed25519_signature(secret, m)))
}

/// The ES256 statement bytes produced from a payload's JCS bytes.
pub open spec fn produced_es256(issuer: Seq<char>, site_id: Seq<char>, payload: Seq<u8>, secret: Seq<u8>) -> Option<Seq<u8>> {
    produced_with(ALG_ES256 as int, issuer, site_id, payload, |m: Seq<u8>| es256_signature(secret, m))
}

/// Why ES256 production fails when it does: the signing, or an encoding
/// step.
pub open spec fn es256_production_error(issuer: Seq<char>, site_id: Seq<char>, payload: Seq<u8>, secret: Seq<u8>) -> Error {
    match cbor_written(protected_map_for(ALG_ES256 as int, issuer, vstd::utf8::encode_utf8(site_id))) {
        Some(protected) => match cbor_written(sig_structure(protected, payload)) {
            Some(message) => if es256_signature(secret, message) is None {
                Error::Signature
            } else {
                Error::Cose("failed to serialize COSE_Sign1")
            },
            None => Error::Cose("failed to serialize COSE_Sign1"),
        },
        None => Error::Cose("failed to serialize COSE_Sign1"),
    }
}

/// The parts of a statement before signing: the protected header bytes for
/// algorithm `alg`, the payload's JCS bytes, and the bytes to sign.
fn unsigned_parts(payload: &Payload, issuer: &str, alg: i128) -> (r: Result<(Vec<u8>, Vec<u8>, Vec<u8>), Error>)
    requires
        alg == ALG_EDDSA || alg == ALG_ES256,
    ensures
        issuer@.len() == 0 ==> r == Err::<(Vec<u8>, Vec<u8>, Vec<u8>), Error>(Error::Header("CWT iss must not be empty")),
        issuer@.len() > 0 && content_type_for(payload.spec@) is None ==>
            r == Err::<(Vec<u8>, Vec<u8>, Vec<u8>), Error>(Error::Validation("unsupported spec version for production")),
        issuer@.len() > 0 && content_type_for(payload.spec@) is Some ==> match jcs(payload_json(*payload)) {
            None => r matches Err(e) && e is Jcs,
            Some(body) => match cbor_written(protected_map_for(alg as int, issuer@, vstd::utf8::encode_utf8(payload.site.id@))) {
                Some(protected) => match cbor_written(sig_structure(protected, body)) {
                    Some(message) => r matches Ok((p, b, m)) && p@ == protected && b@ == body && m@ == message,
                    None => r == Err::<(Vec<u8>, Vec<u8>, Vec<u8>), Error>(Error::Cose("failed to serialize COSE_Sign1")),
                },
                None => r == Err::<(Vec<u8>, Vec<u8>, Vec<u8>), Error>(Error::Cose("failed to serialize COSE_Sign1")),
            },
        },
{
    if issuer.is_empty() {
        return Err(Error::Header("CWT iss must not be empty"));
    }
    let claims = CwtClaims { issuer: issuer.to_owned(), subject: payload.site_id().as_bytes_vec() };
    let content_type = match content_type_for_spec(payload.spec()) {
        Some(ct) => ct,
        None => {
            return Err(Error::Validation("unsupported spec version for production"));
        }
    };
    let claims_value = claims.to_value();
    let body = payload.to_jcs()?;
    let protected = match protected_header_bytes(alg, content_type, &claims_value) {
        Some(p) => p,
        None => {
            return Err(Error::Cose("failed to serialize COSE_Sign1"));
        }
    };
    let message = match encode_sig_structure(protected.as_slice(), body.as_slice()) {
        Some(m) => m,
        None => {
            return Err(Error::Cose("failed to serialize COSE_Sign1"));
        }
    };
    Ok((protected, body, message))
}

/// coset's `HeaderBuilder` with the assigned algorithm `alg`, the content
/// type `ct` and `claims` at label 15, written as a protected header
/// (`ProtectedHeader::cbor_bstr`): coset writes the map
/// `{1: alg, 3: ct, 15: claims}`, in that order, with ciborium.
#[verifier::external_body]
fn protected_header_bytes(alg: i128, ct: &str, claims: &CborValue) -> (r: Option<Vec<u8>>)
    requires
        alg == ALG_EDDSA || alg == ALG_ES256,
    ensures
        match cbor_written(CborV::Entries(seq![
            (CborV::Integer(1), CborV::Integer(alg as int)),
            (CborV::Integer(3), CborV::Text(ct@)),
            (CborV::Integer(CWT_CLAIMS_LABEL as int), claims@),
        ])) {
            Some(bytes) => r matches Some(v) && v@ == bytes,
            None => r is None,
        },
{
    let algorithm = <coset::iana::Algorithm as coset::iana::EnumI64>::from_i64(alg as i64)?;
    let claims = crate::cbor::to_ciborium(claims)?;
    let header = coset::HeaderBuilder::new()
        .algorithm(algorithm)
        .content_type(ct.to_owned())
        .value(CWT_CLAIMS_LABEL as i64, claims)
        .build();
    let protected = coset::ProtectedHeader { original_data: None, header };
    match protected.cbor_bstr().ok()? {
        coset::cbor::Value::Bytes(bytes) => Some(bytes),
        _ => None,
    }
}

/// `CoseSign1::to_vec` on the untagged statement with the protected bytes
/// `protected` kept as its header data, an empty unprotected header, the
/// payload `body` and `signature`: coset writes the array
/// `[protected, {}, body, signature]` with ciborium, which the contract
/// states as `cbor_written` of that array.
#[verifier::external_body]
fn assemble(protected: Vec<u8>, body: Vec<u8>, signature: &[u8]) -> (r: Option<Vec<u8>>)
    ensures
        match cbor_written(CborV::Array(seq![
            CborV::Bytes(protected@),
            CborV::Entries(Seq::empty()),
            CborV::Bytes(body@),
            CborV::Bytes(signature@),
        ])) {
            Some(bytes) => r matches Some(v) && v@ == bytes,
            None => r is None,
        },
{
    let statement = coset::CoseSign1 {
        protected: coset::ProtectedHeader { original_data: Some(protected), header: coset::Header::default() },
        unprotected: coset::Header::default(),
        payload: Some(body),
        signature: signature.to_vec(),
    };
    coset::CborSerializable::to_vec(statement).ok()
}

/// Produces an attached-payload `COSE_Sign1` statement signed with Ed25519:
/// protected algorithm EdDSA, the profile content type and the CWT claims
/// (issuer, and the site identifier as subject), the JCS payload, and an
/// empty unprotected map.
pub fn produce_ed25519(payload: &Payload, issuer: &str, secret: &[u8; 32]) -> (r: Result<Vec<u8>, Error>)
    ensures
        issuer@.len() == 0 ==> r == Err::<Vec<u8>, Error>(Error::Header("CWT iss must not be empty")),
        issuer@.len() > 0 && content_type_for(payload.spec@) is None ==>
            r == Err::<Vec<u8>, Error>(Error::Validation("unsupported spec version for production")),
        issuer@.len() > 0 && content_type_for(payload.spec@) is Some ==> match jcs(payload_json(*payload)) {
            None => r matches Err(e) && e is Jcs,
            Some(body) => match produced(issuer@, payload.site.id@, body, secret@) {
                Some(bytes) => r matches Ok(v) && v@ == bytes,
                None => r == Err::<Vec<u8>, Error>(Error::Cose("failed to serialize COSE_Sign1")),
            },
        },
{
    let (protected, body, message) = unsigned_parts(payload, issuer, ALG_EDDSA)?;
    let signature = ed25519_sign(secret, message.as_slice());
    match assemble(protected, body, &signature) {
        Some(bytes) => Ok(bytes),
        None => Err(Error::Cose("failed to serialize COSE_Sign1")),
    }
}

/// Produces an attached-payload `COSE_Sign1` statement signed with ES256
/// under the big-endian P-256 secret scalar `secret`: protected algorithm
/// ES256, the profile content type and the CWT claims, the JCS payload, and
/// an empty unprotected map. A secret that is not a valid scalar is a
/// signing error.
pub fn produce_es256(payload: &Payload, issuer: &str, secret: &[u8; 32]) -> (r: Result<Vec<u8>, Error>)
    ensures
        issuer@.len() == 0 ==> r == Err::<Vec<u8>, Error>(Error::Header("CWT iss must not be empty")),
        issuer@.len() > 0 && content_type_for(payload.spec@) is None ==>
            r == Err::<Vec<u8>, Error>(Error::Validation("unsupported spec version for production")),
        issuer@.len() > 0 && content_type_for(payload.spec@) is Some ==> match jcs(payload_json(*payload)) {
            None => r matches Err(e) && e is Jcs,
            Some(body) => match produced_es256(issuer@, payload.site.id@, body, secret@) {
                Some(bytes) => r matches Ok(v) && v@ == bytes,
                None => r == Err::<Vec<u8>, Error>(es256_production_error(issuer@, payload.site.id@, body, secret@)),
            },
        },
{
    let (protected, body, message) = unsigned_parts(payload, issuer, ALG_ES256)?;
    let signature = match es256_sign(secret, message.as_slice()) {
        Some(s) => s,
        None => {
            return Err(Error::Signature);
        }
    };
    match assemble(protected, body, &signature) {
        Some(bytes) => Ok(bytes),
        None => Err(Error::Cose("failed to serialize COSE_Sign1")),
    }
}

} // verus!
