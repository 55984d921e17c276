//! Candidate-entry bytes for inclusion-proof verification: the untagged
//! four-element CBOR array `[P, {}, M, S]` of a presented Transparent
//! Statement, with the unprotected header replaced by an empty map.
use vstd::prelude::*;
use crate::cbor::{CborValue, CborV, cbor_decode, cbor_read, cbor_write, cbor_written, view_items, view_entries, lemma_view_items};
use crate::error::Error;
use crate::receipt::{leaf_hash, leaf_hash_spec};

verus! {

/// The candidate entry `[P, {}, M, S]` for the protected header, payload and
/// signature contents.
pub open spec fn candidate_item(protected: Seq<u8>, payload: Seq<u8>, signature: Seq<u8>) -> CborV {
    CborV::Array(seq![
        CborV::Bytes(protected),
        CborV::Entries(Seq::empty()),
        CborV::Bytes(payload),
        CborV::Bytes(signature),
    ])
}

/// The candidate entry of the four `COSE_Sign1` elements, or the reason
/// there is none.
pub open spec fn candidate_from_items(items: Seq<CborV>) -> Result<Seq<u8>, &'static str> {
    if items.len() != 4 {
        Err("COSE_Sign1 must have exactly 4 elements")
    } else {
        match items[0] {
            CborV::Bytes(protected) => match items[1] {
                CborV::Entries(_) => match items[2] {
                    CborV::Bytes(payload) => match items[3] {
                        CborV::Bytes(signature) => match cbor_written(candidate_item(protected, payload, signature)) {
                            Some(bytes) => Ok(bytes),
                            None => Err("failed to serialize candidate entry"),
                        },
                        _ => Err("signature must be a byte string"),
                    },
                    CborV::Null => Err("detached payload (null) is not permitted; payload must be present as a byte string"),
                    _ => Err("payload must be a byte string"),
                },
                _ => Err("unprotected header must be a map"),
            },
            _ => Err("protected header must be a byte string"),
        }
    }
}

/// The candidate entry of a presented Transparent Statement: an untagged
/// or tag-18 `COSE_Sign1` with an attached payload.
pub open spec fn candidate_from_statement(statement: Seq<u8>) -> Result<Seq<u8>, &'static str> {
    match cbor_read(statement) {
        None => Err("failed to parse Transparent Statement CBOR"),
        Some((value, rest)) => if rest != 0 {
            Err("trailing bytes after Transparent Statement")
        } else {
            match value {
                CborV::Tag(tag, inner) => if tag != 18 {
                    Err("unsupported tag wrapper; only tag 18 is accepted")
                } else {
                    match *inner {
                        CborV::Array(items) => candidate_from_items(items),
                        _ => Err("Transparent Statement must be a COSE_Sign1 array"),
                    }
                },
                CborV::Array(items) => candidate_from_items(items),
                _ => Err("Transparent Statement must be a COSE_Sign1 array or tag-18 wrapper"),
            }
        },
    }
}

fn candidate_from_vec(items: &Vec<CborValue>) -> (r: Result<Vec<u8>, Error>)
    ensures
        match candidate_from_items(view_items(items@)) {
            Ok(bytes) => r matches Ok(v) && v@ == bytes,
            Err(code) => r == Err::<Vec<u8>, Error>(Error::Cose(code)),
        },
{
    proof { lemma_view_items(items@); }
    if items.len() != 4 {
        return Err(Error::Cose("COSE_Sign1 must have exactly 4 elements"));
    }
    let protected = match &items[0] {
        CborValue::Bytes(b) => b,
        _ => return Err(Error::Cose("protected header must be a byte string")),
    };
    match &items[1] {
        CborValue::Entries(_) => {}
        _ => return Err(Error::Cose("unprotected header must be a map")),
    }
    let payload = match &items[2] {
        CborValue::Bytes(b) => b,
        CborValue::Null => return Err(Error::Cose("detached payload (null) is not permitted; payload must be present as a byte string")),
        _ => return Err(Error::Cose("payload must be a byte string")),
    };
    let signature = match &items[3] {
        CborValue::Bytes(b) => b,
        _ => return Err(Error::Cose("signature must be a byte string")),
    };
    let empty: Vec<(CborValue, CborValue)> = Vec::new();
    let parts = vec![
        CborValue::Bytes(protected.clone()),
        CborValue::Entries(empty),
        CborValue::Bytes(payload.clone()),
        CborValue::Bytes(signature.clone()),
    ];
    proof {
        lemma_view_items(parts@);
        assert(view_entries(Seq::<(CborValue, CborValue)>::empty()) =~= Seq::<(CborV, CborV)>::empty());
        assert(view_items(parts@) =~= seq![
            CborV::Bytes(protected@),
            CborV::Entries(Seq::empty()),
            CborV::Bytes(payload@),
            CborV::Bytes(signature@),
        ]);
    }
    let candidate = CborValue::Array(parts);
    match cbor_write(&candidate) {
        Some(bytes) => Ok(bytes),
        None => Err(Error::Cose("failed to serialize candidate entry")),
    }
}

/// Derives the candidate entry `[P, {}, M, S]` from a presented Transparent
/// Statement (untagged or tag-18 `COSE_Sign1`, attached payload). P, M and S
/// are preserved by content; the unprotected header becomes an empty map.
pub fn derive_candidate_entry(transparent_statement: &[u8]) -> (r: Result<Vec<u8>, Error>)
    ensures
        match candidate_from_statement(transparent_statement@) {
            Ok(bytes) => r matches Ok(v) && v@ == bytes,
            Err(code) => r == Err::<Vec<u8>, Error>(Error::Cose(code)),
        },
{
    let value = match cbor_decode(transparent_statement) {
        Ok(v) => v,
        Err(unreadable) => {
            if unreadable {
                return Err(Error::Cose("failed to parse Transparent Statement CBOR"));
            }
            return Err(Error::Cose("trailing bytes after Transparent Statement"));
        }
    };
    match &value {
        CborValue::Tag(tag, inner) => {
            if *tag != 18 {
                return Err(Error::Cose("unsupported tag wrapper; only tag 18 is accepted"));
            }
            let inner: &CborValue = &**inner;
            assert(value@ == CborV::Tag(*tag, Box::new(inner@)));
            match inner {
                CborValue::Array(items) => candidate_from_vec(items),
                _ => Err(Error::Cose("Transparent Statement must be a COSE_Sign1 array")),
            }
        }
        CborValue::Array(items) => candidate_from_vec(items),
        _ => Err(Error::Cose("Transparent Statement must be a COSE_Sign1 array or tag-18 wrapper")),
    }
}

/// The RFC 9162 leaf hash of a candidate entry: `SHA-256(0x00 || entry)`.
pub fn candidate_leaf_hash(candidate_entry: &[u8]) -> (h: [u8; 32])
    ensures
        h@ == leaf_hash_spec(candidate_entry@),
{
    leaf_hash(candidate_entry)
}

} // verus!
