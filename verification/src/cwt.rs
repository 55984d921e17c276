//! The CWT claims carried in the protected header: issuer (label 1) as text
//! and subject (label 2) as bytes.
use vstd::prelude::*;
use crate::error::Error;
use crate::cbor::{CborValue, CborV, view_entries, lemma_view_entries};

verus! {

/// COSE header label of the CWT claims map.
pub const CWT_CLAIMS_LABEL: i128 = 15;

/// The issuer and subject claims.
#[derive(Debug)]
pub struct CwtClaims {
    pub issuer: String,
    pub subject: Vec<u8>,
}

/// The CBOR map a claims record is written as.
pub open spec fn claims_value(issuer: Seq<char>, subject: Seq<u8>) -> CborV {
    CborV::Entries(seq![(CborV::Integer(1), CborV::Text(issuer)), (CborV::Integer(2), CborV::Bytes(subject))])
}

/// Reads the claims of a map from entry `i` on: a later issuer or subject
/// replaces an earlier one, and the first ill-typed one is an error.
pub open spec fn claims_scan(es: Seq<(CborV, CborV)>, i: int, issuer: Option<Seq<char>>, subject: Option<Seq<u8>>) -> Result<(Option<Seq<char>>, Option<Seq<u8>>), &'static str>
    decreases es.len() - i,
{
    if i < 0 || i >= es.len() {
        Ok((issuer, subject))
    } else if es[i].0 == CborV::Integer(1) {
        match es[i].1 {
            CborV::Text(t) => claims_scan(es, i + 1, Some(t), subject),
            _ => Err("CWT iss must be text"),
        }
    } else if es[i].0 == CborV::Integer(2) {
        match es[i].1 {
            CborV::Bytes(b) => claims_scan(es, i + 1, issuer, Some(b)),
            _ => Err("CWT sub must be bytes"),
        }
    } else {
        claims_scan(es, i + 1, issuer, subject)
    }
}

/// The issuer and subject a claims value carries, or the header rule it
/// breaks.
pub open spec fn cwt_claims(v: CborV) -> Result<(Seq<char>, Seq<u8>), &'static str> {
    match v {
        CborV::Entries(es) => match claims_scan(es, 0, None, None) {
            Err(m) => Err(m),
            Ok((None, _)) => Err("CWT iss is missing"),
            Ok((Some(_), None)) => Err("CWT sub is missing"),
            Ok((Some(iss), Some(sub))) => Ok((iss, sub)),
        },
        _ => Err("CWT_Claims must be a CBOR map"),
    }
}

impl CwtClaims {
    /// The CBOR map of these claims.
    pub fn to_value(&self) -> (r: CborValue)
        ensures
            r@ == claims_value(self.issuer@, self.subject@),
    {
        let entries = vec![
            (CborValue::Integer(1), CborValue::Text(self.issuer.clone())),
            (CborValue::Integer(2), CborValue::Bytes(crate::receipt::copy_bytes(self.subject.as_slice()))),
        ];
        proof {
            lemma_view_entries(entries@);
            assert(view_entries(entries@) =~= claims_value(self.issuer@, self.subject@)->Entries_0);
        }
        CborValue::Entries(entries)
    }

    /// Reads the claims of a CBOR map.
    pub fn from_value(value: &CborValue) -> (r: Result<CwtClaims, Error>)
        ensures
            match cwt_claims(value@) {
                Ok((iss, sub)) => r matches Ok(c) && c.issuer@ == iss && c.subject@ == sub,
                Err(m) => r == Err::<CwtClaims, Error>(Error::Header(m)),
            },
    {
        let entries = match value {
            CborValue::Entries(entries) => entries,
            _ => {
                return Err(Error::Header("CWT_Claims must be a CBOR map"));
            }
        };
        proof {
            lemma_view_entries(entries@);
        }
        let ghost es = view_entries(entries@);
        let mut issuer: Option<String> = None;
        let mut subject: Option<Vec<u8>> = None;
        let mut i: usize = 0;
        while i < entries.len()
            invariant
                i <= entries@.len(),
                es == view_entries(entries@),
                value@ == CborV::Entries(es),
                es.len() == entries@.len(),
                forall|m: int| 0 <= m < entries@.len() ==> #[trigger] es[m] == (entries@[m].0@, entries@[m].1@),
                claims_scan(es, 0, None, None) == claims_scan(es, i as int,
                    match issuer { Some(t) => Some(t@), None => None },
                    match subject { Some(b) => Some(b@), None => None }),
            decreases entries@.len() - i,
        {
            let (label, claim) = &entries[i];
            let is_issuer = match label {
                CborValue::Integer(n) => *n == 1,
                _ => false,
            };
            let is_subject = match label {
                CborValue::Integer(n) => *n == 2,
                _ => false,
            };
            if is_issuer {
                match claim {
                    CborValue::Text(t) => {
                        issuer = Some(t.clone());
                    }
                    _ => {
                        return Err(Error::Header("CWT iss must be text"));
                    }
                }
            } else if is_subject {
                match claim {
                    CborValue::Bytes(b) => {
                        subject = Some(crate::receipt::copy_bytes(b.as_slice()));
                    }
                    _ => {
                        return Err(Error::Header("CWT sub must be bytes"));
                    }
                }
            }
            i = i + 1;
        }
        match (issuer, subject) {
            (None, _) => Err(Error::Header("CWT iss is missing")),
            (Some(_), None) => Err(Error::Header("CWT sub is missing")),
            (Some(issuer), Some(subject)) => Ok(CwtClaims { issuer, subject }),
        }
    }
}

} // verus!
