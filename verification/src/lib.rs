//! Verified producer, reader and verifier logic for Physical-Site Engagement
//! Receipts: digests, canonical JSON, CBOR preflight, COSE receipt inspection,
//! inclusion proofs and chain checks.

#![allow(unused_imports)]

pub mod error;
pub mod text;
pub mod digest;
pub mod crypto;
pub mod cbor;
pub mod receipt_inspection;
pub mod receipt_cbor;
pub mod receipt;
pub mod entry;
pub mod json;
pub mod receipt_verification;
pub mod transparent_statement;
pub mod payload;
pub mod chain;
pub mod cwt;
pub mod envelope;
pub mod attach;
pub mod receipt_build;
pub mod site;
pub mod fixtures;
pub mod scrapi;
pub mod testvectors;
pub mod canonical_example;
