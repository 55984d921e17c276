//! The canonical example instance: the minimal test vector read as a
//! payload, serialized to JCS and indented.
use vstd::prelude::*;
use vstd::string::StringSliceAdditionalSpecFns;
use crate::error::Error;
use crate::json::{JsonV, jcs, json_parse, json_pretty, parse_json, pretty_json};
use crate::payload::{Payload, payload_is, payload_json, readable, read_error, validation, validation_matches};
use crate::testvectors::MINIMAL_VALID_JCS;

verus! {

/// The indented text of a payload: its JCS bytes, read back as JSON and
/// written with two-space indentation in JCS key order.
pub open spec fn pretty_payload(p: Payload) -> Option<Seq<char>> {
    match jcs(payload_json(p)) {
        Some(b) => match json_parse(b) {
            Some(v) => json_pretty(v),
            None => None,
        },
        None => None,
    }
}

/// Reads `bytes` as a payload, checks every profile rule, and writes its
/// JCS form indented.
pub fn pretty_canonical_json(bytes: &[u8]) -> (r: Result<String, Error>)
    ensures
        r matches Ok(text) ==> exists|p: Payload|
            readable(bytes@) is Some && #[trigger] payload_is(p, readable(bytes@)->Some_0)
            && validation(p) is Ok && pretty_payload(p) == Some(text@),
        r matches Err(e) ==> read_error(bytes@, e) || exists|q: Payload|
            readable(bytes@) is Some && #[trigger] payload_is(q, readable(bytes@)->Some_0) && (
                validation_matches(Err(e), q) || (validation(q) is Ok && pretty_payload(q) is None)),
{
    let payload = Payload::from_json(bytes)?;
    let canonical = payload.to_jcs()?;
    let value = match parse_json(canonical.as_slice()) {
        Ok(v) => v,
        Err(message) => {
            return Err(Error::Json(message));
        },
    };
    match pretty_json(&value) {
        Ok(text) => Ok(text),
        Err(message) => Err(Error::Json(message)),
    }
}

/// Emits the canonical example instance, pretty-printed: the minimal test
/// vector parsed and validated as a payload, re-serialized to JCS, and
/// indented by two spaces in JCS key order.
pub fn canonical_example() -> (r: Result<String, Error>)
    ensures
        r matches Ok(text) ==> exists|p: Payload|
            readable(MINIMAL_VALID_JCS.spec_bytes()) is Some
            && #[trigger] payload_is(p, readable(MINIMAL_VALID_JCS.spec_bytes())->Some_0)
            && validation(p) is Ok && pretty_payload(p) == Some(text@),
        r matches Err(e) ==> read_error(MINIMAL_VALID_JCS.spec_bytes(), e) || exists|q: Payload|
            readable(MINIMAL_VALID_JCS.spec_bytes()) is Some
            && #[trigger] payload_is(q, readable(MINIMAL_VALID_JCS.spec_bytes())->Some_0) && (
                validation_matches(Err(e), q) || (validation(q) is Ok && pretty_payload(q) is None)),
{
    pretty_canonical_json(MINIMAL_VALID_JCS.as_bytes())
}

} // verus!
