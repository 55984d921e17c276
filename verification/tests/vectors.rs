use pask::canonical_example::{canonical_example, pretty_canonical_json};
use pask::error::Error;
use pask::json::canonicalize_json;
use pask::payload::Payload;
use pask::testvectors::{
    JCS_LITERALS_EXPECTED, JCS_LITERALS_INPUT, JCS_NUMBERS_EXPECTED, JCS_NUMBERS_INPUT, JCS_ORDER_EXPECTED,
    JCS_ORDER_INPUT, MINIMAL_VALID_JCS, MINIMAL_VALID_PAYLOAD, WRONG_SPEC,
};

fn with_affiliation(text: &str) -> String {
    text.replacen(
        "\"id\": \"uuid:00000000-0000-4000-8000-000000000001\",",
        "\"id\": \"uuid:00000000-0000-4000-8000-000000000001\",\n  \"issuerAffiliation\": \"NOT_DISCLOSED\",",
        1,
    )
}

#[test]
fn library_jcs_vectors_match() {
    assert_eq!(canonicalize_json(JCS_NUMBERS_INPUT.as_bytes()).unwrap(), JCS_NUMBERS_EXPECTED.as_bytes());
    assert_eq!(canonicalize_json(JCS_ORDER_INPUT.as_bytes()).unwrap(), JCS_ORDER_EXPECTED.as_bytes());
    assert_eq!(canonicalize_json(JCS_LITERALS_INPUT.as_bytes()).unwrap(), JCS_LITERALS_EXPECTED.as_bytes());
}

#[test]
fn minimal_vector_without_affiliation_is_refused() {
    // The 0.4 payload requires `issuerAffiliation`, which the minimal vector
    // does not carry.
    assert!(matches!(Payload::from_json(MINIMAL_VALID_JCS.as_bytes()), Err(Error::Json(_))));
    assert!(matches!(canonical_example(), Err(Error::Json(_))));
    assert!(matches!(Payload::from_json_for_production(MINIMAL_VALID_PAYLOAD.as_bytes()), Err(Error::Json(_))));
}

#[test]
fn wrong_spec_vector_is_refused() {
    let text = with_affiliation(MINIMAL_VALID_PAYLOAD).replacen("wilder.pser/0.4", WRONG_SPEC, 1);
    assert_eq!(
        Payload::from_json_for_production(text.as_bytes()).err(),
        Some(Error::Validation("unsupported spec version"))
    );
}

#[test]
fn pretty_canonical_json_indents_in_key_order() {
    let payload = Payload::from_json_for_production(with_affiliation(MINIMAL_VALID_PAYLOAD).as_bytes()).unwrap();
    let jcs = payload.to_jcs().unwrap();
    let text = pretty_canonical_json(&jcs).unwrap();
    assert!(text.starts_with("{\n  \"actor\": {\n    \"class\": \"AUTONOMOUS\",\n"));
    assert!(text.contains("\n  \"issuerAffiliation\": \"NOT_DISCLOSED\",\n"));
    assert!(text.contains("\"sizeBytes\": 4096"));
    assert_ne!(text.as_bytes(), jcs.as_slice());
    assert_eq!(canonicalize_json(text.as_bytes()).unwrap(), jcs);
}

#[test]
fn pretty_canonical_json_checks_the_payload() {
    assert!(matches!(pretty_canonical_json(b"{"), Err(Error::Json(_))));
    let payload = Payload::from_json_for_production(with_affiliation(MINIMAL_VALID_PAYLOAD).as_bytes()).unwrap();
    let jcs = String::from_utf8(payload.to_jcs().unwrap()).unwrap();
    let tampered = jcs.replacen("\"seq\":0", "\"seq\":1", 1);
    assert!(pretty_canonical_json(tampered.as_bytes()).is_err());
}
