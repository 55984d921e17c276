use vstd::prelude::*;

verus! {

/// Errors returned while parsing, producing, or verifying a statement.
#[derive(Debug, Clone, PartialEq, Eq)]
pub enum Error {
    /// JSON parsing or data-model conversion failed.
    Json(String),
    /// JCS serialization failed.
    Jcs(String),
    /// The COSE envelope is malformed.
    Cose(&'static str),
    /// A signature could not be created or verified.
    Signature,
    /// A protected-header requirement was not met.
    Header(&'static str),
    /// A payload profile requirement was not met.
    Validation(&'static str),
    /// The embedded payload bytes are not their JCS serialization.
    NonCanonicalPayload,
    /// An attached SCITT Receipt or its inclusion proof is unusable.
    Receipt(&'static str),
}

/// The text of an error's message.
pub open spec fn error_text(e: Error) -> Seq<char> {
    match e {
        Error::Json(m) => "JSON error: "@ + m@,
        Error::Jcs(m) => "JCS error: "@ + m@,
        Error::Cose(m) => "COSE error: "@ + m@,
        Error::Signature => "signature error"@,
        Error::Header(m) => "protected-header error: "@ + m@,
        Error::Validation(m) => "payload validation error: "@ + m@,
        Error::NonCanonicalPayload => "payload is not JCS canonical"@,
        Error::Receipt(m) => "attached receipt error: "@ + m@,
    }
}

impl Error {
    /// The human-readable message of this error.
    pub fn message(&self) -> (r: String)
        ensures
            r@ == error_text(*self),
    {
        match self {
            Error::Json(message) => crate::text::concat("JSON error: ", message.as_str()),
            Error::Jcs(message) => crate::text::concat("JCS error: ", message.as_str()),
            Error::Cose(message) => crate::text::concat("COSE error: ", message),
            Error::Signature => "signature error".to_owned(),
            Error::Header(message) => crate::text::concat("protected-header error: ", message),
            Error::Validation(message) => crate::text::concat("payload validation error: ", message),
            Error::NonCanonicalPayload => "payload is not JCS canonical".to_owned(),
            Error::Receipt(message) => crate::text::concat("attached receipt error: ", message),
        }
    }
}

} // verus!
