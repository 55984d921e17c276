//! The strongly typed `wilder.pser/0.4` payload: its JSON shape, every
//! profile rule, its chain digest and its JCS serialization.
use vstd::prelude::*;
use crate::error::Error;
use crate::json::{JsonNumber, JsonValue, JsonV, json_get, json_parse, jcs, get_member, parse_json, canonicalize_value, json_members, lemma_json_members};
use crate::digest::{sha256_prefixed, validate_sha256, is_sha256_text, has_sha256_prefix, sha256_prefix, hex_text, sha256_spec};
use crate::text::str_eq;

verus! {

/// Supported PSER profile version.
pub const SPEC_VERSION: &'static str = "wilder.pser/0.4";

/// The instant an RFC 3339 timestamp names, in nanoseconds since the Unix
/// epoch, when the `time` crate's RFC 3339 parser accepts the text.
pub uninterp spec fn rfc3339_instant(text: Seq<char>) -> Option<int>;

/// `OffsetDateTime::parse` with the RFC 3339 format, then
/// `unix_timestamp_nanos`: the instant the text names, when it parses.
/// Offsets compare by instant, so the order of the results is the order of
/// the parsed `OffsetDateTime` values.
#[verifier::external_body]
fn parse_rfc3339(text: &str) -> (r: Option<i128>)
    ensures
        r is None <==> rfc3339_instant(text@) is None,
        r matches Some(n) ==> rfc3339_instant(text@) == Some(n as int),
{
    time::OffsetDateTime::parse(text, &time::format_description::well_known::Rfc3339).ok().map(|t| t.unix_timestamp_nanos())
}

/// How the acknowledgement recorded in `adapter.ackDigest` was obtained.
/// The set is closed for producers and tolerant for readers: a value outside
/// it is kept, exactly as it appeared, as `Unrecognized`.
#[derive(Debug, Clone, PartialEq, Eq)]
pub enum AckProvenance {
    /// Wire value `THIRD_PARTY`.
    ThirdParty,
    /// Wire value `ISSUER_ASSERTED`.
    IssuerAsserted,
    /// Wire value `NONE`.
    NoAcknowledgement,
    /// A value outside the closed set, preserved exactly.
    Unrecognized(String),
}

/// The wire text of an acknowledgement provenance.
pub open spec fn ack_wire(a: AckProvenance) -> Seq<char> {
    match a {
        AckProvenance::ThirdParty => "THIRD_PARTY"@,
        AckProvenance::IssuerAsserted => "ISSUER_ASSERTED"@,
        AckProvenance::NoAcknowledgement => "NONE"@,
        AckProvenance::Unrecognized(raw) => raw@,
    }
}

/// Whether a wire text is one of the three named provenance values.
pub open spec fn ack_named(s: Seq<char>) -> bool {
    s == "THIRD_PARTY"@ || s == "ISSUER_ASSERTED"@ || s == "NONE"@
}

/// Whether `a` is what the wire text `s` reads as.
pub open spec fn ack_is(a: AckProvenance, s: Seq<char>) -> bool {
    ack_wire(a) == s && (a is Unrecognized <==> !ack_named(s))
}

impl AckProvenance {
    /// Returns the wire string for this value.
    pub fn as_wire_str(&self) -> (r: &str)
        ensures
            r@ == ack_wire(*self),
    {
        match self {
            AckProvenance::ThirdParty => "THIRD_PARTY",
            AckProvenance::IssuerAsserted => "ISSUER_ASSERTED",
            AckProvenance::NoAcknowledgement => "NONE",
            AckProvenance::Unrecognized(raw) => raw.as_str(),
        }
    }

    /// Returns `true` when the value is outside the closed set the profile
    /// names.
    pub fn is_unrecognized(&self) -> (r: bool)
        ensures
            r == self is Unrecognized,
    {
        match self {
            AckProvenance::Unrecognized(_) => true,
            _ => false,
        }
    }

    /// Reads a wire string: one of the three named values, or the string
    /// kept as `Unrecognized`.
    pub fn from_wire(raw: &str) -> (a: Self)
        ensures
            ack_is(a, raw@),
    {
        if str_eq(raw, "THIRD_PARTY") {
            AckProvenance::ThirdParty
        } else if str_eq(raw, "ISSUER_ASSERTED") {
            AckProvenance::IssuerAsserted
        } else if str_eq(raw, "NONE") {
            AckProvenance::NoAcknowledgement
        } else {
            AckProvenance::Unrecognized(raw.to_owned())
        }
    }

    /// A copy of this value.
    pub fn duplicate(&self) -> (a: Self)
        ensures
            ack_wire(a) == ack_wire(*self),
            a is Unrecognized <==> self is Unrecognized,
    {
        match self {
            AckProvenance::ThirdParty => AckProvenance::ThirdParty,
            AckProvenance::IssuerAsserted => AckProvenance::IssuerAsserted,
            AckProvenance::NoAcknowledgement => AckProvenance::NoAcknowledgement,
            AckProvenance::Unrecognized(raw) => AckProvenance::Unrecognized(raw.clone()),
        }
    }
}

/// Whether the Site Owner and the Issuer are affiliated parties, as the
/// Issuer states it. A value outside the closed set is kept as
/// `Unrecognized`.
#[derive(Debug, Clone, PartialEq, Eq)]
pub enum IssuerAffiliation {
    /// Wire value `AFFILIATED`.
    Affiliated,
    /// Wire value `INDEPENDENT`.
    Independent,
    /// Wire value `NOT_DISCLOSED`.
    NotDisclosed,
    /// A value outside the closed set, preserved exactly.
    Unrecognized(String),
}

/// The wire text of an affiliation.
pub open spec fn affiliation_wire(a: IssuerAffiliation) -> Seq<char> {
    match a {
        IssuerAffiliation::Affiliated => "AFFILIATED"@,
        IssuerAffiliation::Independent => "INDEPENDENT"@,
        IssuerAffiliation::NotDisclosed => "NOT_DISCLOSED"@,
        IssuerAffiliation::Unrecognized(raw) => raw@,
    }
}

/// Whether a wire text is one of the three named affiliation values.
pub open spec fn affiliation_named(s: Seq<char>) -> bool {
    s == "AFFILIATED"@ || s == "INDEPENDENT"@ || s == "NOT_DISCLOSED"@
}

/// Whether `a` is what the wire text `s` reads as.
pub open spec fn affiliation_is(a: IssuerAffiliation, s: Seq<char>) -> bool {
    affiliation_wire(a) == s && (a is Unrecognized <==> !affiliation_named(s))
}

impl IssuerAffiliation {
    /// Returns the wire string for this value.
    pub fn as_wire_str(&self) -> (r: &str)
        ensures
            r@ == affiliation_wire(*self),
    {
        match self {
            IssuerAffiliation::Affiliated => "AFFILIATED",
            IssuerAffiliation::Independent => "INDEPENDENT",
            IssuerAffiliation::NotDisclosed => "NOT_DISCLOSED",
            IssuerAffiliation::Unrecognized(raw) => raw.as_str(),
        }
    }

    /// Returns `true` when the value is outside the closed set the profile
    /// names.
    pub fn is_unrecognized(&self) -> (r: bool)
        ensures
            r == self is Unrecognized,
    {
        match self {
            IssuerAffiliation::Unrecognized(_) => true,
            _ => false,
        }
    }

    /// Returns `true` when the receipt carries no disclosure of the
    /// relationship; distinct from `is_unrecognized`.
    pub fn is_not_disclosed(&self) -> (r: bool)
        ensures
            r == self is NotDisclosed,
    {
        match self {
            IssuerAffiliation::NotDisclosed => true,
            _ => false,
        }
    }

    /// Reads a wire string: one of the three named values, or the string
    /// kept as `Unrecognized`.
    pub fn from_wire(raw: &str) -> (a: Self)
        ensures
            affiliation_is(a, raw@),
    {
        if str_eq(raw, "AFFILIATED") {
            IssuerAffiliation::Affiliated
        } else if str_eq(raw, "INDEPENDENT") {
            IssuerAffiliation::Independent
        } else if str_eq(raw, "NOT_DISCLOSED") {
            IssuerAffiliation::NotDisclosed
        } else {
            IssuerAffiliation::Unrecognized(raw.to_owned())
        }
    }

    /// A copy of this value.
    pub fn duplicate(&self) -> (a: Self)
        ensures
            affiliation_wire(a) == affiliation_wire(*self),
            a is Unrecognized <==> self is Unrecognized,
            a is NotDisclosed <==> self is NotDisclosed,
            a is Affiliated <==> self is Affiliated,
            a is Independent <==> self is Independent,
    {
        match self {
            IssuerAffiliation::Affiliated => IssuerAffiliation::Affiliated,
            IssuerAffiliation::Independent => IssuerAffiliation::Independent,
            IssuerAffiliation::NotDisclosed => IssuerAffiliation::NotDisclosed,
            IssuerAffiliation::Unrecognized(raw) => IssuerAffiliation::Unrecognized(raw.clone()),
        }
    }

    /// Whether two values are equal: the same named value, or two
    /// unrecognized values with the same text.
    pub fn same_as(&self, other: &IssuerAffiliation) -> (r: bool)
        ensures
            r == affiliation_eq(*self, *other),
            r <==> (affiliation_wire(*self) == affiliation_wire(*other)
                && (*self is Unrecognized <==> *other is Unrecognized)),
    {
        proof {
            lemma_affiliation_eq_is_wire_eq(*self, *other);
        }
        match (self, other) {
            (IssuerAffiliation::Affiliated, IssuerAffiliation::Affiliated) => true,
            (IssuerAffiliation::Independent, IssuerAffiliation::Independent) => true,
            (IssuerAffiliation::NotDisclosed, IssuerAffiliation::NotDisclosed) => true,
            (IssuerAffiliation::Unrecognized(a), IssuerAffiliation::Unrecognized(b)) => str_eq(a.as_str(), b.as_str()),
            _ => false,
        }
    }
}

/// Two affiliations are the same exactly when they carry the same wire
/// text and are both named or both unrecognized: distinct named values
/// such as `AFFILIATED` and `INDEPENDENT` are never the same.
pub proof fn lemma_affiliation_eq_is_wire_eq(a: IssuerAffiliation, b: IssuerAffiliation)
    ensures
        affiliation_eq(a, b) <==> (affiliation_wire(a) == affiliation_wire(b) && (a is Unrecognized <==> b is Unrecognized)),
{
    reveal_strlit("AFFILIATED");
    reveal_strlit("INDEPENDENT");
    reveal_strlit("NOT_DISCLOSED");
    if affiliation_wire(a) == affiliation_wire(b) {
        assert(affiliation_wire(a).len() == affiliation_wire(b).len());
        if !(a is Unrecognized) && !(b is Unrecognized) {
            assert(affiliation_wire(a)[0] == affiliation_wire(b)[0]);
        }
    }
}

/// Affiliation equality is reflexive.
pub proof fn lemma_affiliation_eq_reflexive(a: IssuerAffiliation)
    ensures
        affiliation_eq(a, a),
{
}

/// Affiliation equality is symmetric.
pub proof fn lemma_affiliation_eq_symmetric(a: IssuerAffiliation, b: IssuerAffiliation)
    ensures
        affiliation_eq(a, b) == affiliation_eq(b, a),
{
}

/// Affiliation equality is transitive.
pub proof fn lemma_affiliation_eq_transitive(a: IssuerAffiliation, b: IssuerAffiliation, c: IssuerAffiliation)
    ensures
        affiliation_eq(a, b) && affiliation_eq(b, c) ==> affiliation_eq(a, c),
{
}

/// Reading back the wire text of a provenance gives the same value: the
/// same named value, or an unrecognized value with the same text, unless
/// an unrecognized value carries the text of a named one.
pub proof fn lemma_ack_wire_round_trip(a: AckProvenance, b: AckProvenance)
    requires
        !(a is Unrecognized && ack_named(ack_wire(a))),
        ack_is(b, ack_wire(a)),
    ensures
        ack_wire(b) == ack_wire(a),
        a is Unrecognized ==> b is Unrecognized,
        !(a is Unrecognized) ==> b == a,
{
    reveal_strlit("THIRD_PARTY");
    reveal_strlit("ISSUER_ASSERTED");
    reveal_strlit("NONE");
    assert("THIRD_PARTY"@.len() == 11 && "ISSUER_ASSERTED"@.len() == 15 && "NONE"@.len() == 4);
    if a is ThirdParty || a is IssuerAsserted || a is NoAcknowledgement {
        assert(ack_named(ack_wire(a)));
        assert(!(b is Unrecognized));
        assert(ack_wire(b).len() == ack_wire(a).len());
    }
}

/// Reading back the wire text of an affiliation gives the same value: the
/// same named value, or an unrecognized value with the same text, unless
/// an unrecognized value carries the text of a named one.
pub proof fn lemma_affiliation_wire_round_trip(a: IssuerAffiliation, b: IssuerAffiliation)
    requires
        !(a is Unrecognized && affiliation_named(affiliation_wire(a))),
        affiliation_is(b, affiliation_wire(a)),
    ensures
        affiliation_eq(a, b),
        !(a is Unrecognized) ==> b == a,
{
    reveal_strlit("AFFILIATED");
    reveal_strlit("INDEPENDENT");
    reveal_strlit("NOT_DISCLOSED");
    assert("AFFILIATED"@.len() == 10 && "INDEPENDENT"@.len() == 11 && "NOT_DISCLOSED"@.len() == 13);
    if a is Affiliated || a is Independent || a is NotDisclosed {
        assert(affiliation_named(affiliation_wire(a)));
        assert(!(b is Unrecognized));
        assert(affiliation_wire(b).len() == affiliation_wire(a).len());
    }
}

/// Equality of affiliations: the same named value, or two unrecognized
/// values with the same text.
pub open spec fn affiliation_eq(a: IssuerAffiliation, b: IssuerAffiliation) -> bool {
    match (a, b) {
        (IssuerAffiliation::Unrecognized(x), IssuerAffiliation::Unrecognized(y)) => x@ == y@,
        (IssuerAffiliation::Affiliated, IssuerAffiliation::Affiliated) => true,
        (IssuerAffiliation::Independent, IssuerAffiliation::Independent) => true,
        (IssuerAffiliation::NotDisclosed, IssuerAffiliation::NotDisclosed) => true,
        _ => false,
    }
}

/// The value of a member of an object, or `Null` when it is absent.
pub open spec fn member(v: JsonV, key: Seq<char>) -> JsonV {
    match json_get(v, key) {
        Some(m) => m,
        None => JsonV::Null,
    }
}

/// Whether a member name is one of `allowed`.
pub open spec fn key_allowed(key: Seq<char>, allowed: Seq<&'static str>) -> bool {
    exists|j: int| 0 <= j < allowed.len() && (#[trigger] allowed[j])@ == key
}

/// Whether a value is an object whose every member name is in `allowed`.
pub open spec fn keys_within(v: JsonV, allowed: Seq<&'static str>) -> bool {
    v matches JsonV::Object(ms) && forall|i: int| 0 <= i < ms.len() ==> key_allowed((#[trigger] ms[i]).0, allowed)
}

/// A required text member.
pub open spec fn text_member(v: JsonV, key: Seq<char>) -> Option<Seq<char>> {
    match json_get(v, key) {
        Some(JsonV::Str(s)) => Some(s),
        _ => None,
    }
}

/// A required member that is text or `null`.
pub open spec fn nullable_member(v: JsonV, key: Seq<char>) -> Option<Option<Seq<char>>> {
    match json_get(v, key) {
        Some(JsonV::Str(s)) => Some(Some(s)),
        Some(JsonV::Null) => Some(None),
        _ => None,
    }
}

/// A required unsigned 64-bit integer member.
pub open spec fn u64_member(v: JsonV, key: Seq<char>) -> Option<u64> {
    match json_get(v, key) {
        Some(JsonV::Int(i)) => if 0 <= i <= u64::MAX { Some(i as u64) } else { None },
        _ => None,
    }
}

/// The model of an optional owned string.
pub open spec fn opt_view(s: Option<String>) -> Option<Seq<char>> {
    match s {
        Some(t) => Some(t@),
        None => None,
    }
}

/// The message of a missing or invalid member: the member name in
/// backquotes after a fixed lead.
pub open spec fn field_error_text(key: Seq<char>) -> Seq<char> {
    "missing or invalid field `"@ + key + seq!['`']
}

fn field_error(key: &str) -> (e: Error)
    ensures
        e matches Error::Json(m) && m@ == field_error_text(key@),
{
    let mut chars = crate::text::str_chars("missing or invalid field `");
    let ghost lead = chars@;
    let k = crate::text::str_chars(key);
    let mut i: usize = 0;
    while i < k.len()
        invariant
            i <= k@.len(),
            chars@ == lead + k@.take(i as int),
        decreases k@.len() - i,
    {
        chars.push(k[i]);
        i = i + 1;
        proof {
            assert(chars@ =~= lead + k@.take(i as int));
        }
    }
    chars.push('`');
    proof {
        assert(k@.take(i as int) =~= key@);
        assert(chars@ =~= field_error_text(key@));
    }
    Error::Json(crate::text::string_from_chars(chars.as_slice()))
}

/// The members of an object whose every member name is allowed.
fn check_object<'a>(v: &'a JsonValue, allowed: &[&'static str]) -> (r: Result<&'a Vec<(String, JsonValue)>, Error>)
    ensures
        r is Ok <==> keys_within(v@, allowed@),
        r matches Ok(ms) ==> v@ == JsonV::Object(json_members(ms@)),
        r matches Err(e) ==> e is Json,
{
    match v {
        JsonValue::Object(members) => {
            proof {
                lemma_json_members(members@);
            }
            let ghost ms = json_members(members@);
            let mut i: usize = 0;
            while i < members.len()
                invariant
                    i <= members@.len(),
                    ms == json_members(members@),
                    v@ == JsonV::Object(ms),
                    ms.len() == members@.len(),
                    forall|m: int| 0 <= m < members@.len() ==> #[trigger] ms[m] == (members@[m].0@, members@[m].1@),
                    forall|m: int| 0 <= m < i ==> key_allowed((#[trigger] ms[m]).0, allowed@),
                decreases members@.len() - i,
            {
                let mut found = false;
                let mut j: usize = 0;
                while j < allowed.len()
                    invariant
                        j <= allowed@.len(),
                        i < members@.len(),
                        found ==> key_allowed(members@[i as int].0@, allowed@),
                        !found ==> forall|q: int| 0 <= q < j ==> (#[trigger] allowed@[q])@ != members@[i as int].0@,
                    decreases allowed@.len() - j,
                {
                    if str_eq(allowed[j], members[i].0.as_str()) {
                        found = true;
                    }
                    j = j + 1;
                }
                if !found {
                    proof {
                        assert(ms[i as int].0 == members@[i as int].0@);
                        assert(!key_allowed(ms[i as int].0, allowed@));
                        assert(v@->Object_0 == ms);
                    }
                    return Err(field_error(members[i].0.as_str()));
                }
                proof {
                    assert(ms[i as int].0 == members@[i as int].0@);
                }
                i = i + 1;
            }
            proof {
                assert(v@->Object_0 == ms);
                assert(keys_within(v@, allowed@));
            }
            Ok(members)
        }
        _ => Err(Error::Json("expected a JSON object".to_owned())),
    }
}

fn text_field(v: &JsonValue, key: &str) -> (r: Result<String, Error>)
    ensures
        match text_member(v@, key@) {
            Some(s) => r matches Ok(t) && t@ == s,
            None => r matches Err(e) && e is Json,
        },
{
    match get_member(v, key) {
        Some(JsonValue::Str(s)) => Ok(s.clone()),
        _ => Err(field_error(key)),
    }
}

fn nullable_field(v: &JsonValue, key: &str) -> (r: Result<Option<String>, Error>)
    ensures
        match nullable_member(v@, key@) {
            Some(s) => r matches Ok(t) && opt_view(t) == s,
            None => r matches Err(e) && e is Json,
        },
{
    match get_member(v, key) {
        Some(JsonValue::Str(s)) => Ok(Some(s.clone())),
        Some(JsonValue::Null) => Ok(None),
        _ => Err(field_error(key)),
    }
}

fn u64_field(v: &JsonValue, key: &str) -> (r: Result<u64, Error>)
    ensures
        match u64_member(v@, key@) {
            Some(n) => r == Ok::<u64, Error>(n),
            None => r matches Err(e) && e is Json,
        },
{
    match get_member(v, key) {
        Some(JsonValue::Number(JsonNumber::UInt(n))) => Ok(*n),
        Some(JsonValue::Number(JsonNumber::Int(n))) => if *n >= 0 { Ok(*n as u64) } else { Err(field_error(key)) },
        _ => Err(field_error(key)),
    }
}

fn object_field<'a>(v: &'a JsonValue, key: &str) -> (r: Result<&'a JsonValue, Error>)
    ensures
        match json_get(v@, key@) {
            Some(m) => r matches Ok(x) && x@ == m,
            None => r matches Err(e) && e is Json,
        },
{
    match get_member(v, key) {
        Some(x) => Ok(x),
        None => Err(field_error(key)),
    }
}

/// Site class as a lowercase profile value.
#[derive(Debug, Clone, Copy, PartialEq, Eq, Structural)]
pub enum SiteClass {
    Residential,
    Industrial,
    Healthcare,
    Infra,
    Other,
}

/// The site class a wire text names.
pub open spec fn site_class_of(s: Seq<char>) -> Option<SiteClass> {
    if s == "residential"@ {
        Some(SiteClass::Residential)
    } else if s == "industrial"@ {
        Some(SiteClass::Industrial)
    } else if s == "healthcare"@ {
        Some(SiteClass::Healthcare)
    } else if s == "infra"@ {
        Some(SiteClass::Infra)
    } else if s == "other"@ {
        Some(SiteClass::Other)
    } else {
        None
    }
}

/// The wire text of a site class.
pub open spec fn site_class_text(c: SiteClass) -> Seq<char> {
    match c {
        SiteClass::Residential => "residential"@,
        SiteClass::Industrial => "industrial"@,
        SiteClass::Healthcare => "healthcare"@,
        SiteClass::Infra => "infra"@,
        SiteClass::Other => "other"@,
    }
}

impl SiteClass {
    /// The wire text of this class.
    pub fn as_wire_str(&self) -> (r: &'static str)
        ensures
            r@ == site_class_text(*self),
    {
        match self {
            SiteClass::Residential => "residential",
            SiteClass::Industrial => "industrial",
            SiteClass::Healthcare => "healthcare",
            SiteClass::Infra => "infra",
            SiteClass::Other => "other",
        }
    }

    fn from_wire(s: &str) -> (r: Option<SiteClass>)
        ensures
            r == site_class_of(s@),
    {
        if str_eq(s, "residential") {
            Some(SiteClass::Residential)
        } else if str_eq(s, "industrial") {
            Some(SiteClass::Industrial)
        } else if str_eq(s, "healthcare") {
            Some(SiteClass::Healthcare)
        } else if str_eq(s, "infra") {
            Some(SiteClass::Infra)
        } else if str_eq(s, "other") {
            Some(SiteClass::Other)
        } else {
            None
        }
    }
}

/// The JSON value of optional text: the text, or `null`.
pub open spec fn nullable_json(s: Option<String>) -> JsonV {
    match s {
        Some(t) => JsonV::Str(t@),
        None => JsonV::Null,
    }
}

fn nullable_value(s: &Option<String>) -> (r: JsonValue)
    ensures
        r@ == nullable_json(*s),
{
    match s {
        Some(t) => JsonValue::Str(t.clone()),
        None => JsonValue::Null,
    }
}

/// Whether `xs` is what the JSON array `v` decodes to.
pub open spec fn components_is(xs: Seq<MeasuredBootComponent>, v: JsonV) -> bool {
    v matches JsonV::Array(items) && items.len() == xs.len()
        && forall|i: int| 0 <= i < xs.len() ==> measured_boot_component_is(#[trigger] xs[i], items[i])
}

/// The JSON array of measured-boot components.
pub open spec fn components_json(xs: Seq<MeasuredBootComponent>) -> JsonV {
    JsonV::Array(Seq::new(xs.len(), |i: int| measured_boot_component_json(xs[i])))
}

fn decode_components(v: &JsonValue) -> (r: Result<Vec<MeasuredBootComponent>, Error>)
    ensures
        r matches Ok(xs) ==> components_is(xs@, v@),
        r is Err ==> !exists|xs: Seq<MeasuredBootComponent>| components_is(xs, v@),
        r matches Err(e) ==> e is Json,
{
    match v {
        JsonValue::Array(items) => {
            proof {
                crate::json::lemma_json_items(items@);
            }
            let mut out: Vec<MeasuredBootComponent> = Vec::new();
            let mut i: usize = 0;
            while i < items.len()
                invariant
                    i <= items@.len(),
                    v@ == JsonV::Array(crate::json::json_items(items@)),
                    crate::json::json_items(items@).len() == items@.len(),
                    forall|m: int| 0 <= m < items@.len() ==> #[trigger] crate::json::json_items(items@)[m] == items@[m]@,
                    out@.len() == i,
                    forall|m: int| 0 <= m < i ==> measured_boot_component_is(#[trigger] out@[m], items@[m]@),
                decreases items@.len() - i,
            {
                let c = match decode_measured_boot_component(&items[i]) {
                    Ok(c) => c,
                    Err(e) => {
                        proof {
                            assert forall|xs: Seq<MeasuredBootComponent>| !components_is(xs, v@) by {
                                if components_is(xs, v@) {
                                    assert(measured_boot_component_is(xs[i as int], crate::json::json_items(items@)[i as int]));
                                }
                            }
                        }
                        return Err(e);
                    }
                };
                out.push(c);
                i = i + 1;
            }
            Ok(out)
        }
        _ => Err(Error::Json("measuredBoot.components must be an array".to_owned())),
    }
}

fn components_value(xs: &Vec<MeasuredBootComponent>) -> (r: JsonValue)
    ensures
        r@ == components_json(xs@),
{
    let mut items: Vec<JsonValue> = Vec::new();
    let mut i: usize = 0;
    while i < xs.len()
        invariant
            i <= xs@.len(),
            items@.len() == i,
            forall|m: int| 0 <= m < i ==> (#[trigger] items@[m])@ == measured_boot_component_json(xs@[m]),
        decreases xs@.len() - i,
    {
        items.push(measured_boot_component_value(&xs[i]));
        i = i + 1;
    }
    proof {
        crate::json::lemma_json_items(items@);
        assert(crate::json::json_items(items@) =~= components_json(xs@)->Array_0);
    }
    JsonValue::Array(items)
}

/// Actor class as a profile discriminant.
#[derive(Debug, Clone, Copy, PartialEq, Eq, Structural)]
pub enum ActorClass {
    Autonomous,
    SemiAutonomous,
    Human,
    Crew,
}
/// The actor class value a wire text names.
pub open spec fn actor_class_of(s: Seq<char>) -> Option<ActorClass> {
    if s == "AUTONOMOUS"@ {
        Some(ActorClass::Autonomous)
    } else if s == "SEMI_AUTONOMOUS"@ {
        Some(ActorClass::SemiAutonomous)
    } else if s == "HUMAN"@ {
        Some(ActorClass::Human)
    } else if s == "CREW"@ {
        Some(ActorClass::Crew)
    } else {
        None
    }
}

/// The wire text of one actor class value.
pub open spec fn actor_class_text(c: ActorClass) -> Seq<char> {
    match c {
        ActorClass::Autonomous => "AUTONOMOUS"@,
        ActorClass::SemiAutonomous => "SEMI_AUTONOMOUS"@,
        ActorClass::Human => "HUMAN"@,
        ActorClass::Crew => "CREW"@,
    }
}

impl ActorClass {
    /// The wire text of this value.
    pub fn as_wire_str(&self) -> (r: &'static str)
        ensures
            r@ == actor_class_text(*self),
    {
        match self {
            ActorClass::Autonomous => "AUTONOMOUS",
            ActorClass::SemiAutonomous => "SEMI_AUTONOMOUS",
            ActorClass::Human => "HUMAN",
            ActorClass::Crew => "CREW",
        }
    }

    fn from_wire(s: &str) -> (r: Option<ActorClass>)
        ensures
            r == actor_class_of(s@),
    {
        if str_eq(s, "AUTONOMOUS") {
            Some(ActorClass::Autonomous)
        } else if str_eq(s, "SEMI_AUTONOMOUS") {
            Some(ActorClass::SemiAutonomous)
        } else if str_eq(s, "HUMAN") {
            Some(ActorClass::Human)
        } else if str_eq(s, "CREW") {
            Some(ActorClass::Crew)
        } else {
            None
        }
    }
}

/// Engagement outcome class.
#[derive(Debug, Clone, Copy, PartialEq, Eq, Structural)]
pub enum OutcomeClass {
    Completed,
    Aborted,
    Refused,
    Errored,
    ObservedOnly,
}
/// The outcome class value a wire text names.
pub open spec fn outcome_class_of(s: Seq<char>) -> Option<OutcomeClass> {
    if s == "COMPLETED"@ {
        Some(OutcomeClass::Completed)
    } else if s == "ABORTED"@ {
        Some(OutcomeClass::Aborted)
    } else if s == "REFUSED"@ {
        Some(OutcomeClass::Refused)
    } else if s == "ERRORED"@ {
        Some(OutcomeClass::Errored)
    } else if s == "OBSERVED_ONLY"@ {
        Some(OutcomeClass::ObservedOnly)
    } else {
        None
    }
}

/// The wire text of one outcome class value.
pub open spec fn outcome_class_text(c: OutcomeClass) -> Seq<char> {
    match c {
        OutcomeClass::Completed => "COMPLETED"@,
        OutcomeClass::Aborted => "ABORTED"@,
        OutcomeClass::Refused => "REFUSED"@,
        OutcomeClass::Errored => "ERRORED"@,
        OutcomeClass::ObservedOnly => "OBSERVED_ONLY"@,
    }
}

impl OutcomeClass {
    /// The wire text of this value.
    pub fn as_wire_str(&self) -> (r: &'static str)
        ensures
            r@ == outcome_class_text(*self),
    {
        match self {
            OutcomeClass::Completed => "COMPLETED",
            OutcomeClass::Aborted => "ABORTED",
            OutcomeClass::Refused => "REFUSED",
            OutcomeClass::Errored => "ERRORED",
            OutcomeClass::ObservedOnly => "OBSERVED_ONLY",
        }
    }

    fn from_wire(s: &str) -> (r: Option<OutcomeClass>)
        ensures
            r == outcome_class_of(s@),
    {
        if str_eq(s, "COMPLETED") {
            Some(OutcomeClass::Completed)
        } else if str_eq(s, "ABORTED") {
            Some(OutcomeClass::Aborted)
        } else if str_eq(s, "REFUSED") {
            Some(OutcomeClass::Refused)
        } else if str_eq(s, "ERRORED") {
            Some(OutcomeClass::Errored)
        } else if str_eq(s, "OBSERVED_ONLY") {
            Some(OutcomeClass::ObservedOnly)
        } else {
            None
        }
    }
}

/// Whether the engagement stayed within the operating envelope.
#[derive(Debug, Clone, Copy, PartialEq, Eq, Structural)]
pub enum EnvelopeConformance {
    Within,
    ExceededTemporal,
    ExceededGeo,
    ExceededActor,
    Unknown,
}
/// The envelope conformance value a wire text names.
pub open spec fn envelope_conformance_of(s: Seq<char>) -> Option<EnvelopeConformance> {
    if s == "WITHIN"@ {
        Some(EnvelopeConformance::Within)
    } else if s == "EXCEEDED_TEMPORAL"@ {
        Some(EnvelopeConformance::ExceededTemporal)
    } else if s == "EXCEEDED_GEO"@ {
        Some(EnvelopeConformance::ExceededGeo)
    } else if s == "EXCEEDED_ACTOR"@ {
        Some(EnvelopeConformance::ExceededActor)
    } else if s == "UNKNOWN"@ {
        Some(EnvelopeConformance::Unknown)
    } else {
        None
    }
}

/// The wire text of one envelope conformance value.
pub open spec fn envelope_conformance_text(c: EnvelopeConformance) -> Seq<char> {
    match c {
        EnvelopeConformance::Within => "WITHIN"@,
        EnvelopeConformance::ExceededTemporal => "EXCEEDED_TEMPORAL"@,
        EnvelopeConformance::ExceededGeo => "EXCEEDED_GEO"@,
        EnvelopeConformance::ExceededActor => "EXCEEDED_ACTOR"@,
        EnvelopeConformance::Unknown => "UNKNOWN"@,
    }
}

impl EnvelopeConformance {
    /// The wire text of this value.
    pub fn as_wire_str(&self) -> (r: &'static str)
        ensures
            r@ == envelope_conformance_text(*self),
    {
        match self {
            EnvelopeConformance::Within => "WITHIN",
            EnvelopeConformance::ExceededTemporal => "EXCEEDED_TEMPORAL",
            EnvelopeConformance::ExceededGeo => "EXCEEDED_GEO",
            EnvelopeConformance::ExceededActor => "EXCEEDED_ACTOR",
            EnvelopeConformance::Unknown => "UNKNOWN",
        }
    }

    fn from_wire(s: &str) -> (r: Option<EnvelopeConformance>)
        ensures
            r == envelope_conformance_of(s@),
    {
        if str_eq(s, "WITHIN") {
            Some(EnvelopeConformance::Within)
        } else if str_eq(s, "EXCEEDED_TEMPORAL") {
            Some(EnvelopeConformance::ExceededTemporal)
        } else if str_eq(s, "EXCEEDED_GEO") {
            Some(EnvelopeConformance::ExceededGeo)
        } else if str_eq(s, "EXCEEDED_ACTOR") {
            Some(EnvelopeConformance::ExceededActor)
        } else if str_eq(s, "UNKNOWN") {
            Some(EnvelopeConformance::Unknown)
        } else {
            None
        }
    }
}

/// The adapter posture; only write-only exists.
#[derive(Debug, Clone, Copy, PartialEq, Eq, Structural)]
pub enum AdapterMode {
    WriteOnly,
}
/// The adapter mode value a wire text names.
pub open spec fn adapter_mode_of(s: Seq<char>) -> Option<AdapterMode> {
    if s == "WRITE_ONLY"@ {
        Some(AdapterMode::WriteOnly)
    } else {
        None
    }
}

/// The wire text of one adapter mode value.
pub open spec fn adapter_mode_text(c: AdapterMode) -> Seq<char> {
    match c {
        AdapterMode::WriteOnly => "WRITE_ONLY"@,
    }
}

impl AdapterMode {
    /// The wire text of this value.
    pub fn as_wire_str(&self) -> (r: &'static str)
        ensures
            r@ == adapter_mode_text(*self),
    {
        match self {
            AdapterMode::WriteOnly => "WRITE_ONLY",
        }
    }

    fn from_wire(s: &str) -> (r: Option<AdapterMode>)
        ensures
            r == adapter_mode_of(s@),
    {
        if str_eq(s, "WRITE_ONLY") {
            Some(AdapterMode::WriteOnly)
        } else {
            None
        }
    }
}

/// The operating envelope's temporal bounds.
#[derive(Debug, PartialEq, Eq)]
pub struct Temporal {
    pub starts: Option<String>,
    pub ends: Option<String>,
}

/// Whether `x` is what the JSON value `v` decodes to.
pub open spec fn temporal_is(x: Temporal, v: JsonV) -> bool {
    &&& keys_within(v, seq!["starts", "ends"])
    &&& nullable_member(v, "starts"@) == Some(opt_view(x.starts))
    &&& nullable_member(v, "ends"@) == Some(opt_view(x.ends))
}

/// The JSON value of one temporal record.
pub open spec fn temporal_json(x: Temporal) -> JsonV {
    JsonV::Object(seq![
        ("starts"@, nullable_json(x.starts)),
        ("ends"@, nullable_json(x.ends)),
    ])
}

fn decode_temporal(v: &JsonValue) -> (r: Result<Temporal, Error>)
    ensures
        r matches Ok(x) ==> temporal_is(x, v@),
        r is Err ==> !exists|x: Temporal| temporal_is(x, v@),
        r matches Err(e) ==> e is Json,
{
    let allowed: [&'static str; 2] = ["starts", "ends"];
    assert(allowed@ == seq!["starts", "ends"]);
    check_object(v, &allowed)?;
    let starts = nullable_field(v, "starts")?;
    let ends = nullable_field(v, "ends")?;
    Ok(Temporal { starts, ends })
}

fn temporal_value(x: &Temporal) -> (r: JsonValue)
    ensures
        r@ == temporal_json(*x),
{
    let members = vec![
        ("starts".to_owned(), nullable_value(&x.starts)),
        ("ends".to_owned(), nullable_value(&x.ends)),
    ];
    proof {
        lemma_json_members(members@);
        assert(json_members(members@) =~= temporal_json(*x)->Object_0);
    }
    JsonValue::Object(members)
}

/// The site the engagement happened at.
#[derive(Debug, PartialEq, Eq)]
pub struct Site {
    pub id: String,
    pub class: SiteClass,
    pub envelope: SiteEnvelope,
}

/// Whether `x` is what the JSON value `v` decodes to.
pub open spec fn site_is(x: Site, v: JsonV) -> bool {
    &&& keys_within(v, seq!["id", "class", "envelope"])
    &&& text_member(v, "id"@) == Some(x.id@)
    &&& text_member(v, "class"@) matches Some(t) && site_class_of(t) == Some(x.class)
    &&& site_envelope_is(x.envelope, member(v, "envelope"@))
}

/// The JSON value of one site record.
pub open spec fn site_json(x: Site) -> JsonV {
    JsonV::Object(seq![
        ("id"@, JsonV::Str(x.id@)),
        ("class"@, JsonV::Str(site_class_text(x.class))),
        ("envelope"@, site_envelope_json(x.envelope)),
    ])
}

fn decode_site(v: &JsonValue) -> (r: Result<Site, Error>)
    ensures
        r matches Ok(x) ==> site_is(x, v@),
        r is Err ==> !exists|x: Site| site_is(x, v@),
        r matches Err(e) ==> e is Json,
{
    let allowed: [&'static str; 3] = ["id", "class", "envelope"];
    assert(allowed@ == seq!["id", "class", "envelope"]);
    check_object(v, &allowed)?;
    let id = text_field(v, "id")?;
    let class = match SiteClass::from_wire(text_field(v, "class")?.as_str()) {
        Some(c) => c,
        None => {
            return Err(field_error("class"));
        }
    };
    let envelope = decode_site_envelope(object_field(v, "envelope")?)?;
    Ok(Site { id, class, envelope })
}

fn site_value(x: &Site) -> (r: JsonValue)
    ensures
        r@ == site_json(*x),
{
    let members = vec![
        ("id".to_owned(), JsonValue::Str(x.id.clone())),
        ("class".to_owned(), JsonValue::Str(x.class.as_wire_str().to_owned())),
        ("envelope".to_owned(), site_envelope_value(&x.envelope)),
    ];
    proof {
        lemma_json_members(members@);
        assert(json_members(members@) =~= site_json(*x)->Object_0);
    }
    JsonValue::Object(members)
}

/// The operating envelope in force at the site.
#[derive(Debug, PartialEq, Eq)]
pub struct SiteEnvelope {
    pub id: String,
    pub digest: String,
    pub geobounds: Option<String>,
    pub temporal: Temporal,
}

/// Whether `x` is what the JSON value `v` decodes to.
pub open spec fn site_envelope_is(x: SiteEnvelope, v: JsonV) -> bool {
    &&& keys_within(v, seq!["id", "digest", "geobounds", "temporal"])
    &&& text_member(v, "id"@) == Some(x.id@)
    &&& text_member(v, "digest"@) == Some(x.digest@)
    &&& nullable_member(v, "geobounds"@) == Some(opt_view(x.geobounds))
    &&& temporal_is(x.temporal, member(v, "temporal"@))
}

/// The JSON value of one site envelope record.
pub open spec fn site_envelope_json(x: SiteEnvelope) -> JsonV {
    JsonV::Object(seq![
        ("id"@, JsonV::Str(x.id@)),
        ("digest"@, JsonV::Str(x.digest@)),
        ("geobounds"@, nullable_json(x.geobounds)),
        ("temporal"@, temporal_json(x.temporal)),
    ])
}

fn decode_site_envelope(v: &JsonValue) -> (r: Result<SiteEnvelope, Error>)
    ensures
        r matches Ok(x) ==> site_envelope_is(x, v@),
        r is Err ==> !exists|x: SiteEnvelope| site_envelope_is(x, v@),
        r matches Err(e) ==> e is Json,
{
    let allowed: [&'static str; 4] = ["id", "digest", "geobounds", "temporal"];
    assert(allowed@ == seq!["id", "digest", "geobounds", "temporal"]);
    check_object(v, &allowed)?;
    let id = text_field(v, "id")?;
    let digest = text_field(v, "digest")?;
    let geobounds = nullable_field(v, "geobounds")?;
    let temporal = decode_temporal(object_field(v, "temporal")?)?;
    Ok(SiteEnvelope { id, digest, geobounds, temporal })
}

fn site_envelope_value(x: &SiteEnvelope) -> (r: JsonValue)
    ensures
        r@ == site_envelope_json(*x),
{
    let members = vec![
        ("id".to_owned(), JsonValue::Str(x.id.clone())),
        ("digest".to_owned(), JsonValue::Str(x.digest.clone())),
        ("geobounds".to_owned(), nullable_value(&x.geobounds)),
        ("temporal".to_owned(), temporal_value(&x.temporal)),
    ];
    proof {
        lemma_json_members(members@);
        assert(json_members(members@) =~= site_envelope_json(*x)->Object_0);
    }
    JsonValue::Object(members)
}

/// The actor that performed the engagement.
#[derive(Debug, PartialEq, Eq)]
pub struct Actor {
    pub id: String,
    pub class: ActorClass,
    pub operator: String,
}

/// Whether `x` is what the JSON value `v` decodes to.
pub open spec fn actor_is(x: Actor, v: JsonV) -> bool {
    &&& keys_within(v, seq!["id", "class", "operator"])
    &&& text_member(v, "id"@) == Some(x.id@)
    &&& text_member(v, "class"@) matches Some(t) && actor_class_of(t) == Some(x.class)
    &&& text_member(v, "operator"@) == Some(x.operator@)
}

/// The JSON value of one actor record.
pub open spec fn actor_json(x: Actor) -> JsonV {
    JsonV::Object(seq![
        ("id"@, JsonV::Str(x.id@)),
        ("class"@, JsonV::Str(actor_class_text(x.class))),
        ("operator"@, JsonV::Str(x.operator@)),
    ])
}

fn decode_actor(v: &JsonValue) -> (r: Result<Actor, Error>)
    ensures
        r matches Ok(x) ==> actor_is(x, v@),
        r is Err ==> !exists|x: Actor| actor_is(x, v@),
        r matches Err(e) ==> e is Json,
{
    let allowed: [&'static str; 3] = ["id", "class", "operator"];
    assert(allowed@ == seq!["id", "class", "operator"]);
    check_object(v, &allowed)?;
    let id = text_field(v, "id")?;
    let class = match ActorClass::from_wire(text_field(v, "class")?.as_str()) {
        Some(c) => c,
        None => {
            return Err(field_error("class"));
        }
    };
    let operator = text_field(v, "operator")?;
    Ok(Actor { id, class, operator })
}

fn actor_value(x: &Actor) -> (r: JsonValue)
    ensures
        r@ == actor_json(*x),
{
    let members = vec![
        ("id".to_owned(), JsonValue::Str(x.id.clone())),
        ("class".to_owned(), JsonValue::Str(x.class.as_wire_str().to_owned())),
        ("operator".to_owned(), JsonValue::Str(x.operator.clone())),
    ];
    proof {
        lemma_json_members(members@);
        assert(json_members(members@) =~= actor_json(*x)->Object_0);
    }
    JsonValue::Object(members)
}

/// An RFC 3339 UTC time window.
#[derive(Debug, PartialEq, Eq)]
pub struct Window {
    pub start: String,
    pub end: String,
}

/// Whether `x` is what the JSON value `v` decodes to.
pub open spec fn window_is(x: Window, v: JsonV) -> bool {
    &&& keys_within(v, seq!["start", "end"])
    &&& text_member(v, "start"@) == Some(x.start@)
    &&& text_member(v, "end"@) == Some(x.end@)
}

/// The JSON value of one window record.
pub open spec fn window_json(x: Window) -> JsonV {
    JsonV::Object(seq![
        ("start"@, JsonV::Str(x.start@)),
        ("end"@, JsonV::Str(x.end@)),
    ])
}

fn decode_window(v: &JsonValue) -> (r: Result<Window, Error>)
    ensures
        r matches Ok(x) ==> window_is(x, v@),
        r is Err ==> !exists|x: Window| window_is(x, v@),
        r matches Err(e) ==> e is Json,
{
    let allowed: [&'static str; 2] = ["start", "end"];
    assert(allowed@ == seq!["start", "end"]);
    check_object(v, &allowed)?;
    let start = text_field(v, "start")?;
    let end = text_field(v, "end")?;
    Ok(Window { start, end })
}

fn window_value(x: &Window) -> (r: JsonValue)
    ensures
        r@ == window_json(*x),
{
    let members = vec![
        ("start".to_owned(), JsonValue::Str(x.start.clone())),
        ("end".to_owned(), JsonValue::Str(x.end.clone())),
    ];
    proof {
        lemma_json_members(members@);
        assert(json_members(members@) =~= window_json(*x)->Object_0);
    }
    JsonValue::Object(members)
}

/// The engagement itself.
#[derive(Debug, PartialEq, Eq)]
pub struct Engagement {
    pub id: String,
    pub window: Window,
    pub kind: String,
    pub outcome_class: OutcomeClass,
    pub envelope_conformance: EnvelopeConformance,
    pub evidence_digest: String,
}

/// Whether `x` is what the JSON value `v` decodes to.
pub open spec fn engagement_is(x: Engagement, v: JsonV) -> bool {
    &&& keys_within(v, seq!["id", "window", "type", "outcomeClass", "envelopeConformance", "evidenceDigest"])
    &&& text_member(v, "id"@) == Some(x.id@)
    &&& window_is(x.window, member(v, "window"@))
    &&& text_member(v, "type"@) == Some(x.kind@)
    &&& text_member(v, "outcomeClass"@) matches Some(t) && outcome_class_of(t) == Some(x.outcome_class)
    &&& text_member(v, "envelopeConformance"@) matches Some(t) && envelope_conformance_of(t) == Some(x.envelope_conformance)
    &&& text_member(v, "evidenceDigest"@) == Some(x.evidence_digest@)
}

/// The JSON value of one engagement record.
pub open spec fn engagement_json(x: Engagement) -> JsonV {
    JsonV::Object(seq![
        ("id"@, JsonV::Str(x.id@)),
        ("window"@, window_json(x.window)),
        ("type"@, JsonV::Str(x.kind@)),
        ("outcomeClass"@, JsonV::Str(outcome_class_text(x.outcome_class))),
        ("envelopeConformance"@, JsonV::Str(envelope_conformance_text(x.envelope_conformance))),
        ("evidenceDigest"@, JsonV::Str(x.evidence_digest@)),
    ])
}

fn decode_engagement(v: &JsonValue) -> (r: Result<Engagement, Error>)
    ensures
        r matches Ok(x) ==> engagement_is(x, v@),
        r is Err ==> !exists|x: Engagement| engagement_is(x, v@),
        r matches Err(e) ==> e is Json,
{
    let allowed: [&'static str; 6] = ["id", "window", "type", "outcomeClass", "envelopeConformance", "evidenceDigest"];
    assert(allowed@ == seq!["id", "window", "type", "outcomeClass", "envelopeConformance", "evidenceDigest"]);
    check_object(v, &allowed)?;
    let id = text_field(v, "id")?;
    let window = decode_window(object_field(v, "window")?)?;
    let kind = text_field(v, "type")?;
    let outcome_class = match OutcomeClass::from_wire(text_field(v, "outcomeClass")?.as_str()) {
        Some(c) => c,
        None => {
            return Err(field_error("outcomeClass"));
        }
    };
    let envelope_conformance = match EnvelopeConformance::from_wire(text_field(v, "envelopeConformance")?.as_str()) {
        Some(c) => c,
        None => {
            return Err(field_error("envelopeConformance"));
        }
    };
    let evidence_digest = text_field(v, "evidenceDigest")?;
    Ok(Engagement { id, window, kind, outcome_class, envelope_conformance, evidence_digest })
}

fn engagement_value(x: &Engagement) -> (r: JsonValue)
    ensures
        r@ == engagement_json(*x),
{
    let members = vec![
        ("id".to_owned(), JsonValue::Str(x.id.clone())),
        ("window".to_owned(), window_value(&x.window)),
        ("type".to_owned(), JsonValue::Str(x.kind.clone())),
        ("outcomeClass".to_owned(), JsonValue::Str(x.outcome_class.as_wire_str().to_owned())),
        ("envelopeConformance".to_owned(), JsonValue::Str(x.envelope_conformance.as_wire_str().to_owned())),
        ("evidenceDigest".to_owned(), JsonValue::Str(x.evidence_digest.clone())),
    ];
    proof {
        lemma_json_members(members@);
        assert(json_members(members@) =~= engagement_json(*x)->Object_0);
    }
    JsonValue::Object(members)
}

/// One measured-boot component.
#[derive(Debug, PartialEq, Eq)]
pub struct MeasuredBootComponent {
    pub name: String,
    pub digest: String,
}

/// Whether `x` is what the JSON value `v` decodes to.
pub open spec fn measured_boot_component_is(x: MeasuredBootComponent, v: JsonV) -> bool {
    &&& keys_within(v, seq!["name", "digest"])
    &&& text_member(v, "name"@) == Some(x.name@)
    &&& text_member(v, "digest"@) == Some(x.digest@)
}

/// The JSON value of one measured boot component record.
pub open spec fn measured_boot_component_json(x: MeasuredBootComponent) -> JsonV {
    JsonV::Object(seq![
        ("name"@, JsonV::Str(x.name@)),
        ("digest"@, JsonV::Str(x.digest@)),
    ])
}

fn decode_measured_boot_component(v: &JsonValue) -> (r: Result<MeasuredBootComponent, Error>)
    ensures
        r matches Ok(x) ==> measured_boot_component_is(x, v@),
        r is Err ==> !exists|x: MeasuredBootComponent| measured_boot_component_is(x, v@),
        r matches Err(e) ==> e is Json,
{
    let allowed: [&'static str; 2] = ["name", "digest"];
    assert(allowed@ == seq!["name", "digest"]);
    check_object(v, &allowed)?;
    let name = text_field(v, "name")?;
    let digest = text_field(v, "digest")?;
    Ok(MeasuredBootComponent { name, digest })
}

fn measured_boot_component_value(x: &MeasuredBootComponent) -> (r: JsonValue)
    ensures
        r@ == measured_boot_component_json(*x),
{
    let members = vec![
        ("name".to_owned(), JsonValue::Str(x.name.clone())),
        ("digest".to_owned(), JsonValue::Str(x.digest.clone())),
    ];
    proof {
        lemma_json_members(members@);
        assert(json_members(members@) =~= measured_boot_component_json(*x)->Object_0);
    }
    JsonValue::Object(members)
}

/// The measured-boot chain and its components.
#[derive(Debug, PartialEq, Eq)]
pub struct MeasuredBoot {
    pub chain: String,
    pub components: Vec<MeasuredBootComponent>,
}

/// Whether `x` is what the JSON value `v` decodes to.
pub open spec fn measured_boot_is(x: MeasuredBoot, v: JsonV) -> bool {
    &&& keys_within(v, seq!["chain", "components"])
    &&& text_member(v, "chain"@) == Some(x.chain@)
    &&& components_is(x.components@, member(v, "components"@))
}

/// The JSON value of one measured boot record.
pub open spec fn measured_boot_json(x: MeasuredBoot) -> JsonV {
    JsonV::Object(seq![
        ("chain"@, JsonV::Str(x.chain@)),
        ("components"@, components_json(x.components@)),
    ])
}

fn decode_measured_boot(v: &JsonValue) -> (r: Result<MeasuredBoot, Error>)
    ensures
        r matches Ok(x) ==> measured_boot_is(x, v@),
        r is Err ==> !exists|x: MeasuredBoot| measured_boot_is(x, v@),
        r matches Err(e) ==> e is Json,
{
    let allowed: [&'static str; 2] = ["chain", "components"];
    assert(allowed@ == seq!["chain", "components"]);
    check_object(v, &allowed)?;
    let chain = text_field(v, "chain")?;
    let components = decode_components(object_field(v, "components")?)?;
    Ok(MeasuredBoot { chain, components })
}

fn measured_boot_value(x: &MeasuredBoot) -> (r: JsonValue)
    ensures
        r@ == measured_boot_json(*x),
{
    let members = vec![
        ("chain".to_owned(), JsonValue::Str(x.chain.clone())),
        ("components".to_owned(), components_value(&x.components)),
    ];
    proof {
        lemma_json_members(members@);
        assert(json_members(members@) =~= measured_boot_json(*x)->Object_0);
    }
    JsonValue::Object(members)
}

/// Platform evidence: its encoding and digest.
#[derive(Debug, PartialEq, Eq)]
pub struct PlatformEvidence {
    pub encoding: String,
    pub digest: String,
}

/// Whether `x` is what the JSON value `v` decodes to.
pub open spec fn platform_evidence_is(x: PlatformEvidence, v: JsonV) -> bool {
    &&& keys_within(v, seq!["encoding", "digest"])
    &&& text_member(v, "encoding"@) == Some(x.encoding@)
    &&& text_member(v, "digest"@) == Some(x.digest@)
}

/// The JSON value of one platform evidence record.
pub open spec fn platform_evidence_json(x: PlatformEvidence) -> JsonV {
    JsonV::Object(seq![
        ("encoding"@, JsonV::Str(x.encoding@)),
        ("digest"@, JsonV::Str(x.digest@)),
    ])
}

fn decode_platform_evidence(v: &JsonValue) -> (r: Result<PlatformEvidence, Error>)
    ensures
        r matches Ok(x) ==> platform_evidence_is(x, v@),
        r is Err ==> !exists|x: PlatformEvidence| platform_evidence_is(x, v@),
        r matches Err(e) ==> e is Json,
{
    let allowed: [&'static str; 2] = ["encoding", "digest"];
    assert(allowed@ == seq!["encoding", "digest"]);
    check_object(v, &allowed)?;
    let encoding = text_field(v, "encoding")?;
    let digest = text_field(v, "digest")?;
    Ok(PlatformEvidence { encoding, digest })
}

fn platform_evidence_value(x: &PlatformEvidence) -> (r: JsonValue)
    ensures
        r@ == platform_evidence_json(*x),
{
    let members = vec![
        ("encoding".to_owned(), JsonValue::Str(x.encoding.clone())),
        ("digest".to_owned(), JsonValue::Str(x.digest.clone())),
    ];
    proof {
        lemma_json_members(members@);
        assert(json_members(members@) =~= platform_evidence_json(*x)->Object_0);
    }
    JsonValue::Object(members)
}

/// The sealed evidence blob.
#[derive(Debug, PartialEq, Eq)]
pub struct SealedEvidence {
    pub digest: String,
    pub size_bytes: u64,
    pub encoding: String,
}

/// Whether `x` is what the JSON value `v` decodes to.
pub open spec fn sealed_evidence_is(x: SealedEvidence, v: JsonV) -> bool {
    &&& keys_within(v, seq!["digest", "sizeBytes", "encoding"])
    &&& text_member(v, "digest"@) == Some(x.digest@)
    &&& u64_member(v, "sizeBytes"@) == Some(x.size_bytes)
    &&& text_member(v, "encoding"@) == Some(x.encoding@)
}

/// The JSON value of one sealed evidence record.
pub open spec fn sealed_evidence_json(x: SealedEvidence) -> JsonV {
    JsonV::Object(seq![
        ("digest"@, JsonV::Str(x.digest@)),
        ("sizeBytes"@, JsonV::Int(x.size_bytes as int)),
        ("encoding"@, JsonV::Str(x.encoding@)),
    ])
}

fn decode_sealed_evidence(v: &JsonValue) -> (r: Result<SealedEvidence, Error>)
    ensures
        r matches Ok(x) ==> sealed_evidence_is(x, v@),
        r is Err ==> !exists|x: SealedEvidence| sealed_evidence_is(x, v@),
        r matches Err(e) ==> e is Json,
{
    let allowed: [&'static str; 3] = ["digest", "sizeBytes", "encoding"];
    assert(allowed@ == seq!["digest", "sizeBytes", "encoding"]);
    check_object(v, &allowed)?;
    let digest = text_field(v, "digest")?;
    let size_bytes = u64_field(v, "sizeBytes")?;
    let encoding = text_field(v, "encoding")?;
    Ok(SealedEvidence { digest, size_bytes, encoding })
}

fn sealed_evidence_value(x: &SealedEvidence) -> (r: JsonValue)
    ensures
        r@ == sealed_evidence_json(*x),
{
    let members = vec![
        ("digest".to_owned(), JsonValue::Str(x.digest.clone())),
        ("sizeBytes".to_owned(), JsonValue::Number(JsonNumber::UInt(x.size_bytes))),
        ("encoding".to_owned(), JsonValue::Str(x.encoding.clone())),
    ];
    proof {
        lemma_json_members(members@);
        assert(json_members(members@) =~= sealed_evidence_json(*x)->Object_0);
    }
    JsonValue::Object(members)
}

/// The attestation validity interval.
#[derive(Debug, PartialEq, Eq)]
pub struct Validity {
    pub not_before: String,
    pub not_after: String,
}

/// Whether `x` is what the JSON value `v` decodes to.
pub open spec fn validity_is(x: Validity, v: JsonV) -> bool {
    &&& keys_within(v, seq!["notBefore", "notAfter"])
    &&& text_member(v, "notBefore"@) == Some(x.not_before@)
    &&& text_member(v, "notAfter"@) == Some(x.not_after@)
}

/// The JSON value of one validity record.
pub open spec fn validity_json(x: Validity) -> JsonV {
    JsonV::Object(seq![
        ("notBefore"@, JsonV::Str(x.not_before@)),
        ("notAfter"@, JsonV::Str(x.not_after@)),
    ])
}

fn decode_validity(v: &JsonValue) -> (r: Result<Validity, Error>)
    ensures
        r matches Ok(x) ==> validity_is(x, v@),
        r is Err ==> !exists|x: Validity| validity_is(x, v@),
        r matches Err(e) ==> e is Json,
{
    let allowed: [&'static str; 2] = ["notBefore", "notAfter"];
    assert(allowed@ == seq!["notBefore", "notAfter"]);
    check_object(v, &allowed)?;
    let not_before = text_field(v, "notBefore")?;
    let not_after = text_field(v, "notAfter")?;
    Ok(Validity { not_before, not_after })
}

fn validity_value(x: &Validity) -> (r: JsonValue)
    ensures
        r@ == validity_json(*x),
{
    let members = vec![
        ("notBefore".to_owned(), JsonValue::Str(x.not_before.clone())),
        ("notAfter".to_owned(), JsonValue::Str(x.not_after.clone())),
    ];
    proof {
        lemma_json_members(members@);
        assert(json_members(members@) =~= validity_json(*x)->Object_0);
    }
    JsonValue::Object(members)
}

/// The TEE attestation.
#[derive(Debug, PartialEq, Eq)]
pub struct Attestation {
    pub tee_class: String,
    pub measured_boot: MeasuredBoot,
    pub platform_evidence: PlatformEvidence,
    pub sealed_evidence: SealedEvidence,
    pub witness_key: String,
    pub validity: Validity,
}

/// Whether `x` is what the JSON value `v` decodes to.
pub open spec fn attestation_is(x: Attestation, v: JsonV) -> bool {
    &&& keys_within(v, seq!["teeClass", "measuredBoot", "platformEvidence", "sealedEvidence", "witnessKey", "validity"])
    &&& text_member(v, "teeClass"@) == Some(x.tee_class@)
    &&& measured_boot_is(x.measured_boot, member(v, "measuredBoot"@))
    &&& platform_evidence_is(x.platform_evidence, member(v, "platformEvidence"@))
    &&& sealed_evidence_is(x.sealed_evidence, member(v, "sealedEvidence"@))
    &&& text_member(v, "witnessKey"@) == Some(x.witness_key@)
    &&& validity_is(x.validity, member(v, "validity"@))
}

/// The JSON value of one attestation record.
pub open spec fn attestation_json(x: Attestation) -> JsonV {
    JsonV::Object(seq![
        ("teeClass"@, JsonV::Str(x.tee_class@)),
        ("measuredBoot"@, measured_boot_json(x.measured_boot)),
        ("platformEvidence"@, platform_evidence_json(x.platform_evidence)),
        ("sealedEvidence"@, sealed_evidence_json(x.sealed_evidence)),
        ("witnessKey"@, JsonV::Str(x.witness_key@)),
        ("validity"@, validity_json(x.validity)),
    ])
}

fn decode_attestation(v: &JsonValue) -> (r: Result<Attestation, Error>)
    ensures
        r matches Ok(x) ==> attestation_is(x, v@),
        r is Err ==> !exists|x: Attestation| attestation_is(x, v@),
        r matches Err(e) ==> e is Json,
{
    let allowed: [&'static str; 6] = ["teeClass", "measuredBoot", "platformEvidence", "sealedEvidence", "witnessKey", "validity"];
    assert(allowed@ == seq!["teeClass", "measuredBoot", "platformEvidence", "sealedEvidence", "witnessKey", "validity"]);
    check_object(v, &allowed)?;
    let tee_class = text_field(v, "teeClass")?;
    let measured_boot = decode_measured_boot(object_field(v, "measuredBoot")?)?;
    let platform_evidence = decode_platform_evidence(object_field(v, "platformEvidence")?)?;
    let sealed_evidence = decode_sealed_evidence(object_field(v, "sealedEvidence")?)?;
    let witness_key = text_field(v, "witnessKey")?;
    let validity = decode_validity(object_field(v, "validity")?)?;
    Ok(Attestation { tee_class, measured_boot, platform_evidence, sealed_evidence, witness_key, validity })
}

fn attestation_value(x: &Attestation) -> (r: JsonValue)
    ensures
        r@ == attestation_json(*x),
{
    let members = vec![
        ("teeClass".to_owned(), JsonValue::Str(x.tee_class.clone())),
        ("measuredBoot".to_owned(), measured_boot_value(&x.measured_boot)),
        ("platformEvidence".to_owned(), platform_evidence_value(&x.platform_evidence)),
        ("sealedEvidence".to_owned(), sealed_evidence_value(&x.sealed_evidence)),
        ("witnessKey".to_owned(), JsonValue::Str(x.witness_key.clone())),
        ("validity".to_owned(), validity_value(&x.validity)),
    ];
    proof {
        lemma_json_members(members@);
        assert(json_members(members@) =~= attestation_json(*x)->Object_0);
    }
    JsonValue::Object(members)
}

/// The operations-layer write-in.
#[derive(Debug, PartialEq, Eq)]
pub struct Adapter {
    pub system: String,
    pub endpoint: String,
    pub posted_at: String,
    pub ack_digest: String,
    pub ack_provenance: AckProvenance,
    pub mode: AdapterMode,
}

/// Whether `x` is what the JSON value `v` decodes to.
pub open spec fn adapter_is(x: Adapter, v: JsonV) -> bool {
    &&& keys_within(v, seq!["system", "endpoint", "postedAt", "ackDigest", "ackProvenance", "mode"])
    &&& text_member(v, "system"@) == Some(x.system@)
    &&& text_member(v, "endpoint"@) == Some(x.endpoint@)
    &&& text_member(v, "postedAt"@) == Some(x.posted_at@)
    &&& text_member(v, "ackDigest"@) == Some(x.ack_digest@)
    &&& text_member(v, "ackProvenance"@) matches Some(t) && ack_is(x.ack_provenance, t)
    &&& text_member(v, "mode"@) matches Some(t) && adapter_mode_of(t) == Some(x.mode)
}

/// The JSON value of one adapter record.
pub open spec fn adapter_json(x: Adapter) -> JsonV {
    JsonV::Object(seq![
        ("system"@, JsonV::Str(x.system@)),
        ("endpoint"@, JsonV::Str(x.endpoint@)),
        ("postedAt"@, JsonV::Str(x.posted_at@)),
        ("ackDigest"@, JsonV::Str(x.ack_digest@)),
        ("ackProvenance"@, JsonV::Str(ack_wire(x.ack_provenance))),
        ("mode"@, JsonV::Str(adapter_mode_text(x.mode))),
    ])
}

fn decode_adapter(v: &JsonValue) -> (r: Result<Adapter, Error>)
    ensures
        r matches Ok(x) ==> adapter_is(x, v@),
        r is Err ==> !exists|x: Adapter| adapter_is(x, v@),
        r matches Err(e) ==> e is Json,
{
    let allowed: [&'static str; 6] = ["system", "endpoint", "postedAt", "ackDigest", "ackProvenance", "mode"];
    assert(allowed@ == seq!["system", "endpoint", "postedAt", "ackDigest", "ackProvenance", "mode"]);
    check_object(v, &allowed)?;
    let system = text_field(v, "system")?;
    let endpoint = text_field(v, "endpoint")?;
    let posted_at = text_field(v, "postedAt")?;
    let ack_digest = text_field(v, "ackDigest")?;
    let ack_provenance = AckProvenance::from_wire(text_field(v, "ackProvenance")?.as_str());
    let mode = match AdapterMode::from_wire(text_field(v, "mode")?.as_str()) {
        Some(c) => c,
        None => {
            return Err(field_error("mode"));
        }
    };
    Ok(Adapter { system, endpoint, posted_at, ack_digest, ack_provenance, mode })
}

fn adapter_value(x: &Adapter) -> (r: JsonValue)
    ensures
        r@ == adapter_json(*x),
{
    let members = vec![
        ("system".to_owned(), JsonValue::Str(x.system.clone())),
        ("endpoint".to_owned(), JsonValue::Str(x.endpoint.clone())),
        ("postedAt".to_owned(), JsonValue::Str(x.posted_at.clone())),
        ("ackDigest".to_owned(), JsonValue::Str(x.ack_digest.clone())),
        ("ackProvenance".to_owned(), JsonValue::Str(x.ack_provenance.as_wire_str().to_owned())),
        ("mode".to_owned(), JsonValue::Str(x.mode.as_wire_str().to_owned())),
    ];
    proof {
        lemma_json_members(members@);
        assert(json_members(members@) =~= adapter_json(*x)->Object_0);
    }
    JsonValue::Object(members)
}

/// The receipt's position and link in its chain.
#[derive(Debug, PartialEq, Eq)]
pub struct Chain {
    pub seq: u64,
    pub prev_hash: Option<String>,
    pub hash: String,
}

/// Whether `x` is what the JSON value `v` decodes to.
pub open spec fn chain_is(x: Chain, v: JsonV) -> bool {
    &&& keys_within(v, seq!["seq", "prevHash", "hash"])
    &&& u64_member(v, "seq"@) == Some(x.seq)
    &&& nullable_member(v, "prevHash"@) == Some(opt_view(x.prev_hash))
    &&& text_member(v, "hash"@) == Some(x.hash@)
}

/// The JSON value of one chain record.
pub open spec fn chain_json(x: Chain) -> JsonV {
    JsonV::Object(seq![
        ("seq"@, JsonV::Int(x.seq as int)),
        ("prevHash"@, nullable_json(x.prev_hash)),
        ("hash"@, JsonV::Str(x.hash@)),
    ])
}

fn decode_chain(v: &JsonValue) -> (r: Result<Chain, Error>)
    ensures
        r matches Ok(x) ==> chain_is(x, v@),
        r is Err ==> !exists|x: Chain| chain_is(x, v@),
        r matches Err(e) ==> e is Json,
{
    let allowed: [&'static str; 3] = ["seq", "prevHash", "hash"];
    assert(allowed@ == seq!["seq", "prevHash", "hash"]);
    check_object(v, &allowed)?;
    let seq = u64_field(v, "seq")?;
    let prev_hash = nullable_field(v, "prevHash")?;
    let hash = text_field(v, "hash")?;
    Ok(Chain { seq, prev_hash, hash })
}

fn chain_value(x: &Chain) -> (r: JsonValue)
    ensures
        r@ == chain_json(*x),
{
    let members = vec![
        ("seq".to_owned(), JsonValue::Number(JsonNumber::UInt(x.seq))),
        ("prevHash".to_owned(), nullable_value(&x.prev_hash)),
        ("hash".to_owned(), JsonValue::Str(x.hash.clone())),
    ];
    proof {
        lemma_json_members(members@);
        assert(json_members(members@) =~= chain_json(*x)->Object_0);
    }
    JsonValue::Object(members)
}

/// Strongly typed `wilder.pser/0.4` payload.
#[derive(Debug, PartialEq, Eq)]
pub struct Payload {
    pub spec: String,
    pub id: String,
    pub ts: String,
    pub issuer_affiliation: IssuerAffiliation,
    pub site: Site,
    pub actor: Actor,
    pub engagement: Engagement,
    pub attestation: Attestation,
    pub adapter: Adapter,
    pub chain: Chain,
}

/// Whether `x` is what the JSON value `v` decodes to.
pub open spec fn payload_is(x: Payload, v: JsonV) -> bool {
    &&& keys_within(v, seq!["spec", "id", "ts", "issuerAffiliation", "site", "actor", "engagement", "attestation", "adapter", "chain"])
    &&& text_member(v, "spec"@) == Some(x.spec@)
    &&& text_member(v, "id"@) == Some(x.id@)
    &&& text_member(v, "ts"@) == Some(x.ts@)
    &&& text_member(v, "issuerAffiliation"@) matches Some(t) && affiliation_is(x.issuer_affiliation, t)
    &&& site_is(x.site, member(v, "site"@))
    &&& actor_is(x.actor, member(v, "actor"@))
    &&& engagement_is(x.engagement, member(v, "engagement"@))
    &&& attestation_is(x.attestation, member(v, "attestation"@))
    &&& adapter_is(x.adapter, member(v, "adapter"@))
    &&& chain_is(x.chain, member(v, "chain"@))
}

/// The JSON value of one payload record.
pub open spec fn payload_json(x: Payload) -> JsonV {
    JsonV::Object(seq![
        ("spec"@, JsonV::Str(x.spec@)),
        ("id"@, JsonV::Str(x.id@)),
        ("ts"@, JsonV::Str(x.ts@)),
        ("issuerAffiliation"@, JsonV::Str(affiliation_wire(x.issuer_affiliation))),
        ("site"@, site_json(x.site)),
        ("actor"@, actor_json(x.actor)),
        ("engagement"@, engagement_json(x.engagement)),
        ("attestation"@, attestation_json(x.attestation)),
        ("adapter"@, adapter_json(x.adapter)),
        ("chain"@, chain_json(x.chain)),
    ])
}

fn decode_payload(v: &JsonValue) -> (r: Result<Payload, Error>)
    ensures
        r matches Ok(x) ==> payload_is(x, v@),
        r is Err ==> !exists|x: Payload| payload_is(x, v@),
        r matches Err(e) ==> e is Json,
{
    let allowed: [&'static str; 10] = ["spec", "id", "ts", "issuerAffiliation", "site", "actor", "engagement", "attestation", "adapter", "chain"];
    assert(allowed@ == seq!["spec", "id", "ts", "issuerAffiliation", "site", "actor", "engagement", "attestation", "adapter", "chain"]);
    check_object(v, &allowed)?;
    let spec = text_field(v, "spec")?;
    let id = text_field(v, "id")?;
    let ts = text_field(v, "ts")?;
    let issuer_affiliation = IssuerAffiliation::from_wire(text_field(v, "issuerAffiliation")?.as_str());
    let site = decode_site(object_field(v, "site")?)?;
    let actor = decode_actor(object_field(v, "actor")?)?;
    let engagement = decode_engagement(object_field(v, "engagement")?)?;
    let attestation = decode_attestation(object_field(v, "attestation")?)?;
    let adapter = decode_adapter(object_field(v, "adapter")?)?;
    let chain = decode_chain(object_field(v, "chain")?)?;
    Ok(Payload { spec, id, ts, issuer_affiliation, site, actor, engagement, attestation, adapter, chain })
}

fn payload_value(x: &Payload) -> (r: JsonValue)
    ensures
        r@ == payload_json(*x),
{
    let members = vec![
        ("spec".to_owned(), JsonValue::Str(x.spec.clone())),
        ("id".to_owned(), JsonValue::Str(x.id.clone())),
        ("ts".to_owned(), JsonValue::Str(x.ts.clone())),
        ("issuerAffiliation".to_owned(), JsonValue::Str(x.issuer_affiliation.as_wire_str().to_owned())),
        ("site".to_owned(), site_value(&x.site)),
        ("actor".to_owned(), actor_value(&x.actor)),
        ("engagement".to_owned(), engagement_value(&x.engagement)),
        ("attestation".to_owned(), attestation_value(&x.attestation)),
        ("adapter".to_owned(), adapter_value(&x.adapter)),
        ("chain".to_owned(), chain_value(&x.chain)),
    ];
    proof {
        lemma_json_members(members@);
        assert(json_members(members@) =~= payload_json(*x)->Object_0);
    }
    JsonValue::Object(members)
}

/// The instant a UTC timestamp names, or the rule it breaks: it must end
/// in `Z` and parse as RFC 3339.
pub open spec fn utc_check(s: Seq<char>) -> Result<int, &'static str> {
    if !(s.len() > 0 && s.last() == 'Z') {
        Err("timestamp must use UTC Z notation")
    } else {
        match rfc3339_instant(s) {
            Some(n) => Ok(n),
            None => Err("timestamp must be valid RFC 3339"),
        }
    }
}

fn validate_utc(value: &str) -> (r: Result<i128, Error>)
    ensures
        match utc_check(value@) {
            Ok(n) => r matches Ok(x) && x as int == n,
            Err(m) => r == Err::<i128, Error>(Error::Validation(m)),
        },
{
    let chars = crate::text::str_chars(value);
    if chars.len() == 0 || chars[chars.len() - 1] != 'Z' {
        return Err(Error::Validation("timestamp must use UTC Z notation"));
    }
    match parse_rfc3339(value) {
        Some(n) => Ok(n),
        None => Err(Error::Validation("timestamp must be valid RFC 3339")),
    }
}

/// The rule an optional temporal window breaks, if any.
pub open spec fn window_problem(starts: Option<Seq<char>>, ends: Option<Seq<char>>) -> Option<&'static str> {
    if starts is Some && utc_check(starts->0) is Err {
        Some(utc_check(starts->0)->Err_0)
    } else if ends is Some && utc_check(ends->0) is Err {
        Some(utc_check(ends->0)->Err_0)
    } else if starts matches Some(s) && ends matches Some(e) && utc_check(e)->Ok_0 < utc_check(s)->Ok_0 {
        Some("temporal end precedes its start")
    } else {
        None
    }
}

fn validate_optional_window(starts: &Option<String>, ends: &Option<String>) -> (r: Result<(), Error>)
    ensures
        match window_problem(opt_view(*starts), opt_view(*ends)) {
            Some(m) => r == Err::<(), Error>(Error::Validation(m)),
            None => r is Ok,
        },
{
    let start = match starts {
        Some(s) => Some(validate_utc(s.as_str())?),
        None => None,
    };
    let end = match ends {
        Some(e) => Some(validate_utc(e.as_str())?),
        None => None,
    };
    if let (Some(a), Some(b)) = (start, end) {
        if b < a {
            return Err(Error::Validation("temporal end precedes its start"));
        }
    }
    Ok(())
}

/// The rule a `sha256:<hex>` text breaks, if any.
pub open spec fn sha_problem(s: Seq<char>) -> Option<&'static str> {
    if !has_sha256_prefix(s) {
        Some("digest prefix must be sha256:")
    } else if !is_sha256_text(s) {
        Some("digest must contain 64 lowercase hexadecimal digits")
    } else {
        None
    }
}

fn check_sha256(value: &str) -> (r: Result<(), Error>)
    ensures
        match sha_problem(value@) {
            Some(m) => r == Err::<(), Error>(Error::Validation(m)),
            None => r is Ok,
        },
{
    validate_sha256(value)
}

/// The first measured-boot component rule broken, from index `i` on.
pub open spec fn components_problem(cs: Seq<MeasuredBootComponent>, i: int) -> Option<&'static str>
    decreases cs.len() - i,
{
    if i < 0 || i >= cs.len() {
        None
    } else if cs[i].name@.len() == 0 {
        Some("measured-boot component name must not be empty")
    } else {
        match sha_problem(cs[i].digest@) {
            Some(m) => Some(m),
            None => components_problem(cs, i + 1),
        }
    }
}

/// The texts of a payload that must not be empty.
pub open spec fn required_texts(p: Payload) -> Seq<Seq<char>> {
    seq![
        p.id@, p.site.id@, p.site.envelope.id@, p.actor.id@, p.actor.operator@, p.engagement.id@, p.engagement.kind@,
        p.attestation.tee_class@, p.attestation.platform_evidence.encoding@, p.attestation.sealed_evidence.encoding@,
        p.attestation.witness_key@, p.adapter.system@, p.adapter.endpoint@,
    ]
}

/// Whether some text of a sequence is empty.
pub open spec fn any_empty(texts: Seq<Seq<char>>) -> bool {
    exists|i: int| 0 <= i < texts.len() && (#[trigger] texts[i]).len() == 0
}

/// The first profile rule a payload breaks, before its chain digest is
/// compared, in the order the rules are checked.
pub open spec fn payload_problem(p: Payload) -> Option<&'static str> {
    let start = utc_check(p.engagement.window.start@);
    let end = utc_check(p.engagement.window.end@);
    let not_before = utc_check(p.attestation.validity.not_before@);
    let not_after = utc_check(p.attestation.validity.not_after@);
    if p.spec@ != SPEC_VERSION@ {
        Some("unsupported spec version")
    } else if any_empty(required_texts(p)) {
        Some("required string must not be empty")
    } else if utc_check(p.ts@) is Err {
        Some(utc_check(p.ts@)->Err_0)
    } else if window_problem(opt_view(p.site.envelope.temporal.starts), opt_view(p.site.envelope.temporal.ends)) is Some {
        window_problem(opt_view(p.site.envelope.temporal.starts), opt_view(p.site.envelope.temporal.ends))
    } else if start is Err {
        Some(start->Err_0)
    } else if end is Err {
        Some(end->Err_0)
    } else if end->Ok_0 < start->Ok_0 {
        Some("engagement window end precedes its start")
    } else if utc_check(p.adapter.posted_at@) is Err {
        Some(utc_check(p.adapter.posted_at@)->Err_0)
    } else if sha_problem(p.site.envelope.digest@) is Some {
        sha_problem(p.site.envelope.digest@)
    } else if sha_problem(p.engagement.evidence_digest@) is Some {
        sha_problem(p.engagement.evidence_digest@)
    } else if sha_problem(p.attestation.measured_boot.chain@) is Some {
        sha_problem(p.attestation.measured_boot.chain@)
    } else if sha_problem(p.attestation.platform_evidence.digest@) is Some {
        sha_problem(p.attestation.platform_evidence.digest@)
    } else if sha_problem(p.attestation.sealed_evidence.digest@) is Some {
        sha_problem(p.attestation.sealed_evidence.digest@)
    } else if components_problem(p.attestation.measured_boot.components@, 0) is Some {
        components_problem(p.attestation.measured_boot.components@, 0)
    } else if not_before is Err {
        Some(not_before->Err_0)
    } else if not_after is Err {
        Some(not_after->Err_0)
    } else if not_after->Ok_0 <= not_before->Ok_0 {
        Some("attestation validity notAfter must be strictly later than notBefore")
    } else if sha_problem(p.adapter.ack_digest@) is Some {
        sha_problem(p.adapter.ack_digest@)
    } else if p.chain.seq == 0 && p.chain.prev_hash is Some {
        Some("sequence zero must have null prevHash")
    } else if p.chain.seq != 0 && p.chain.prev_hash is None {
        Some("nonzero sequence must include prevHash")
    } else if p.chain.seq != 0 && sha_problem(p.chain.prev_hash.unwrap()@) is Some {
        sha_problem(p.chain.prev_hash.unwrap()@)
    } else if sha_problem(p.chain.hash@) is Some {
        sha_problem(p.chain.hash@)
    } else {
        None
    }
}

/// The JSON value of a chain record without its `hash` member.
pub open spec fn chain_json_unhashed(x: Chain) -> JsonV {
    JsonV::Object(seq![
        ("seq"@, JsonV::Int(x.seq as int)),
        ("prevHash"@, nullable_json(x.prev_hash)),
    ])
}

/// The JSON value of a payload whose chain record has no `hash` member:
/// what the chain digest covers.
pub open spec fn payload_json_unhashed(x: Payload) -> JsonV {
    JsonV::Object(seq![
        ("spec"@, JsonV::Str(x.spec@)),
        ("id"@, JsonV::Str(x.id@)),
        ("ts"@, JsonV::Str(x.ts@)),
        ("issuerAffiliation"@, JsonV::Str(affiliation_wire(x.issuer_affiliation))),
        ("site"@, site_json(x.site)),
        ("actor"@, actor_json(x.actor)),
        ("engagement"@, engagement_json(x.engagement)),
        ("attestation"@, attestation_json(x.attestation)),
        ("adapter"@, adapter_json(x.adapter)),
        ("chain"@, chain_json_unhashed(x.chain)),
    ])
}

/// The chain digest of a payload: `sha256:` and the lowercase hex SHA-256
/// of the JCS form of the payload without `chain.hash`.
pub open spec fn expected_hash(p: Payload) -> Option<Seq<char>> {
    match jcs(payload_json_unhashed(p)) {
        Some(b) => Some(sha256_prefix() + hex_text(sha256_spec(b))),
        None => None,
    }
}

/// The outcome of every profile rule, the chain digest last.
pub open spec fn validation(p: Payload) -> Result<(), Error> {
    match payload_problem(p) {
        Some(m) => Err(Error::Validation(m)),
        None => match expected_hash(p) {
            None => Err(Error::Jcs(arbitrary())),
            Some(h) => if p.chain.hash@ == h {
                Ok(())
            } else {
                Err(Error::Validation("chain.hash does not match payload"))
            },
        },
    }
}

/// A payload that passes validation has its time windows in order: every
/// timestamp it carries is a UTC RFC 3339 instant, its site envelope ends
/// no earlier than it starts, its engagement window ends no earlier than
/// it starts, and its attestation is valid for a nonempty span.
pub proof fn lemma_validated_windows_ordered(p: Payload)
    requires
        validation(p) is Ok,
    ensures
        utc_check(p.ts@) is Ok,
        p.site.envelope.temporal.starts matches Some(s) ==> utc_check(s@) is Ok,
        p.site.envelope.temporal.ends matches Some(e) ==> utc_check(e@) is Ok,
        (p.site.envelope.temporal.starts is Some && p.site.envelope.temporal.ends is Some)
            ==> utc_check(p.site.envelope.temporal.starts->Some_0@)->Ok_0
                <= utc_check(p.site.envelope.temporal.ends->Some_0@)->Ok_0,
        utc_check(p.engagement.window.start@) is Ok && utc_check(p.engagement.window.end@) is Ok
            && utc_check(p.engagement.window.start@)->Ok_0 <= utc_check(p.engagement.window.end@)->Ok_0,
        utc_check(p.attestation.validity.not_before@) is Ok && utc_check(p.attestation.validity.not_after@) is Ok
            && utc_check(p.attestation.validity.not_before@)->Ok_0 < utc_check(p.attestation.validity.not_after@)->Ok_0,
{
}

/// A site envelope that ends before it starts is refused for that reason
/// once the profile version, the required texts and the timestamp pass.
pub proof fn lemma_inverted_envelope_refused(p: Payload)
    requires
        p.spec@ == SPEC_VERSION@,
        !any_empty(required_texts(p)),
        utc_check(p.ts@) is Ok,
        p.site.envelope.temporal.starts matches Some(s) && utc_check(s@) is Ok,
        p.site.envelope.temporal.ends matches Some(e) && utc_check(e@) is Ok,
        utc_check(p.site.envelope.temporal.ends->Some_0@)->Ok_0 < utc_check(p.site.envelope.temporal.starts->Some_0@)->Ok_0,
    ensures
        validation(p) == Err::<(), Error>(Error::Validation("temporal end precedes its start")),
{
}

/// Whether a validation outcome is the one a payload has: the same success,
/// the same validation rule, or a JCS failure.
pub open spec fn validation_matches(r: Result<(), Error>, p: Payload) -> bool {
    match validation(p) {
        Ok(()) => r is Ok,
        Err(Error::Jcs(_)) => r matches Err(e) && e is Jcs,
        Err(e) => r == Err::<(), Error>(e),
    }
}

fn check_components(cs: &Vec<MeasuredBootComponent>) -> (r: Result<(), Error>)
    ensures
        match components_problem(cs@, 0) {
            Some(m) => r == Err::<(), Error>(Error::Validation(m)),
            None => r is Ok,
        },
{
    let mut i: usize = 0;
    while i < cs.len()
        invariant
            i <= cs@.len(),
            components_problem(cs@, 0) == components_problem(cs@, i as int),
        decreases cs@.len() - i,
    {
        if cs[i].name.as_str().is_empty() {
            return Err(Error::Validation("measured-boot component name must not be empty"));
        }
        check_sha256(cs[i].digest.as_str())?;
        i = i + 1;
    }
    Ok(())
}

fn chain_value_unhashed(x: &Chain) -> (r: JsonValue)
    ensures
        r@ == chain_json_unhashed(*x),
{
    let members = vec![
        ("seq".to_owned(), JsonValue::Number(JsonNumber::UInt(x.seq))),
        ("prevHash".to_owned(), nullable_value(&x.prev_hash)),
    ];
    proof {
        lemma_json_members(members@);
        assert(json_members(members@) =~= chain_json_unhashed(*x)->Object_0);
    }
    JsonValue::Object(members)
}

/// What the `spec` probe reads: the `spec` text of an object, or the single
/// text of a one-element array (the sequence form of a one-member record).
pub open spec fn spec_probe(v: JsonV) -> Option<Seq<char>> {
    match v {
        JsonV::Object(_) => text_member(v, "spec"@),
        JsonV::Array(items) => if items.len() == 1 && items[0] is Str { Some(items[0]->Str_0) } else { None },
        _ => None,
    }
}

/// Rejects a version this build does not implement before the full decode,
/// so that a receipt from another revision is reported as such rather than
/// by a member its revision lacks. A document without a readable `spec` is
/// left to the full decode.
fn check_spec_version(v: &JsonValue) -> (r: Result<(), Error>)
    ensures
        match spec_probe(v@) {
            Some(s) => if s != SPEC_VERSION@ {
                r == Err::<(), Error>(Error::Validation("unsupported spec version"))
            } else {
                r is Ok
            },
            None => r is Ok,
        },
{
    let probe: Option<&String> = match v {
        JsonValue::Object(_) => match get_member(v, "spec") {
            Some(JsonValue::Str(t)) => Some(t),
            _ => None,
        },
        JsonValue::Array(items) => {
            proof {
                crate::json::lemma_json_items(items@);
            }
            if items.len() == 1 {
                match &items[0] {
                    JsonValue::Str(t) => Some(t),
                    _ => None,
                }
            } else {
                None
            }
        }
        _ => None,
    };
    match probe {
        Some(t) => if !str_eq(t.as_str(), SPEC_VERSION) {
            Err(Error::Validation("unsupported spec version"))
        } else {
            Ok(())
        },
        None => Ok(()),
    }
}

impl Payload {
    fn unhashed_value(&self) -> (r: JsonValue)
        ensures
            r@ == payload_json_unhashed(*self),
    {
        let members = vec![
            ("spec".to_owned(), JsonValue::Str(self.spec.clone())),
            ("id".to_owned(), JsonValue::Str(self.id.clone())),
            ("ts".to_owned(), JsonValue::Str(self.ts.clone())),
            ("issuerAffiliation".to_owned(), JsonValue::Str(self.issuer_affiliation.as_wire_str().to_owned())),
            ("site".to_owned(), site_value(&self.site)),
            ("actor".to_owned(), actor_value(&self.actor)),
            ("engagement".to_owned(), engagement_value(&self.engagement)),
            ("attestation".to_owned(), attestation_value(&self.attestation)),
            ("adapter".to_owned(), adapter_value(&self.adapter)),
            ("chain".to_owned(), chain_value_unhashed(&self.chain)),
        ];
        proof {
            lemma_json_members(members@);
            assert(json_members(members@) =~= payload_json_unhashed(*self)->Object_0);
        }
        JsonValue::Object(members)
    }

    /// The chain digest this payload's content calls for.
    pub fn expected_chain_hash(&self) -> (r: Result<String, Error>)
        ensures
            match expected_hash(*self) {
                Some(h) => r matches Ok(t) && t@ == h,
                None => r matches Err(e) && e is Jcs,
            },
    {
        let value = self.unhashed_value();
        let canonical = canonicalize_value(&value)?;
        Ok(sha256_prefixed(canonical.as_slice()))
    }

    /// Checks every profile rule, the chain digest last.
    pub fn validate(&self) -> (r: Result<(), Error>)
        ensures
            validation_matches(r, *self),
            r is Ok && self.site.envelope.temporal.starts is Some && self.site.envelope.temporal.ends is Some ==>
                utc_check(self.site.envelope.temporal.starts->Some_0@) is Ok
                && utc_check(self.site.envelope.temporal.ends->Some_0@) is Ok
                && utc_check(self.site.envelope.temporal.starts->Some_0@)->Ok_0
                    <= utc_check(self.site.envelope.temporal.ends->Some_0@)->Ok_0,
    {
        if !str_eq(self.spec.as_str(), SPEC_VERSION) {
            return Err(Error::Validation("unsupported spec version"));
        }
        let required: [&str; 13] = [
            self.id.as_str(), self.site.id.as_str(), self.site.envelope.id.as_str(), self.actor.id.as_str(),
            self.actor.operator.as_str(), self.engagement.id.as_str(), self.engagement.kind.as_str(),
            self.attestation.tee_class.as_str(), self.attestation.platform_evidence.encoding.as_str(),
            self.attestation.sealed_evidence.encoding.as_str(), self.attestation.witness_key.as_str(),
            self.adapter.system.as_str(), self.adapter.endpoint.as_str(),
        ];
        let ghost texts = required_texts(*self);
        assert(required@.len() == 13);
        assert(forall|i: int| 0 <= i < 13 ==> (#[trigger] required@[i])@ == texts[i]);
        let mut i: usize = 0;
        while i < 13
            invariant
                i <= 13,
                required@.len() == 13,
                texts == required_texts(*self),
                self.spec@ == SPEC_VERSION@,
                texts.len() == 13,
                forall|m: int| 0 <= m < 13 ==> (#[trigger] required@[m])@ == texts[m],
                forall|m: int| 0 <= m < i ==> (#[trigger] texts[m]).len() > 0,
            decreases 13 - i,
        {
            if required[i].is_empty() {
                assert(texts[i as int].len() == 0);
                return Err(Error::Validation("required string must not be empty"));
            }
            i = i + 1;
        }
        validate_utc(self.ts.as_str())?;
        validate_optional_window(&self.site.envelope.temporal.starts, &self.site.envelope.temporal.ends)?;
        let start = validate_utc(self.engagement.window.start.as_str())?;
        let end = validate_utc(self.engagement.window.end.as_str())?;
        if end < start {
            return Err(Error::Validation("engagement window end precedes its start"));
        }
        validate_utc(self.adapter.posted_at.as_str())?;
        check_sha256(self.site.envelope.digest.as_str())?;
        check_sha256(self.engagement.evidence_digest.as_str())?;
        check_sha256(self.attestation.measured_boot.chain.as_str())?;
        check_sha256(self.attestation.platform_evidence.digest.as_str())?;
        check_sha256(self.attestation.sealed_evidence.digest.as_str())?;
        check_components(&self.attestation.measured_boot.components)?;
        let validity_start = validate_utc(self.attestation.validity.not_before.as_str())?;
        let validity_end = validate_utc(self.attestation.validity.not_after.as_str())?;
        if validity_end <= validity_start {
            return Err(Error::Validation("attestation validity notAfter must be strictly later than notBefore"));
        }
        check_sha256(self.adapter.ack_digest.as_str())?;
        match &self.chain.prev_hash {
            None => if self.chain.seq != 0 {
                return Err(Error::Validation("nonzero sequence must include prevHash"));
            },
            Some(previous) => if self.chain.seq == 0 {
                return Err(Error::Validation("sequence zero must have null prevHash"));
            } else {
                check_sha256(previous.as_str())?;
            },
        }
        check_sha256(self.chain.hash.as_str())?;
        let expected = self.expected_chain_hash()?;
        if !str_eq(self.chain.hash.as_str(), expected.as_str()) {
            return Err(Error::Validation("chain.hash does not match payload"));
        }
        Ok(())
    }
}

/// What the JSON text `bytes` reads as, up to the payload decode: `None`
/// when it is not JSON or names another revision, else its value.
pub open spec fn readable(bytes: Seq<u8>) -> Option<JsonV> {
    match json_parse(bytes) {
        Some(v) => if spec_probe(v) matches Some(t) && t != SPEC_VERSION@ { None } else { Some(v) },
        None => None,
    }
}

/// Whether payload `p` is the production form of a record `document`
/// holds: the record's content, with the record's recomputed chain digest.
pub open spec fn rehashed_from(p: Payload, document: JsonV) -> bool {
    exists|q: Payload| #[trigger] payload_is(q, document) && payload_json_unhashed(p) == payload_json_unhashed(q)
        && expected_hash(q) == Some(p.chain.hash@)
}

/// Whether production accepts a document: it names this revision or none,
/// holds a payload record whose chain digest can be recomputed, and every
/// production form of it passes validation.
pub open spec fn production_accepts(document: JsonV) -> bool {
    &&& !(spec_probe(document) matches Some(t) && t != SPEC_VERSION@)
    &&& exists|q: Payload| #[trigger] payload_is(q, document)
    &&& forall|q: Payload| #[trigger] payload_is(q, document) ==> expected_hash(q) is Some
    &&& forall|p: Payload| #[trigger] rehashed_from(p, document) ==> validation(p) is Ok
}

/// Whether `bytes` are a canonical payload: a readable JSON text holding a
/// payload record, where every record it holds passes validation and has
/// exactly these bytes as its JCS form.
pub open spec fn canonical_payload(bytes: Seq<u8>) -> bool {
    &&& readable(bytes) is Some
    &&& exists|q: Payload| #[trigger] payload_is(q, readable(bytes)->Some_0)
    &&& forall|q: Payload| #[trigger] payload_is(q, readable(bytes)->Some_0)
        ==> validation(q) is Ok && jcs(payload_json(q)) == Some(bytes)
}

/// The error a JSON text gets before any payload rule is checked: not JSON,
/// another revision, or a shape that no payload has.
pub open spec fn read_error(bytes: Seq<u8>, e: Error) -> bool {
    match json_parse(bytes) {
        None => e is Json,
        Some(v) => if spec_probe(v) matches Some(t) && t != SPEC_VERSION@ {
            e == Error::Validation("unsupported spec version")
        } else {
            e is Json && !exists|q: Payload| payload_is(q, v)
        },
    }
}

fn read_payload(bytes: &[u8]) -> (r: Result<Payload, Error>)
    ensures
        r matches Ok(p) ==> readable(bytes@) matches Some(v) && payload_is(p, v),
        r matches Err(e) ==> read_error(bytes@, e),
{
    let value = match parse_json(bytes) {
        Ok(v) => v,
        Err(message) => {
            return Err(Error::Json(message));
        }
    };
    check_spec_version(&value)?;
    decode_payload(&value)
}

proof fn lemma_components_is_unique(xs: Seq<MeasuredBootComponent>, ys: Seq<MeasuredBootComponent>, v: JsonV)
    requires
        components_is(xs, v),
        components_is(ys, v),
    ensures
        components_json(xs) == components_json(ys),
{
    let items = v->Array_0;
    assert forall|i: int| 0 <= i < xs.len() implies #[trigger] measured_boot_component_json(xs[i])
        == measured_boot_component_json(ys[i]) by {
        lemma_measured_boot_component_is_unique(xs[i], ys[i], items[i]);
    }
    assert(Seq::new(xs.len(), |i: int| measured_boot_component_json(xs[i]))
        =~= Seq::new(ys.len(), |i: int| measured_boot_component_json(ys[i])));
}

proof fn lemma_temporal_is_unique(x: Temporal, y: Temporal, v: JsonV)
    requires
        temporal_is(x, v),
        temporal_is(y, v),
    ensures
        temporal_json(x) == temporal_json(y),
{
    assert(nullable_json(x.starts) == nullable_json(y.starts));
    assert(nullable_json(x.ends) == nullable_json(y.ends));
}

proof fn lemma_site_is_unique(x: Site, y: Site, v: JsonV)
    requires
        site_is(x, v),
        site_is(y, v),
    ensures
        site_json(x) == site_json(y),
{
    assert(x.id@ == y.id@);
    assert(x.class == y.class);
    lemma_site_envelope_is_unique(x.envelope, y.envelope, member(v, "envelope"@));
}

proof fn lemma_site_envelope_is_unique(x: SiteEnvelope, y: SiteEnvelope, v: JsonV)
    requires
        site_envelope_is(x, v),
        site_envelope_is(y, v),
    ensures
        site_envelope_json(x) == site_envelope_json(y),
{
    assert(x.id@ == y.id@);
    assert(x.digest@ == y.digest@);
    assert(nullable_json(x.geobounds) == nullable_json(y.geobounds));
    lemma_temporal_is_unique(x.temporal, y.temporal, member(v, "temporal"@));
}

proof fn lemma_actor_is_unique(x: Actor, y: Actor, v: JsonV)
    requires
        actor_is(x, v),
        actor_is(y, v),
    ensures
        actor_json(x) == actor_json(y),
{
    assert(x.id@ == y.id@);
    assert(x.class == y.class);
    assert(x.operator@ == y.operator@);
}

proof fn lemma_window_is_unique(x: Window, y: Window, v: JsonV)
    requires
        window_is(x, v),
        window_is(y, v),
    ensures
        window_json(x) == window_json(y),
{
    assert(x.start@ == y.start@);
    assert(x.end@ == y.end@);
}

proof fn lemma_engagement_is_unique(x: Engagement, y: Engagement, v: JsonV)
    requires
        engagement_is(x, v),
        engagement_is(y, v),
    ensures
        engagement_json(x) == engagement_json(y),
{
    assert(x.id@ == y.id@);
    lemma_window_is_unique(x.window, y.window, member(v, "window"@));
    assert(x.kind@ == y.kind@);
    assert(x.outcome_class == y.outcome_class);
    assert(x.envelope_conformance == y.envelope_conformance);
    assert(x.evidence_digest@ == y.evidence_digest@);
}

proof fn lemma_measured_boot_component_is_unique(x: MeasuredBootComponent, y: MeasuredBootComponent, v: JsonV)
    requires
        measured_boot_component_is(x, v),
        measured_boot_component_is(y, v),
    ensures
        measured_boot_component_json(x) == measured_boot_component_json(y),
{
    assert(x.name@ == y.name@);
    assert(x.digest@ == y.digest@);
}

proof fn lemma_measured_boot_is_unique(x: MeasuredBoot, y: MeasuredBoot, v: JsonV)
    requires
        measured_boot_is(x, v),
        measured_boot_is(y, v),
    ensures
        measured_boot_json(x) == measured_boot_json(y),
{
    assert(x.chain@ == y.chain@);
    lemma_components_is_unique(x.components@, y.components@, member(v, "components"@));
}

proof fn lemma_platform_evidence_is_unique(x: PlatformEvidence, y: PlatformEvidence, v: JsonV)
    requires
        platform_evidence_is(x, v),
        platform_evidence_is(y, v),
    ensures
        platform_evidence_json(x) == platform_evidence_json(y),
{
    assert(x.encoding@ == y.encoding@);
    assert(x.digest@ == y.digest@);
}

proof fn lemma_sealed_evidence_is_unique(x: SealedEvidence, y: SealedEvidence, v: JsonV)
    requires
        sealed_evidence_is(x, v),
        sealed_evidence_is(y, v),
    ensures
        sealed_evidence_json(x) == sealed_evidence_json(y),
{
    assert(x.digest@ == y.digest@);
    assert(x.size_bytes == y.size_bytes);
    assert(x.encoding@ == y.encoding@);
}

proof fn lemma_validity_is_unique(x: Validity, y: Validity, v: JsonV)
    requires
        validity_is(x, v),
        validity_is(y, v),
    ensures
        validity_json(x) == validity_json(y),
{
    assert(x.not_before@ == y.not_before@);
    assert(x.not_after@ == y.not_after@);
}

proof fn lemma_attestation_is_unique(x: Attestation, y: Attestation, v: JsonV)
    requires
        attestation_is(x, v),
        attestation_is(y, v),
    ensures
        attestation_json(x) == attestation_json(y),
{
    assert(x.tee_class@ == y.tee_class@);
    lemma_measured_boot_is_unique(x.measured_boot, y.measured_boot, member(v, "measuredBoot"@));
    lemma_platform_evidence_is_unique(x.platform_evidence, y.platform_evidence, member(v, "platformEvidence"@));
    lemma_sealed_evidence_is_unique(x.sealed_evidence, y.sealed_evidence, member(v, "sealedEvidence"@));
    assert(x.witness_key@ == y.witness_key@);
    lemma_validity_is_unique(x.validity, y.validity, member(v, "validity"@));
}

proof fn lemma_adapter_is_unique(x: Adapter, y: Adapter, v: JsonV)
    requires
        adapter_is(x, v),
        adapter_is(y, v),
    ensures
        adapter_json(x) == adapter_json(y),
{
    assert(x.system@ == y.system@);
    assert(x.endpoint@ == y.endpoint@);
    assert(x.posted_at@ == y.posted_at@);
    assert(x.ack_digest@ == y.ack_digest@);
    assert(ack_wire(x.ack_provenance) == ack_wire(y.ack_provenance));
    assert(x.mode == y.mode);
}

proof fn lemma_chain_is_unique(x: Chain, y: Chain, v: JsonV)
    requires
        chain_is(x, v),
        chain_is(y, v),
    ensures
        chain_json(x) == chain_json(y),
        chain_json_unhashed(x) == chain_json_unhashed(y),
{
    assert(x.seq == y.seq);
    assert(nullable_json(x.prev_hash) == nullable_json(y.prev_hash));
    assert(x.hash@ == y.hash@);
}

pub(crate) proof fn lemma_payload_is_unique(x: Payload, y: Payload, v: JsonV)
    requires
        payload_is(x, v),
        payload_is(y, v),
    ensures
        payload_json(x) == payload_json(y),
        payload_json_unhashed(x) == payload_json_unhashed(y),
{
    assert(x.spec@ == y.spec@);
    assert(x.id@ == y.id@);
    assert(x.ts@ == y.ts@);
    assert(affiliation_wire(x.issuer_affiliation) == affiliation_wire(y.issuer_affiliation));
    lemma_site_is_unique(x.site, y.site, member(v, "site"@));
    lemma_actor_is_unique(x.actor, y.actor, member(v, "actor"@));
    lemma_engagement_is_unique(x.engagement, y.engagement, member(v, "engagement"@));
    lemma_attestation_is_unique(x.attestation, y.attestation, member(v, "attestation"@));
    lemma_adapter_is_unique(x.adapter, y.adapter, member(v, "adapter"@));
    lemma_chain_is_unique(x.chain, y.chain, member(v, "chain"@));
}

impl Payload {
    /// Parses JSON and validates every profile rule, including `chain.hash`.
    pub fn from_json(bytes: &[u8]) -> (r: Result<Payload, Error>)
        ensures
            r matches Ok(p) ==> readable(bytes@) matches Some(v) && payload_is(p, v) && validation(p) is Ok,
            r matches Err(e) ==> read_error(bytes@, e) || exists|q: Payload|
                readable(bytes@) is Some && #[trigger] payload_is(q, readable(bytes@)->Some_0) && validation_matches(Err(e), q),
    {
        let payload = read_payload(bytes)?;
        match payload.validate() {
            Ok(()) => Ok(payload),
            Err(e) => Err(e),
        }
    }

    /// Parses producer input, replaces the supplied `chain.hash` with the
    /// digest of the content, and validates the result.
    pub fn from_json_for_production(bytes: &[u8]) -> (r: Result<Payload, Error>)
        ensures
            r matches Ok(p) ==> validation(p) is Ok && exists|q: Payload| readable(bytes@) is Some
                && #[trigger] payload_is(q, readable(bytes@)->Some_0) && payload_json_unhashed(p) == payload_json_unhashed(q)
                && expected_hash(q) == Some(p.chain.hash@),
            r matches Err(e) ==> read_error(bytes@, e) || (e is Jcs || e is Validation),
    {
        let value = match parse_json(bytes) {
            Ok(v) => v,
            Err(message) => {
                return Err(Error::Json(message));
            }
        };
        Payload::from_value_for_production(&value)
    }

    /// Decodes a producer's JSON value, replaces the supplied `chain.hash`
    /// with the digest of the content, and validates the result.
    pub fn from_value_for_production(value: &JsonValue) -> (r: Result<Payload, Error>)
        ensures
            r matches Ok(p) ==> validation(p) is Ok && !(spec_probe(value@) matches Some(t) && t != SPEC_VERSION@)
                && exists|q: Payload| #[trigger] payload_is(q, value@)
                && payload_json_unhashed(p) == payload_json_unhashed(q) && expected_hash(q) == Some(p.chain.hash@),
            spec_probe(value@) matches Some(t) && t != SPEC_VERSION@ ==>
                r == Err::<Payload, Error>(Error::Validation("unsupported spec version")),
            r matches Err(e) ==> e is Json || e is Jcs || e is Validation,
            r matches Err(e) && e is Json ==> !exists|q: Payload| payload_is(q, value@),
            r matches Ok(p) ==> rehashed_from(p, value@),
            production_accepts(value@) ==> r is Ok,
    {
        check_spec_version(value)?;
        let mut payload = decode_payload(value)?;
        let ghost decoded = payload;
        payload.update_chain_hash()?;
        proof {
            assert(payload_json_unhashed(payload) =~~= payload_json_unhashed(decoded));
            assert(payload_is(decoded, value@));
            assert(rehashed_from(payload, value@));
        }
        match payload.validate() {
            Ok(()) => Ok(payload),
            Err(e) => Err(e),
        }
    }

    /// Replaces `chain.hash` with the digest of the payload's content; on
    /// failure the payload is unchanged.
    fn update_chain_hash(&mut self) -> (r: Result<(), Error>)
        ensures
            r is Ok ==> expected_hash(*old(self)) == Some(final(self).chain.hash@),
            r is Err ==> *final(self) == *old(self) && expected_hash(*old(self)) is None,
            r matches Err(e) ==> e is Jcs,
            final(self).spec == old(self).spec,
            final(self).id == old(self).id,
            final(self).ts == old(self).ts,
            final(self).issuer_affiliation == old(self).issuer_affiliation,
            final(self).site == old(self).site,
            final(self).actor == old(self).actor,
            final(self).engagement == old(self).engagement,
            final(self).attestation == old(self).attestation,
            final(self).adapter == old(self).adapter,
            final(self).chain.seq == old(self).chain.seq,
            final(self).chain.prev_hash == old(self).chain.prev_hash,
    {
        let hash = self.expected_chain_hash()?;
        self.chain.hash = hash;
        Ok(())
    }

    /// Returns the RFC 8785 JCS serialization of the complete payload.
    pub fn to_jcs(&self) -> (r: Result<Vec<u8>, Error>)
        ensures
            match jcs(payload_json(*self)) {
                Some(b) => r matches Ok(v) && v@ == b,
                None => r matches Err(e) && e is Jcs,
            },
    {
        let value = payload_value(self);
        canonicalize_value(&value)
    }

    /// Parses a payload that must be its own JCS serialization.
    pub fn parse_canonical(bytes: &[u8]) -> (r: Result<Payload, Error>)
        ensures
            r matches Ok(p) ==> readable(bytes@) matches Some(v) && payload_is(p, v) && validation(p) is Ok
                && jcs(payload_json(p)) == Some(bytes@),
            r matches Err(e) ==> e is NonCanonicalPayload || e is Jcs || read_error(bytes@, e) || exists|q: Payload|
                readable(bytes@) is Some && #[trigger] payload_is(q, readable(bytes@)->Some_0) && validation_matches(Err(e), q),
            canonical_payload(bytes@) ==> r is Ok,
    {
        let payload = match Payload::from_json(bytes) {
            Ok(p) => p,
            Err(e) => {
                proof {
                    if canonical_payload(bytes@) {
                        if !read_error(bytes@, e) {
                            let q = choose|q: Payload| readable(bytes@) is Some && #[trigger] payload_is(q, readable(bytes@)->Some_0)
                                && validation_matches(Err(e), q);
                            assert(validation(q) is Ok);
                        }
                    }
                }
                return Err(e);
            },
        };
        let canonical = payload.to_jcs()?;
        if !crate::cbor::bytes_eq(canonical.as_slice(), bytes) {
            return Err(Error::NonCanonicalPayload);
        }
        proof {
            assert(canonical@ =~= bytes@);
        }
        Ok(payload)
    }

    /// Returns the profile version.
    pub fn spec(&self) -> (r: &str)
        ensures
            r@ == self.spec@,
    {
        self.spec.as_str()
    }

    /// Returns the stable site identifier used as the CWT subject.
    pub fn site_id(&self) -> (r: &str)
        ensures
            r@ == self.site.id@,
    {
        self.site.id.as_str()
    }

    /// Returns the witness key identifier used as the CWT issuer.
    pub fn witness_key(&self) -> (r: &str)
        ensures
            r@ == self.attestation.witness_key@,
    {
        self.attestation.witness_key.as_str()
    }

    /// Returns the stored chain digest.
    pub fn chain_hash(&self) -> (r: &str)
        ensures
            r@ == self.chain.hash@,
    {
        self.chain.hash.as_str()
    }

    /// Returns the receipt's position in its chain.
    pub fn chain_seq(&self) -> (r: u64)
        ensures
            r == self.chain.seq,
    {
        self.chain.seq
    }

    /// Returns the preceding receipt's `chain.hash`, or `None` at sequence
    /// zero.
    pub fn chain_prev_hash(&self) -> (r: Option<&str>)
        ensures
            match self.chain.prev_hash {
                Some(h) => r matches Some(t) && t@ == h@,
                None => r is None,
            },
    {
        match &self.chain.prev_hash {
            Some(h) => Some(h.as_str()),
            None => None,
        }
    }

    /// Returns whether the Site Owner and the Issuer are affiliated parties;
    /// an unrecognized value is never folded into a named one.
    pub fn issuer_affiliation(&self) -> (r: &IssuerAffiliation)
        ensures
            *r == self.issuer_affiliation,
    {
        &self.issuer_affiliation
    }

    /// Returns how the acknowledgement in `adapter.ackDigest` was obtained.
    pub fn adapter_ack_provenance(&self) -> (r: &AckProvenance)
        ensures
            *r == self.adapter.ack_provenance,
    {
        &self.adapter.ack_provenance
    }

    /// Returns the stable actor identifier.
    pub fn actor_id(&self) -> (r: &str)
        ensures
            r@ == self.actor.id@,
    {
        self.actor.id.as_str()
    }

    /// Returns the operator string associated with the actor.
    pub fn actor_operator(&self) -> (r: &str)
        ensures
            r@ == self.actor.operator@,
    {
        self.actor.operator.as_str()
    }

    /// Returns the stable engagement identifier.
    pub fn engagement_id(&self) -> (r: &str)
        ensures
            r@ == self.engagement.id@,
    {
        self.engagement.id.as_str()
    }

    /// Returns the engagement type string.
    pub fn engagement_type(&self) -> (r: &str)
        ensures
            r@ == self.engagement.kind@,
    {
        self.engagement.kind.as_str()
    }

    /// Returns the RFC 3339 UTC start of the engagement window.
    pub fn engagement_window_start(&self) -> (r: &str)
        ensures
            r@ == self.engagement.window.start@,
    {
        self.engagement.window.start.as_str()
    }

    /// Returns the RFC 3339 UTC end of the engagement window.
    pub fn engagement_window_end(&self) -> (r: &str)
        ensures
            r@ == self.engagement.window.end@,
    {
        self.engagement.window.end.as_str()
    }

    /// Returns the SHA-256 digest of the raw evidence bundle.
    pub fn engagement_evidence_digest(&self) -> (r: &str)
        ensures
            r@ == self.engagement.evidence_digest@,
    {
        self.engagement.evidence_digest.as_str()
    }

    /// Returns the TEE class identifier.
    pub fn attestation_tee_class(&self) -> (r: &str)
        ensures
            r@ == self.attestation.tee_class@,
    {
        self.attestation.tee_class.as_str()
    }

    /// Returns the SHA-256 digest of the sealed evidence blob.
    pub fn sealed_evidence_digest(&self) -> (r: &str)
        ensures
            r@ == self.attestation.sealed_evidence.digest@,
    {
        self.attestation.sealed_evidence.digest.as_str()
    }

    /// Returns the size in bytes of the sealed evidence blob.
    pub fn sealed_evidence_size_bytes(&self) -> (r: u64)
        ensures
            r == self.attestation.sealed_evidence.size_bytes,
    {
        self.attestation.sealed_evidence.size_bytes
    }

    /// Returns the sealed evidence encoding identifier.
    pub fn sealed_evidence_encoding(&self) -> (r: &str)
        ensures
            r@ == self.attestation.sealed_evidence.encoding@,
    {
        self.attestation.sealed_evidence.encoding.as_str()
    }

    /// Returns the operations-layer system identifier.
    pub fn adapter_system(&self) -> (r: &str)
        ensures
            r@ == self.adapter.system@,
    {
        self.adapter.system.as_str()
    }

    /// Returns the opaque per-system endpoint identifier.
    pub fn adapter_endpoint(&self) -> (r: &str)
        ensures
            r@ == self.adapter.endpoint@,
    {
        self.adapter.endpoint.as_str()
    }

    /// Returns the RFC 3339 UTC timestamp at which the write-in was posted.
    pub fn adapter_posted_at(&self) -> (r: &str)
        ensures
            r@ == self.adapter.posted_at@,
    {
        self.adapter.posted_at.as_str()
    }

    /// Returns the SHA-256 digest of the operations-layer acknowledgement.
    pub fn adapter_ack_digest(&self) -> (r: &str)
        ensures
            r@ == self.adapter.ack_digest@,
    {
        self.adapter.ack_digest.as_str()
    }

    /// Returns whether the receipt is marked `WRITE_ONLY`; every decoded
    /// payload is.
    pub fn adapter_is_write_only(&self) -> (r: bool)
        ensures
            r == (self.adapter.mode == AdapterMode::WriteOnly),
    {
        match self.adapter.mode {
            AdapterMode::WriteOnly => true,
        }
    }
}

} // verus!
