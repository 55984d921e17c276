//! The reference site producer: evidence bundles and their digest,
//! deterministic receipt identifiers, and the signed receipt for one
//! engagement.
use vstd::prelude::*;
use vstd::string::StrSliceExecFns;
use crate::json::{JsonNumber, JsonValue, JsonV, jcs, json_members, lemma_json_members, json_items, lemma_json_items, canonicalize_value};
use crate::digest::{sha256, sha256_spec, sha256_prefixed, sha256_prefix, hex_text, lower_hex};
use crate::payload::{AckProvenance, IssuerAffiliation, Payload, SPEC_VERSION, payload_is, validation, payload_json,
    payload_json_unhashed, expected_hash, ack_wire, affiliation_wire, lemma_payload_is_unique, chain_json, chain_json_unhashed,
    site_json, attestation_json, rehashed_from, production_accepts};
use crate::envelope::{produce_ed25519, produced};
use crate::crypto::{ed25519_public_key, ed25519_public};
use crate::text::{str_chars, string_from_chars, str_eq};

verus! {

/// Lexicographic order of texts by code point, which is the byte order of
/// their UTF-8 encodings (the order of `String`).
pub open spec fn text_le(a: Seq<char>, b: Seq<char>) -> bool
    decreases a.len(),
{
    if a.len() == 0 {
        true
    } else if b.len() == 0 {
        false
    } else if a[0] < b[0] {
        true
    } else if a[0] == b[0] {
        text_le(a.drop_first(), b.drop_first())
    } else {
        false
    }
}

/// The order of texts is total.
pub proof fn lemma_text_le_total(a: Seq<char>, b: Seq<char>)
    ensures
        text_le(a, b) || text_le(b, a),
    decreases a.len(),
{
    if a.len() > 0 && b.len() > 0 && a[0] == b[0] {
        lemma_text_le_total(a.drop_first(), b.drop_first());
    }
}

/// The order of texts is transitive.
pub proof fn lemma_text_le_transitive(a: Seq<char>, b: Seq<char>, c: Seq<char>)
    requires
        text_le(a, b),
        text_le(b, c),
    ensures
        text_le(a, c),
    decreases a.len(),
{
    if a.len() > 0 && b.len() > 0 && c.len() > 0 && a[0] == b[0] && b[0] == c[0] {
        lemma_text_le_transitive(a.drop_first(), b.drop_first(), c.drop_first());
    }
}

/// The order of texts is reflexive.
pub proof fn lemma_text_le_reflexive(a: Seq<char>)
    ensures
        text_le(a, a),
    decreases a.len(),
{
    if a.len() > 0 {
        lemma_text_le_reflexive(a.drop_first());
    }
}

/// Two texts ordered both ways are equal.
pub proof fn lemma_text_le_antisymmetric(a: Seq<char>, b: Seq<char>)
    requires
        text_le(a, b),
        text_le(b, a),
    ensures
        a == b,
    decreases a.len(),
{
    if a.len() > 0 && b.len() > 0 {
        lemma_text_le_antisymmetric(a.drop_first(), b.drop_first());
        assert(a =~= seq![a[0]] + a.drop_first());
        assert(b =~= seq![b[0]] + b.drop_first());
        assert(a[0] == b[0]);
        assert(a =~= b);
    } else {
        assert(a.len() == 0 && b.len() == 0);
        assert(a =~= b);
    }
}

fn text_le_exec(a: &str, b: &str) -> (r: bool)
    ensures
        r == text_le(a@, b@),
{
    let x = str_chars(a);
    let y = str_chars(b);
    let mut i: usize = 0;
    proof {
        assert(a@.skip(0) =~= a@);
        assert(b@.skip(0) =~= b@);
    }
    while i < x.len() && i < y.len() && x[i] == y[i]
        invariant
            i <= x@.len(),
            i <= y@.len(),
            x@ == a@,
            y@ == b@,
            text_le(a@, b@) == text_le(a@.skip(i as int), b@.skip(i as int)),
        decreases x@.len() - i,
    {
        proof {
            assert(a@.skip(i as int).drop_first() =~= a@.skip(i + 1));
            assert(b@.skip(i as int).drop_first() =~= b@.skip(i + 1));
        }
        i = i + 1;
    }
    if i == x.len() {
        true
    } else if i == y.len() {
        false
    } else {
        x[i] < y[i]
    }
}

/// One file included in an evidence bundle.
#[derive(Debug)]
pub struct EvidenceFile {
    /// Relative path from the evidence root, using forward slashes.
    pub path: String,
    /// Byte size of the file.
    pub size_bytes: u64,
    /// Lowercase `sha256:<64 hex>` digest of the raw bytes.
    pub digest: String,
}

/// The model of an evidence file.
pub open spec fn file_view(f: EvidenceFile) -> (Seq<char>, u64, Seq<char>) {
    (f.path@, f.size_bytes, f.digest@)
}

/// The models of a sequence of evidence files.
pub open spec fn files_view(fs: Seq<EvidenceFile>) -> Seq<(Seq<char>, u64, Seq<char>)> {
    fs.map_values(|f: EvidenceFile| file_view(f))
}

/// Whether evidence files are ordered by path.
pub open spec fn sorted_by_path(fs: Seq<(Seq<char>, u64, Seq<char>)>) -> bool {
    forall|i: int, j: int| 0 <= i < j < fs.len() ==> text_le(#[trigger] fs[i].0, #[trigger] fs[j].0)
}

/// Whether no path occurs twice among evidence files.
pub open spec fn distinct_paths(fs: Seq<(Seq<char>, u64, Seq<char>)>) -> bool {
    forall|i: int, j: int| 0 <= i < j < fs.len() ==> #[trigger] fs[i].0 != #[trigger] fs[j].0
}

/// Two path-sorted lists holding the same files, no path twice, are the
/// same list: a bundle's file order, and so its evidence digest, does not
/// depend on the order in which the files were given.
pub proof fn lemma_sorted_files_unique(a: Seq<(Seq<char>, u64, Seq<char>)>, b: Seq<(Seq<char>, u64, Seq<char>)>)
    requires
        sorted_by_path(a),
        sorted_by_path(b),
        distinct_paths(a),
        a.to_multiset() == b.to_multiset(),
    ensures
        a == b,
    decreases a.len(),
{
    broadcast use vstd::seq_lib::group_to_multiset_ensures;
    assert(a.len() == a.to_multiset().len());
    assert(b.len() == b.to_multiset().len());
    if a.len() == 0 {
        assert(a =~= b);
    } else {
        assert(a.contains(a[0]));
        assert(a.to_multiset().count(a[0]) > 0);
        assert(b.contains(a[0]));
        let k = choose|k: int| 0 <= k < b.len() && b[k] == a[0];
        assert(b.contains(b[0]));
        assert(b.to_multiset().count(b[0]) > 0);
        assert(a.contains(b[0]));
        let m = choose|m: int| 0 <= m < a.len() && a[m] == b[0];
        if k == 0 {
            lemma_text_le_reflexive(b[0].0);
        } else {
            assert(text_le(b[0].0, b[k].0));
        }
        if m == 0 {
            lemma_text_le_reflexive(a[0].0);
        } else {
            assert(text_le(a[0].0, a[m].0));
        }
        lemma_text_le_antisymmetric(a[0].0, b[0].0);
        if m != 0 {
            assert(a[0].0 != a[m].0);
        }
        assert(a[0] == b[0]);
        let a1 = a.drop_first();
        let b1 = b.drop_first();
        assert(a.remove(0) =~= a1);
        assert(b.remove(0) =~= b1);
        assert(a1.to_multiset() == a.to_multiset().remove(a[0]));
        assert(b1.to_multiset() == b.to_multiset().remove(b[0]));
        assert forall|i: int, j: int| 0 <= i < j < a1.len() implies text_le(#[trigger] a1[i].0, #[trigger] a1[j].0) by {
            assert(a1[i] == a[i + 1] && a1[j] == a[j + 1]);
        }
        assert forall|i: int, j: int| 0 <= i < j < b1.len() implies text_le(#[trigger] b1[i].0, #[trigger] b1[j].0) by {
            assert(b1[i] == b[i + 1] && b1[j] == b[j + 1]);
        }
        assert forall|i: int, j: int| 0 <= i < j < a1.len() implies #[trigger] a1[i].0 != #[trigger] a1[j].0 by {
            assert(a1[i] == a[i + 1] && a1[j] == a[j + 1]);
        }
        lemma_sorted_files_unique(a1, b1);
        assert(a =~= b) by {
            assert forall|i: int| 0 <= i < a.len() implies a[i] == b[i] by {
                if i > 0 {
                    assert(a[i] == a1[i - 1] && b[i] == b1[i - 1]);
                }
            }
        }
    }
}

/// A reordering of files with distinct paths has distinct paths.
proof fn lemma_distinct_paths_reordered(a: Seq<(Seq<char>, u64, Seq<char>)>, b: Seq<(Seq<char>, u64, Seq<char>)>)
    requires
        a.to_multiset() == b.to_multiset(),
        distinct_paths(a),
    ensures
        distinct_paths(b),
    decreases b.len(),
{
    broadcast use vstd::seq_lib::group_to_multiset_ensures;
    if b.len() > 0 {
        let x = b.last();
        let n = b.len() - 1;
        assert(b.contains(x)) by { assert(b[n as int] == x); }
        assert(b.to_multiset().count(x) > 0);
        assert(a.to_multiset().count(x) > 0);
        assert(a.contains(x));
        let m = choose|m: int| 0 <= m < a.len() && a[m] == x;
        let a1 = a.remove(m);
        let b1 = b.drop_last();
        assert(b.remove(n as int) =~= b1);
        assert(a1.to_multiset() == a.to_multiset().remove(a[m]));
        assert(b1.to_multiset() == b.to_multiset().remove(b[n as int]));
        assert forall|i: int, j: int| 0 <= i < j < a1.len() implies #[trigger] a1[i].0 != #[trigger] a1[j].0 by {
            let ii = if i < m { i } else { i + 1 };
            let jj = if j < m { j } else { j + 1 };
            assert(a1[i] == a[ii] && a1[j] == a[jj]);
        }
        lemma_distinct_paths_reordered(a1, b1);
        assert forall|i: int, j: int| 0 <= i < j < b.len() implies #[trigger] b[i].0 != #[trigger] b[j].0 by {
            if j == n {
                assert(b[i] == b1[i]);
                assert(b1.contains(b1[i]));
                assert(b1.to_multiset().count(b[i]) > 0);
                assert(a1.to_multiset().count(b[i]) > 0);
                assert(a1.contains(b[i]));
                let p = choose|p: int| 0 <= p < a1.len() && a1[p] == b[i];
                let pp = if p < m { p } else { p + 1 };
                assert(a[pp] == b[i]);
                assert(pp != m);
                if pp < m {
                    assert(a[pp].0 != a[m].0);
                } else {
                    assert(a[m].0 != a[pp].0);
                }
            } else {
                assert(b[i] == b1[i] && b[j] == b1[j]);
            }
        }
    }
}

/// A bundle's file order does not depend on the order the files were given
/// in: path-sorted reorderings `ra` and `rb` of two file lists `a` and `b`
/// that hold the same files, no path twice, are the same list.
pub proof fn lemma_sorted_reorderings_agree(a: Seq<(Seq<char>, u64, Seq<char>)>, b: Seq<(Seq<char>, u64, Seq<char>)>,
    ra: Seq<(Seq<char>, u64, Seq<char>)>, rb: Seq<(Seq<char>, u64, Seq<char>)>)
    requires
        a.to_multiset() == b.to_multiset(),
        distinct_paths(a),
        sorted_by_path(ra),
        ra.to_multiset() == a.to_multiset(),
        sorted_by_path(rb),
        rb.to_multiset() == b.to_multiset(),
    ensures
        ra == rb,
        distinct_paths(ra),
{
    lemma_distinct_paths_reordered(a, ra);
    lemma_sorted_files_unique(ra, rb);
}

/// The evidence-bundle format hashed into the engagement evidence digest.
#[derive(Debug)]
pub struct EvidenceBundle {
    /// The engagement identifier this bundle belongs to.
    pub engagement_id: String,
    /// Files included in the bundle, ordered by path.
    pub files: Vec<EvidenceFile>,
}

impl EvidenceBundle {
    /// Creates a bundle whose files are sorted by relative path; files with
    /// equal paths keep their order.
    pub fn new_sorted(engagement_id: &str, files: Vec<EvidenceFile>) -> (b: Self)
        ensures
            b.engagement_id@ == engagement_id@,
            sorted_by_path(files_view(b.files@)),
            files_view(b.files@).to_multiset() == files_view(files@).to_multiset(),
    {
        let mut sorted: Vec<EvidenceFile> = Vec::new();
        let mut rest = files;
        let ghost input = files_view(rest@);
        let mut taken: usize = 0;
        let ghost total = rest@.len();
        proof {
            broadcast use vstd::seq_lib::group_to_multiset_ensures, vstd::multiset::group_multiset_axioms;
            assert(files_view(sorted@) =~= Seq::empty());
            assert(files_view(sorted@).to_multiset() =~= vstd::multiset::Multiset::empty());
            assert(files_view(sorted@).to_multiset().add(files_view(rest@).to_multiset()) =~= input.to_multiset());
        }
        while rest.len() > 0
            invariant
                sorted_by_path(files_view(sorted@)),
                files_view(sorted@).to_multiset().add(files_view(rest@).to_multiset()) == input.to_multiset(),
            decreases rest@.len(),
        {
            let ghost before_rest = rest@;
            let file = rest.pop().unwrap();
            proof {
                assert(before_rest == rest@.push(file));
                assert(files_view(before_rest) =~= files_view(rest@).push(file_view(file)));
                vstd::seq_lib::to_multiset_build(files_view(rest@), file_view(file));
            }
            let mut pos: usize = 0;
            while pos < sorted.len() && text_le_exec(sorted[pos].path.as_str(), file.path.as_str())
                invariant
                    pos <= sorted@.len(),
                    forall|k: int| 0 <= k < pos ==> text_le(#[trigger] sorted@[k].path@, file.path@),
                decreases sorted@.len() - pos,
            {
                pos = pos + 1;
            }
            let ghost before = files_view(sorted@);
            let ghost fv = file_view(file);
            proof {
                assert forall|k: int| 0 <= k < pos implies text_le(#[trigger] before[k].0, fv.0) by {
                    assert(before[k] == file_view(sorted@[k]));
                }
                if pos < sorted@.len() {
                    assert(before[pos as int] == file_view(sorted@[pos as int]));
                    assert(!text_le(before[pos as int].0, fv.0));
                }
            }
            sorted.insert(pos, file);
            proof {
                assert(files_view(sorted@) =~= before.insert(pos as int, fv));
                vstd::seq_lib::to_multiset_insert(before, pos as int, fv);
                let after = files_view(sorted@);
                assert forall|i: int, j: int| 0 <= i < j < after.len() implies text_le(#[trigger] after[i].0, #[trigger] after[j].0) by {
                    if i < pos && j < pos {
                        assert(after[i] == before[i] && after[j] == before[j]);
                    } else if i < pos && j == pos {
                        assert(after[i] == before[i]);
                    } else if i < pos && j > pos {
                        assert(after[i] == before[i] && after[j] == before[j - 1]);
                        if i < j - 1 {
                            assert(text_le(before[i].0, before[j - 1].0));
                        }
                    } else if i == pos {
                        assert(after[j] == before[j - 1]);
                        lemma_text_le_total(before[pos as int].0, fv.0);
                        if j - 1 > pos {
                            assert(text_le(before[pos as int].0, before[j - 1].0));
                            lemma_text_le_transitive(fv.0, before[pos as int].0, before[j - 1].0);
                        }
                    } else {
                        assert(after[i] == before[i - 1] && after[j] == before[j - 1]);
                    }
                }
                assert(files_view(sorted@).to_multiset().add(files_view(rest@).to_multiset()) =~= input.to_multiset());
            }
        }
        proof {
            broadcast use vstd::seq_lib::group_to_multiset_ensures, vstd::multiset::group_multiset_axioms;
            assert(files_view(rest@) =~= Seq::empty());
            assert(files_view(rest@).to_multiset() =~= vstd::multiset::Multiset::empty());
            assert(files_view(sorted@).to_multiset() =~= input.to_multiset());
        }
        EvidenceBundle { engagement_id: engagement_id.to_owned(), files: sorted }
    }
}

/// The 16 identifier bytes: the first half of a SHA-256 digest with the
/// version-4 and RFC 4122 variant bits set.
pub open spec fn uuid_bytes(h: Seq<u8>) -> Seq<u8> {
    h.take(16).update(6, (h[6] & 0x0f) | 0x40).update(8, (h[8] & 0x3f) | 0x80)
}

/// The 8-4-4-4-12 lowercase hexadecimal form of 16 bytes.
pub open spec fn uuid_text(b: Seq<u8>) -> Seq<char> {
    hex_text(b.subrange(0, 4)) + seq!['-'] + hex_text(b.subrange(4, 6)) + seq!['-'] + hex_text(b.subrange(6, 8))
        + seq!['-'] + hex_text(b.subrange(8, 10)) + seq!['-'] + hex_text(b.subrange(10, 16))
}

fn push_segment(out: &mut Vec<char>, b: &[u8; 16], from: usize, to: usize)
    requires
        from <= to <= 16,
        old(out)@.len() <= 100,
    ensures
        final(out)@ == old(out)@ + hex_text(b@.subrange(from as int, to as int)),
{
    let mut seg: Vec<u8> = Vec::new();
    let mut i: usize = from;
    while i < to
        invariant
            from <= i <= to <= 16,
            seg@ == b@.subrange(from as int, i as int),
        decreases to - i,
    {
        seg.push(b[i]);
        i = i + 1;
        proof {
            assert(seg@ =~= b@.subrange(from as int, i as int));
        }
    }
    crate::digest::push_hex(out, seg.as_slice());
}

/// A UUIDv4-formatted text derived from `input`, deterministically: the
/// first 16 bytes of its SHA-256 digest with the version and variant bits
/// set (RFC 4122 Section 4.4).
pub fn deterministic_uuid_v4(input: &[u8]) -> (s: String)
    ensures
        s@ == uuid_text(uuid_bytes(sha256_spec(input@))),
{
    let hash = sha256(input);
    let mut bytes: [u8; 16] = [0u8; 16];
    let mut i: usize = 0;
    while i < 16
        invariant
            i <= 16,
            hash@.len() == 32,
            forall|k: int| 0 <= k < i ==> bytes@[k] == hash@[k],
        decreases 16 - i,
    {
        bytes.set(i, hash[i]);
        i = i + 1;
    }
    let b6 = (bytes[6] & 0x0f) | 0x40;
    bytes.set(6, b6);
    let b8 = (bytes[8] & 0x3f) | 0x80;
    bytes.set(8, b8);
    proof {
        assert(bytes@ =~= uuid_bytes(hash@));
    }
    let mut out: Vec<char> = Vec::new();
    push_segment(&mut out, &bytes, 0, 4);
    out.push('-');
    push_segment(&mut out, &bytes, 4, 6);
    out.push('-');
    push_segment(&mut out, &bytes, 6, 8);
    out.push('-');
    push_segment(&mut out, &bytes, 8, 10);
    out.push('-');
    push_segment(&mut out, &bytes, 10, 16);
    proof {
        assert(out@ =~= uuid_text(uuid_bytes(hash@)));
    }
    string_from_chars(out.as_slice())
}

/// Errors produced while constructing a site receipt.
#[derive(Debug)]
pub enum SiteError {
    /// The evidence bundle's engagement id differs from the request's.
    EvidenceMismatch,
    /// Wire-format validation failed.
    WireError(String),
    /// JSON encoding failed.
    JsonError(String),
    /// The site configuration is invalid.
    InvalidConfig(String),
}

/// The text of a site error's message.
pub open spec fn site_error_text(e: SiteError) -> Seq<char> {
    match e {
        SiteError::EvidenceMismatch => "evidence bundle engagement id does not match request engagement id"@,
        SiteError::WireError(m) => "wire-format validation failed: "@ + m@,
        SiteError::JsonError(m) => "json encoding failed: "@ + m@,
        SiteError::InvalidConfig(m) => "invalid site configuration: "@ + m@,
    }
}

impl SiteError {
    /// The human-readable message of this error.
    pub fn message(&self) -> (r: String)
        ensures
            r@ == site_error_text(*self),
    {
        match self {
            SiteError::EvidenceMismatch => "evidence bundle engagement id does not match request engagement id".to_owned(),
            SiteError::WireError(m) => crate::text::concat("wire-format validation failed: ", m.as_str()),
            SiteError::JsonError(m) => crate::text::concat("json encoding failed: ", m.as_str()),
            SiteError::InvalidConfig(m) => crate::text::concat("invalid site configuration: ", m.as_str()),
        }
    }
}

/// The JSON value of one evidence file.
pub open spec fn file_json(f: (Seq<char>, u64, Seq<char>)) -> JsonV {
    JsonV::Object(seq![("path"@, JsonV::Str(f.0)), ("sizeBytes"@, JsonV::Int(f.1 as int)), ("digest"@, JsonV::Str(f.2))])
}

/// The JSON value of an evidence bundle.
pub open spec fn bundle_json(engagement_id: Seq<char>, files: Seq<(Seq<char>, u64, Seq<char>)>) -> JsonV {
    JsonV::Object(seq![
        ("engagementId"@, JsonV::Str(engagement_id)),
        ("files"@, JsonV::Array(Seq::new(files.len(), |i: int| file_json(files[i])))),
    ])
}

fn file_value(f: &EvidenceFile) -> (r: JsonValue)
    ensures
        r@ == file_json(file_view(*f)),
{
    let members = vec![
        ("path".to_owned(), JsonValue::Str(f.path.clone())),
        ("sizeBytes".to_owned(), JsonValue::Number(JsonNumber::UInt(f.size_bytes))),
        ("digest".to_owned(), JsonValue::Str(f.digest.clone())),
    ];
    proof {
        lemma_json_members(members@);
        assert(json_members(members@) =~= file_json(file_view(*f))->Object_0);
    }
    JsonValue::Object(members)
}

impl EvidenceBundle {
    /// The JSON value of this bundle.
    pub fn to_value(&self) -> (r: JsonValue)
        ensures
            r@ == bundle_json(self.engagement_id@, files_view(self.files@)),
    {
        let mut items: Vec<JsonValue> = Vec::new();
        let mut i: usize = 0;
        while i < self.files.len()
            invariant
                i <= self.files@.len(),
                items@.len() == i,
                forall|m: int| 0 <= m < i ==> (#[trigger] items@[m])@ == file_json(file_view(self.files@[m])),
            decreases self.files@.len() - i,
        {
            items.push(file_value(&self.files[i]));
            i = i + 1;
        }
        proof {
            lemma_json_items(items@);
            assert(json_items(items@) =~= Seq::new(self.files@.len(), |m: int| file_json(files_view(self.files@)[m])));
        }
        let members = vec![
            ("engagementId".to_owned(), JsonValue::Str(self.engagement_id.clone())),
            ("files".to_owned(), JsonValue::Array(items)),
        ];
        proof {
            lemma_json_members(members@);
            assert(json_members(members@) =~= bundle_json(self.engagement_id@, files_view(self.files@))->Object_0);
        }
        JsonValue::Object(members)
    }

    /// The RFC 8785 canonical JSON of this bundle: the bytes its digest
    /// covers.
    pub fn to_jcs(&self) -> (r: Result<Vec<u8>, SiteError>)
        ensures
            match jcs(bundle_json(self.engagement_id@, files_view(self.files@))) {
                Some(b) => r matches Ok(v) && v@ == b,
                None => r matches Err(e) && e is WireError,
            },
    {
        let value = self.to_value();
        match canonicalize_value(&value) {
            Ok(bytes) => Ok(bytes),
            Err(e) => Err(SiteError::WireError(e.message())),
        }
    }
}

/// Identity and adapter configuration for a site producer.
#[derive(Debug)]
pub struct SiteConfig {
    pub site_id: String,
    pub site_class: String,
    pub envelope_id: String,
    pub envelope_digest: String,
    pub envelope_temporal_starts: Option<String>,
    pub envelope_temporal_ends: Option<String>,
    pub envelope_geobounds: Option<String>,
    /// A standing relationship between two principals; there is no default.
    pub issuer_affiliation: IssuerAffiliation,
    pub actor_id: String,
    pub actor_class: String,
    pub actor_operator: String,
    pub attestation_tee_class: String,
    pub attestation_platform_evidence_encoding: String,
    pub attestation_platform_evidence_digest: String,
    pub attestation_measured_boot_chain: String,
    /// Ordered measured-boot component names and digests.
    pub attestation_measured_boot_components: Vec<(String, String)>,
    pub attestation_witness_key: String,
    pub attestation_validity_not_before: String,
    pub attestation_validity_not_after: String,
    pub adapter_system: String,
    pub adapter_endpoint: String,
}

/// Transient inputs for one site engagement.
#[derive(Debug)]
pub struct EngagementRequest {
    pub engagement_id: String,
    pub engagement_type: String,
    pub window_start: String,
    pub window_end: String,
    pub outcome_class: String,
    pub envelope_conformance: String,
    pub evidence: EvidenceBundle,
    pub adapter_ack_digest: String,
    /// A per-engagement fact the producer must state; there is no default.
    pub adapter_ack_provenance: AckProvenance,
    pub adapter_posted_at: String,
    pub chain_seq: u64,
    pub chain_prev_hash: Option<String>,
}

/// The placeholder chain digest the producer replaces.
pub const PLACEHOLDER_CHAIN_HASH: &'static str = "sha256:0000000000000000000000000000000000000000000000000000000000000000";

/// The JSON value of optional text.
pub open spec fn opt_json(s: Option<String>) -> JsonV {
    match s {
        Some(t) => JsonV::Str(t@),
        None => JsonV::Null,
    }
}

/// The JSON array of measured-boot components from `(name, digest)` pairs.
pub open spec fn components_doc(cs: Seq<(String, String)>) -> JsonV {
    JsonV::Array(Seq::new(cs.len(), |i: int| JsonV::Object(seq![("name"@, JsonV::Str(cs[i].0@)), ("digest"@, JsonV::Str(cs[i].1@))])))
}

/// The payload document the producer builds from its configuration, the
/// request, the timestamp and the evidence digest and size.
pub open spec fn site_document(c: SiteConfig, r: EngagementRequest, id: Seq<char>, ts: Seq<char>, digest: Seq<char>, size: u64) -> JsonV {
    JsonV::Object(seq![
        ("spec"@, JsonV::Str(SPEC_VERSION@)),
        ("id"@, JsonV::Str(id)),
        ("ts"@, JsonV::Str(ts)),
        ("issuerAffiliation"@, JsonV::Str(affiliation_wire(c.issuer_affiliation))),
        ("site"@, JsonV::Object(seq![
            ("id"@, JsonV::Str(c.site_id@)),
            ("class"@, JsonV::Str(c.site_class@)),
            ("envelope"@, JsonV::Object(seq![
                ("id"@, JsonV::Str(c.envelope_id@)),
                ("digest"@, JsonV::Str(c.envelope_digest@)),
                ("geobounds"@, opt_json(c.envelope_geobounds)),
                ("temporal"@, JsonV::Object(seq![
                    ("starts"@, opt_json(c.envelope_temporal_starts)),
                    ("ends"@, opt_json(c.envelope_temporal_ends)),
                ])),
            ])),
        ])),
        ("actor"@, JsonV::Object(seq![
            ("id"@, JsonV::Str(c.actor_id@)),
            ("class"@, JsonV::Str(c.actor_class@)),
            ("operator"@, JsonV::Str(c.actor_operator@)),
        ])),
        ("engagement"@, JsonV::Object(seq![
            ("id"@, JsonV::Str(r.engagement_id@)),
            ("window"@, JsonV::Object(seq![("start"@, JsonV::Str(r.window_start@)), ("end"@, JsonV::Str(r.window_end@))])),
            ("type"@, JsonV::Str(r.engagement_type@)),
            ("outcomeClass"@, JsonV::Str(r.outcome_class@)),
            ("envelopeConformance"@, JsonV::Str(r.envelope_conformance@)),
            ("evidenceDigest"@, JsonV::Str(digest)),
        ])),
        ("attestation"@, JsonV::Object(seq![
            ("teeClass"@, JsonV::Str(c.attestation_tee_class@)),
            ("measuredBoot"@, JsonV::Object(seq![
                ("chain"@, JsonV::Str(c.attestation_measured_boot_chain@)),
                ("components"@, components_doc(c.attestation_measured_boot_components@)),
            ])),
            ("platformEvidence"@, JsonV::Object(seq![
                ("encoding"@, JsonV::Str(c.attestation_platform_evidence_encoding@)),
                ("digest"@, JsonV::Str(c.attestation_platform_evidence_digest@)),
            ])),
            ("sealedEvidence"@, JsonV::Object(seq![
                ("digest"@, JsonV::Str(digest)),
                ("sizeBytes"@, JsonV::Int(size as int)),
                ("encoding"@, JsonV::Str("opaque/1"@)),
            ])),
            ("witnessKey"@, JsonV::Str(c.attestation_witness_key@)),
            ("validity"@, JsonV::Object(seq![
                ("notBefore"@, JsonV::Str(c.attestation_validity_not_before@)),
                ("notAfter"@, JsonV::Str(c.attestation_validity_not_after@)),
            ])),
        ])),
        ("adapter"@, JsonV::Object(seq![
            ("system"@, JsonV::Str(c.adapter_system@)),
            ("endpoint"@, JsonV::Str(c.adapter_endpoint@)),
            ("postedAt"@, JsonV::Str(r.adapter_posted_at@)),
            ("ackDigest"@, JsonV::Str(r.adapter_ack_digest@)),
            ("ackProvenance"@, JsonV::Str(ack_wire(r.adapter_ack_provenance))),
            ("mode"@, JsonV::Str("WRITE_ONLY"@)),
        ])),
        ("chain"@, JsonV::Object(seq![
            ("seq"@, JsonV::Int(r.chain_seq as int)),
            ("prevHash"@, opt_json(r.chain_prev_hash)),
            ("hash"@, JsonV::Str(PLACEHOLDER_CHAIN_HASH@)),
        ])),
    ])
}

fn text_value(s: &str) -> (r: JsonValue)
    ensures
        r@ == JsonV::Str(s@),
{
    JsonValue::Str(s.to_owned())
}

fn opt_value(s: &Option<String>) -> (r: JsonValue)
    ensures
        r@ == opt_json(*s),
{
    match s {
        Some(t) => JsonValue::Str(t.clone()),
        None => JsonValue::Null,
    }
}

fn object(members: Vec<(String, JsonValue)>) -> (r: JsonValue)
    ensures
        r@ == JsonV::Object(json_members(members@)),
{
    JsonValue::Object(members)
}

fn components_value(cs: &Vec<(String, String)>) -> (r: JsonValue)
    ensures
        r@ == components_doc(cs@),
{
    let mut items: Vec<JsonValue> = Vec::new();
    let mut i: usize = 0;
    while i < cs.len()
        invariant
            i <= cs@.len(),
            items@.len() == i,
            forall|m: int| 0 <= m < i ==> (#[trigger] items@[m])@ == JsonV::Object(seq![("name"@, JsonV::Str(cs@[m].0@)), ("digest"@, JsonV::Str(cs@[m].1@))]),
        decreases cs@.len() - i,
    {
        let members = vec![("name".to_owned(), text_value(cs[i].0.as_str())), ("digest".to_owned(), text_value(cs[i].1.as_str()))];
        proof {
            lemma_json_members(members@);
            assert(json_members(members@) =~= seq![("name"@, JsonV::Str(cs@[i as int].0@)), ("digest"@, JsonV::Str(cs@[i as int].1@))]);
        }
        items.push(object(members));
        i = i + 1;
    }
    proof {
        lemma_json_items(items@);
        assert(json_items(items@) =~= components_doc(cs@)->Array_0);
    }
    JsonValue::Array(items)
}

fn site_document_value(c: &SiteConfig, r: &EngagementRequest, id: &str, ts: &str, digest: &str, size: u64) -> (v: JsonValue)
    ensures
        v@ == site_document(*c, *r, id@, ts@, digest@, size),
{
    let ghost doc = site_document(*c, *r, id@, ts@, digest@, size);
    let temporal = vec![("starts".to_owned(), opt_value(&c.envelope_temporal_starts)), ("ends".to_owned(), opt_value(&c.envelope_temporal_ends))];
    proof {
        lemma_json_members(temporal@);
        assert(json_members(temporal@) =~= doc->Object_0[4].1->Object_0[2].1->Object_0[3].1->Object_0);
    }
    let temporal_v = object(temporal);
    assert(temporal_v@ == doc->Object_0[4].1->Object_0[2].1->Object_0[3].1);
    let envelope = vec![
        ("id".to_owned(), text_value(c.envelope_id.as_str())),
        ("digest".to_owned(), text_value(c.envelope_digest.as_str())),
        ("geobounds".to_owned(), opt_value(&c.envelope_geobounds)),
        ("temporal".to_owned(), temporal_v),
    ];
    proof {
        lemma_json_members(envelope@);
        assert(json_members(envelope@) =~= doc->Object_0[4].1->Object_0[2].1->Object_0);
    }
    let envelope_v = object(envelope);
    assert(envelope_v@ == doc->Object_0[4].1->Object_0[2].1);
    let site = vec![
        ("id".to_owned(), text_value(c.site_id.as_str())),
        ("class".to_owned(), text_value(c.site_class.as_str())),
        ("envelope".to_owned(), envelope_v),
    ];
    proof {
        lemma_json_members(site@);
        assert(json_members(site@) =~= doc->Object_0[4].1->Object_0);
    }
    let site_v = object(site);
    assert(site_v@ == doc->Object_0[4].1);
    let actor = vec![
        ("id".to_owned(), text_value(c.actor_id.as_str())),
        ("class".to_owned(), text_value(c.actor_class.as_str())),
        ("operator".to_owned(), text_value(c.actor_operator.as_str())),
    ];
    proof {
        lemma_json_members(actor@);
        assert(json_members(actor@) =~= doc->Object_0[5].1->Object_0);
    }
    let actor_v = object(actor);
    assert(actor_v@ == doc->Object_0[5].1);
    let window = vec![("start".to_owned(), text_value(r.window_start.as_str())), ("end".to_owned(), text_value(r.window_end.as_str()))];
    proof {
        lemma_json_members(window@);
        assert(json_members(window@) =~= doc->Object_0[6].1->Object_0[1].1->Object_0);
    }
    let window_v = object(window);
    assert(window_v@ == doc->Object_0[6].1->Object_0[1].1);
    let engagement = vec![
        ("id".to_owned(), text_value(r.engagement_id.as_str())),
        ("window".to_owned(), window_v),
        ("type".to_owned(), text_value(r.engagement_type.as_str())),
        ("outcomeClass".to_owned(), text_value(r.outcome_class.as_str())),
        ("envelopeConformance".to_owned(), text_value(r.envelope_conformance.as_str())),
        ("evidenceDigest".to_owned(), text_value(digest)),
    ];
    proof {
        lemma_json_members(engagement@);
        assert(json_members(engagement@) =~= doc->Object_0[6].1->Object_0);
    }
    let engagement_v = object(engagement);
    assert(engagement_v@ == doc->Object_0[6].1);
    let measured = vec![
        ("chain".to_owned(), text_value(c.attestation_measured_boot_chain.as_str())),
        ("components".to_owned(), components_value(&c.attestation_measured_boot_components)),
    ];
    proof {
        lemma_json_members(measured@);
        assert(json_members(measured@) =~= doc->Object_0[7].1->Object_0[1].1->Object_0);
    }
    let measured_v = object(measured);
    assert(measured_v@ == doc->Object_0[7].1->Object_0[1].1);
    let platform = vec![
        ("encoding".to_owned(), text_value(c.attestation_platform_evidence_encoding.as_str())),
        ("digest".to_owned(), text_value(c.attestation_platform_evidence_digest.as_str())),
    ];
    proof {
        lemma_json_members(platform@);
        assert(json_members(platform@) =~= doc->Object_0[7].1->Object_0[2].1->Object_0);
    }
    let platform_v = object(platform);
    assert(platform_v@ == doc->Object_0[7].1->Object_0[2].1);
    let sealed = vec![
        ("digest".to_owned(), text_value(digest)),
        ("sizeBytes".to_owned(), JsonValue::Number(JsonNumber::UInt(size))),
        ("encoding".to_owned(), text_value("opaque/1")),
    ];
    proof {
        lemma_json_members(sealed@);
        assert(json_members(sealed@) =~= doc->Object_0[7].1->Object_0[3].1->Object_0);
    }
    let sealed_v = object(sealed);
    assert(sealed_v@ == doc->Object_0[7].1->Object_0[3].1);
    let validity = vec![
        ("notBefore".to_owned(), text_value(c.attestation_validity_not_before.as_str())),
        ("notAfter".to_owned(), text_value(c.attestation_validity_not_after.as_str())),
    ];
    proof {
        lemma_json_members(validity@);
        assert(json_members(validity@) =~= doc->Object_0[7].1->Object_0[5].1->Object_0);
    }
    let validity_v = object(validity);
    assert(validity_v@ == doc->Object_0[7].1->Object_0[5].1);
    let attestation = vec![
        ("teeClass".to_owned(), text_value(c.attestation_tee_class.as_str())),
        ("measuredBoot".to_owned(), measured_v),
        ("platformEvidence".to_owned(), platform_v),
        ("sealedEvidence".to_owned(), sealed_v),
        ("witnessKey".to_owned(), text_value(c.attestation_witness_key.as_str())),
        ("validity".to_owned(), validity_v),
    ];
    proof {
        lemma_json_members(attestation@);
        assert(json_members(attestation@) =~= doc->Object_0[7].1->Object_0);
    }
    let attestation_v = object(attestation);
    assert(attestation_v@ == doc->Object_0[7].1);
    let adapter = vec![
        ("system".to_owned(), text_value(c.adapter_system.as_str())),
        ("endpoint".to_owned(), text_value(c.adapter_endpoint.as_str())),
        ("postedAt".to_owned(), text_value(r.adapter_posted_at.as_str())),
        ("ackDigest".to_owned(), text_value(r.adapter_ack_digest.as_str())),
        ("ackProvenance".to_owned(), text_value(r.adapter_ack_provenance.as_wire_str())),
        ("mode".to_owned(), text_value("WRITE_ONLY")),
    ];
    proof {
        lemma_json_members(adapter@);
        assert(json_members(adapter@) =~= doc->Object_0[8].1->Object_0);
    }
    let adapter_v = object(adapter);
    assert(adapter_v@ == doc->Object_0[8].1);
    let chain = vec![
        ("seq".to_owned(), JsonValue::Number(JsonNumber::UInt(r.chain_seq))),
        ("prevHash".to_owned(), opt_value(&r.chain_prev_hash)),
        ("hash".to_owned(), text_value(PLACEHOLDER_CHAIN_HASH)),
    ];
    proof {
        lemma_json_members(chain@);
        assert(json_members(chain@) =~= doc->Object_0[9].1->Object_0);
    }
    let chain_v = object(chain);
    assert(chain_v@ == doc->Object_0[9].1);
    let document = vec![
        ("spec".to_owned(), text_value(SPEC_VERSION)),
        ("id".to_owned(), text_value(id)),
        ("ts".to_owned(), text_value(ts)),
        ("issuerAffiliation".to_owned(), text_value(c.issuer_affiliation.as_wire_str())),
        ("site".to_owned(), site_v),
        ("actor".to_owned(), actor_v),
        ("engagement".to_owned(), engagement_v),
        ("attestation".to_owned(), attestation_v),
        ("adapter".to_owned(), adapter_v),
        ("chain".to_owned(), chain_v),
    ];
    proof {
        lemma_json_members(document@);
        assert(json_members(document@) =~= site_document(*c, *r, id@, ts@, digest@, size)->Object_0);
    }
    object(document)
}

/// The receipt identifier of an engagement: `uuid:` and the deterministic
/// UUID of the engagement identifier's bytes.
pub open spec fn receipt_id(engagement_id: Seq<char>) -> Seq<char> {
    "uuid:"@ + uuid_text(uuid_bytes(sha256_spec(vstd::utf8::encode_utf8(engagement_id))))
}

/// Whether `statement` is the signed receipt a producer makes from a
/// payload decoded from `document`: its chain digest recomputed, every rule
/// checked, and the statement signed under the witness key as issuer.
pub open spec fn signed_receipt_of(statement: Seq<u8>, document: JsonV, secret: Seq<u8>) -> bool {
    exists|p: Payload| #[trigger] signed_from(p, statement, document, secret)
}

/// Whether every production form of `document` has a JCS form that the
/// Ed25519 statement encoding under `secret` turns into statement bytes.
pub open spec fn production_signs(document: JsonV, secret: Seq<u8>) -> bool {
    forall|p: Payload| #[trigger] rehashed_from(p, document) ==> jcs(payload_json(p)) is Some
        && produced(p.attestation.witness_key@, p.site.id@, jcs(payload_json(p))->Some_0, secret) is Some
}

/// Whether production of a receipt for `request` is owed: the evidence
/// names the request's engagement and has a JCS form, and the payload
/// document is accepted and signable.
pub open spec fn production_owed(config: SiteConfig, request: EngagementRequest, timestamp: Seq<char>, secret: Seq<u8>) -> bool {
    let doc = site_document(config, request, receipt_id(request.engagement_id@), timestamp,
        evidence_digest_text(request.evidence), evidence_size(request.evidence));
    &&& request.evidence.engagement_id@ == request.engagement_id@
    &&& jcs(bundle_json(request.evidence.engagement_id@, files_view(request.evidence.files@))) is Some
    &&& production_accepts(doc)
    &&& production_signs(doc, secret)
}

/// Whether `statement` is the receipt signed from the payload `p`, which is
/// decoded from `document` with its chain digest recomputed and checked.
pub open spec fn signed_from(p: Payload, statement: Seq<u8>, document: JsonV, secret: Seq<u8>) -> bool {
    &&& validation(p) is Ok
    &&& exists|q: Payload| #[trigger] payload_is(q, document) && payload_json_unhashed(p) == payload_json_unhashed(q)
        && expected_hash(q) == Some(p.chain.hash@)
    &&& jcs(payload_json(p)) is Some
    &&& produced(p.attestation.witness_key@, p.site.id@, jcs(payload_json(p))->Some_0, secret) == Some(statement)
}

/// The payload is determined by its content without the chain digest, and
/// the chain digest: the two JSON values agree.
proof fn lemma_payload_json_from_unhashed(p1: Payload, p2: Payload)
    requires
        payload_json_unhashed(p1) == payload_json_unhashed(p2),
        p1.chain.hash@ == p2.chain.hash@,
    ensures
        payload_json(p1) == payload_json(p2),
        p1.site.id@ == p2.site.id@,
        p1.attestation.witness_key@ == p2.attestation.witness_key@,
{
    let u1 = payload_json_unhashed(p1)->Object_0;
    let u2 = payload_json_unhashed(p2)->Object_0;
    assert(u1 == u2);
    assert(u1[4] == u2[4]);
    assert(u1[7] == u2[7]);
    assert(u1[9] == u2[9]);
    let c1 = chain_json_unhashed(p1.chain)->Object_0;
    let c2 = chain_json_unhashed(p2.chain)->Object_0;
    assert(c1[0] == c2[0] && c1[1] == c2[1]);
    assert(chain_json(p1.chain) == chain_json(p2.chain));
    let s1 = site_json(p1.site)->Object_0;
    let s2 = site_json(p2.site)->Object_0;
    assert(s1[0] == s2[0]);
    let a1 = attestation_json(p1.attestation)->Object_0;
    let a2 = attestation_json(p2.attestation)->Object_0;
    assert(a1[4] == a2[4]);
}

/// A producer's statement is determined by the document and the key: two
/// receipts signed from the same document with the same secret are the
/// same bytes.
pub proof fn lemma_signed_receipt_unique(s1: Seq<u8>, s2: Seq<u8>, document: JsonV, secret: Seq<u8>)
    requires
        signed_receipt_of(s1, document, secret),
        signed_receipt_of(s2, document, secret),
    ensures
        s1 == s2,
{
    let p1 = choose|p: Payload| #[trigger] signed_from(p, s1, document, secret);
    let p2 = choose|p: Payload| #[trigger] signed_from(p, s2, document, secret);
    let q1 = choose|q: Payload| #[trigger] payload_is(q, document) && payload_json_unhashed(p1) == payload_json_unhashed(q)
        && expected_hash(q) == Some(p1.chain.hash@);
    let q2 = choose|q: Payload| #[trigger] payload_is(q, document) && payload_json_unhashed(p2) == payload_json_unhashed(q)
        && expected_hash(q) == Some(p2.chain.hash@);
    lemma_payload_is_unique(q1, q2, document);
    assert(expected_hash(q1) == expected_hash(q2));
    lemma_payload_json_from_unhashed(p1, p2);
}

/// The `sha256:<hex>` digest of a bundle's JCS bytes.
pub open spec fn evidence_digest_text(b: EvidenceBundle) -> Seq<char> {
    sha256_prefix() + hex_text(sha256_spec(jcs(bundle_json(b.engagement_id@, files_view(b.files@)))->Some_0))
}

/// The byte size of a bundle's JCS bytes.
pub open spec fn evidence_size(b: EvidenceBundle) -> u64 {
    jcs(bundle_json(b.engagement_id@, files_view(b.files@)))->Some_0.len() as u64
}

/// Ed25519 site producer: stable configuration and the witness signing key.
#[derive(Debug)]
pub struct Ed25519SiteProducer {
    pub config: SiteConfig,
    pub signing_key: [u8; 32],
}

/// Produces signed site receipts and exposes their verifying key.
pub trait SiteProducer {
    /// Produces a signed receipt for one engagement at the RFC 3339 UTC
    /// `timestamp` a clock supplied.
    fn produce(&self, request: &EngagementRequest, timestamp: &str) -> Result<Vec<u8>, SiteError>;

    /// The public key of the producer's signing key.
    fn verifying_key(&self) -> [u8; 32];
}

impl SiteProducer for Ed25519SiteProducer {
    fn produce(&self, request: &EngagementRequest, timestamp: &str) -> (r: Result<Vec<u8>, SiteError>)
        ensures
            jcs(bundle_json(request.evidence.engagement_id@, files_view(request.evidence.files@))) is None ==>
                (r matches Err(e) && e is WireError),
            jcs(bundle_json(request.evidence.engagement_id@, files_view(request.evidence.files@))) is Some
                && request.evidence.engagement_id@ != request.engagement_id@ ==> (r matches Err(e) && e is EvidenceMismatch),
            r matches Ok(statement) ==> (request.evidence.engagement_id@ == request.engagement_id@
                && jcs(bundle_json(request.evidence.engagement_id@, files_view(request.evidence.files@))) is Some
                && signed_receipt_of(statement@, site_document(self.config, *request, receipt_id(request.engagement_id@),
                    timestamp@, evidence_digest_text(request.evidence), evidence_size(request.evidence)), self.signing_key@)),
            r matches Err(e) ==> e is WireError || e is EvidenceMismatch,
            production_owed(self.config, *request, timestamp@, self.signing_key@) ==> r is Ok,
    {
        Ed25519SiteProducer::produce(self, request, timestamp)
    }

    fn verifying_key(&self) -> (k: [u8; 32])
        ensures
            k@ == ed25519_public(self.signing_key@),
    {
        Ed25519SiteProducer::verifying_key(self)
    }
}

impl Ed25519SiteProducer {
    /// Creates a producer from stable configuration and the caller's key.
    pub fn new(config: SiteConfig, signing_key: [u8; 32]) -> (p: Self)
        ensures
            p.config == config,
            p.signing_key == signing_key,
    {
        Ed25519SiteProducer { config, signing_key }
    }

    /// The public key of the producer's signing key.
    pub fn verifying_key(&self) -> (k: [u8; 32])
        ensures
            k@ == ed25519_public(self.signing_key@),
    {
        ed25519_public_key(&self.signing_key)
    }

    /// Produces the signed receipt for one engagement at the RFC 3339 UTC
    /// `timestamp` a clock supplied: the evidence digest over the bundle's
    /// JCS bytes, the payload document, its chain digest and validation,
    /// then the Ed25519 statement with the witness key as issuer.
    pub fn produce(&self, request: &EngagementRequest, timestamp: &str) -> (r: Result<Vec<u8>, SiteError>)
        ensures
            jcs(bundle_json(request.evidence.engagement_id@, files_view(request.evidence.files@))) is None ==>
                (r matches Err(e) && e is WireError),
            jcs(bundle_json(request.evidence.engagement_id@, files_view(request.evidence.files@))) is Some
                && request.evidence.engagement_id@ != request.engagement_id@ ==> (r matches Err(e) && e is EvidenceMismatch),
            r matches Ok(statement) ==> (request.evidence.engagement_id@ == request.engagement_id@
                && jcs(bundle_json(request.evidence.engagement_id@, files_view(request.evidence.files@))) is Some
                && signed_receipt_of(statement@, site_document(self.config, *request, receipt_id(request.engagement_id@),
                    timestamp@, evidence_digest_text(request.evidence), evidence_size(request.evidence)), self.signing_key@)),
            r matches Err(e) ==> e is WireError || e is EvidenceMismatch,
            production_owed(self.config, *request, timestamp@, self.signing_key@) ==> r is Ok,
    {
        let evidence_jcs = request.evidence.to_jcs()?;
        let evidence_digest = sha256_prefixed(evidence_jcs.as_slice());
        let sealed_size = evidence_jcs.len() as u64;
        if !str_eq(request.evidence.engagement_id.as_str(), request.engagement_id.as_str()) {
            return Err(SiteError::EvidenceMismatch);
        }
        let uuid = deterministic_uuid_v4(request.engagement_id.as_str().as_bytes_vec().as_slice());
        let id = crate::text::concat("uuid:", uuid.as_str());
        let document = site_document_value(&self.config, request, id.as_str(), timestamp, evidence_digest.as_str(), sealed_size);
        let payload = match Payload::from_value_for_production(&document) {
            Ok(p) => p,
            Err(e) => {
                return Err(SiteError::WireError(e.message()));
            }
        };
        proof {
            assert(crate::payload::required_texts(payload)[10] == payload.attestation.witness_key@);
        }
        let statement = match produce_ed25519(&payload, payload.witness_key(), &self.signing_key) {
            Ok(s) => s,
            Err(e) => {
                return Err(SiteError::WireError(e.message()));
            }
        };
        proof {
            let body = jcs(payload_json(payload))->Some_0;
            assert(produced(payload.attestation.witness_key@, payload.site.id@, body, self.signing_key@) == Some(statement@));
            assert(signed_from(payload, statement@, document@, self.signing_key@));
        }
        Ok(statement)
    }
}

} // verus!
