//! Allocation-free CBOR resource preflight. Decoding follows only after this
//! succeeds.
use vstd::prelude::*;
use crate::receipt_inspection::{InspectionLimits, Problem};
use crate::text::utf8_char_count;

verus! {

/// What a data item stands for in the structure being scanned; selects
/// limits and type checks.
#[derive(Clone, Copy, Debug, PartialEq, Eq)]
pub enum Role {
    Any,
    Envelope,
    Sign1,
    Protected,
    Unprotected,
    ProtectedMap,
    Claims,
    Issuer,
    Subject,
    Signature,
    Vdp,
    Proofs,
    Proof,
    Path,
    Chain,
    Certificate,
    HeaderLabel,
    ClaimLabel,
    RequiredInteger,
    Critical,
    CriticalLabel,
    TreeSize,
    LeafIndex,
    Thumbprint,
    ThumbprintAlgorithm,
    UnprotectedThumbprint,
    UnprotectedThumbprintAlgorithm,
}

// ---------------------------------------------------------------------------
// The well-formedness grammar of RFC 8949 Section 3, with a nesting budget.
// ---------------------------------------------------------------------------

/// Number of argument bytes following an initial byte with additional
/// information `ai` (RFC 8949 Section 3).
pub open spec fn argument_width(ai: int) -> int {
    if ai <= 23 {
        0
    } else if ai == 24 {
        1
    } else if ai == 25 {
        2
    } else if ai == 26 {
        4
    } else if ai == 27 {
        8
    } else {
        0
    }
}

/// The unsigned big-endian integer in `b[start .. start + n]`.
pub open spec fn big_endian(b: Seq<u8>, start: int, n: int) -> int
    decreases n,
{
    if n <= 0 {
        0
    } else {
        big_endian(b, start, n - 1) * 256 + b[start + n - 1] as int
    }
}

/// `256` to the power `n`.
pub open spec fn pow256(n: int) -> int
    decreases n,
{
    if n <= 0 {
        1
    } else {
        256 * pow256(n - 1)
    }
}

/// The head at `pos`: major type, additional information, the argument
/// (`None` for the indefinite-length marker) and the position after the head.
pub open spec fn cbor_head(b: Seq<u8>, pos: int) -> Option<(int, int, Option<int>, int)> {
    if pos < 0 || pos >= b.len() {
        None
    } else {
        let major = b[pos] as int / 32;
        let ai = b[pos] as int % 32;
        if ai <= 23 {
            Some((major, ai, Some(ai), pos + 1))
        } else if ai <= 27 {
            let w = argument_width(ai);
            if pos + 1 + w <= b.len() {
                Some((major, ai, Some(big_endian(b, pos + 1, w)), pos + 1 + w))
            } else {
                None
            }
        } else if ai == 31 {
            Some((major, ai, None, pos + 1))
        } else {
            None
        }
    }
}

/// Whether the string content `b[from .. to]` is acceptable for major type
/// `major`: any bytes for a byte string, UTF-8 for a text string.
pub open spec fn string_content_ok(b: Seq<u8>, major: int, from: int, to: int) -> bool {
    major == 2 || vstd::utf8::valid_utf8(b.subrange(from, to))
}

/// The end of the definite-length chunks of an indefinite-length string of
/// major type `major` starting at `pos`, including the break byte.
pub open spec fn wf_chunks(b: Seq<u8>, pos: int, major: int) -> Option<int>
    decreases b.len() - pos,
{
    if pos < 0 || pos >= b.len() {
        None
    } else if b[pos] == 0xff {
        Some(pos + 1)
    } else {
        match cbor_head(b, pos) {
            Some((m, _ai, Some(n), next)) => if m == major && pos < next && n >= 0 && next + n <= b.len()
                && string_content_ok(b, major, next, next + n) {
                wf_chunks(b, next + n, major)
            } else {
                None
            },
            _ => None,
        }
    }
}

/// The end of the well-formed data item starting at `pos`, when its arrays,
/// maps and tags nest at most `room` deep.
pub open spec fn wf_item(b: Seq<u8>, pos: int, room: int) -> Option<int>
    decreases b.len() - pos, 0int,
{
    match cbor_head(b, pos) {
        None => None,
        Some((major, ai, arg, next)) => if !(pos < next && next <= b.len()) {
            None
        } else if major <= 1 {
            if arg is Some {
                Some(next)
            } else {
                None
            }
        } else if major <= 3 {
            match arg {
                Some(n) => if next + n <= b.len() && string_content_ok(b, major, next, next + n) {
                    Some(next + n)
                } else {
                    None
                },
                None => wf_chunks(b, next, major),
            }
        } else if major <= 6 {
            if room <= 0 {
                None
            } else if major == 4 {
                match arg {
                    Some(n) => wf_seq(b, next, n, room - 1),
                    None => wf_seq_indef(b, next, room - 1),
                }
            } else if major == 5 {
                match arg {
                    Some(n) => wf_seq(b, next, 2 * n, room - 1),
                    None => wf_pairs_indef(b, next, room - 1),
                }
            } else {
                match arg {
                    Some(_) => wf_item(b, next, room - 1),
                    None => None,
                }
            }
        } else if ai == 31 || (ai == 24 && (arg matches Some(v) && v < 32)) {
            None
        } else {
            Some(next)
        }
    }
}

/// The end of `n` consecutive well-formed data items starting at `pos`.
pub open spec fn wf_seq(b: Seq<u8>, pos: int, n: int, room: int) -> Option<int>
    decreases b.len() - pos, 1int,
{
    if n <= 0 {
        Some(pos)
    } else {
        match wf_item(b, pos, room) {
            Some(e) => if pos < e && e <= b.len() {
                wf_seq(b, e, n - 1, room)
            } else {
                None
            },
            None => None,
        }
    }
}

/// The end of well-formed data items starting at `pos` up to and including
/// a break byte.
pub open spec fn wf_seq_indef(b: Seq<u8>, pos: int, room: int) -> Option<int>
    decreases b.len() - pos, 1int,
{
    if pos < 0 || pos >= b.len() {
        None
    } else if b[pos] == 0xff {
        Some(pos + 1)
    } else {
        match wf_item(b, pos, room) {
            Some(e) => if pos < e && e <= b.len() {
                wf_seq_indef(b, e, room)
            } else {
                None
            },
            None => None,
        }
    }
}

/// The end of well-formed key/value pairs starting at `pos` up to and
/// including a break byte.
pub open spec fn wf_pairs_indef(b: Seq<u8>, pos: int, room: int) -> Option<int>
    decreases b.len() - pos, 1int,
{
    if pos < 0 || pos >= b.len() {
        None
    } else if b[pos] == 0xff {
        Some(pos + 1)
    } else {
        match wf_item(b, pos, room) {
            Some(k) => if pos < k && k <= b.len() {
                match wf_item(b, k, room) {
                    Some(e) => if k < e && e <= b.len() {
                        wf_pairs_indef(b, e, room)
                    } else {
                        None
                    },
                    None => None,
                }
            } else {
                None
            },
            None => None,
        }
    }
}

/// `b` is exactly one well-formed data item nesting at most `room` deep.
pub open spec fn wf_cbor(b: Seq<u8>, room: int) -> bool {
    wf_item(b, 0, room) == Some(b.len() as int)
}

// ---------------------------------------------------------------------------
// What the scanner accepts: the grammar above with the role-driven limits,
// type checks and running counters of a scan.
// ---------------------------------------------------------------------------

/// The running counters of a scan: data items seen, the longest issuer and
/// subject texts in characters, and whether an X.509 header was met.
pub struct ScanState {
    pub items: int,
    pub issuer: int,
    pub subject: int,
    pub x509: bool,
}

/// The counters after one more data item.
pub open spec fn counted(st: ScanState) -> ScanState {
    ScanState { items: st.items + 1, issuer: st.issuer, subject: st.subject, x509: st.x509 }
}

/// The counters after a text of `chars` characters in `role`.
pub open spec fn with_chars(role: Role, chars: int, st: ScanState) -> ScanState {
    ScanState {
        items: st.items,
        issuer: if role == Role::Issuer && chars > st.issuer { chars } else { st.issuer },
        subject: if role == Role::Subject && chars > st.subject { chars } else { st.subject },
        x509: st.x509,
    }
}

/// The counters after a map key in a map of `role`.
pub open spec fn with_key(role: Role, key: Option<i128>, st: ScanState) -> ScanState {
    ScanState { items: st.items, issuer: st.issuer, subject: st.subject, x509: st.x509 || marks_x509(role, key) }
}

/// Whether a head of major type `major` may stand in `role`.
pub open spec fn role_type_ok(role: Role, major: int) -> bool {
    match role {
        Role::HeaderLabel | Role::ClaimLabel | Role::CriticalLabel | Role::ThumbprintAlgorithm =>
            major == 0 || major == 1 || major == 3,
        Role::RequiredInteger => major == 0 || major == 1,
        Role::TreeSize | Role::LeafIndex => major == 0,
        _ => true,
    }
}

/// The role of the keys of a map in `role`.
pub open spec fn key_role(role: Role) -> Role {
    match role {
        Role::ProtectedMap | Role::Unprotected | Role::Vdp => Role::HeaderLabel,
        Role::Claims => Role::ClaimLabel,
        _ => Role::Any,
    }
}

/// The number of characters the UTF-8 bytes `b[from .. to]` spell.
pub open spec fn utf8_chars(b: Seq<u8>, from: int, to: int) -> int {
    vstd::utf8::decode_utf8(b.subrange(from, to)).len() as int
}

/// The characters a text string (major 3) spells; none for bytes.
pub open spec fn text_chars(b: Seq<u8>, major: int, from: int, to: int) -> int {
    if major == 3 { utf8_chars(b, from, to) } else { 0 }
}

/// Scanning the data item at `pos` at nesting `depth` in `role`: its end,
/// the counters after it and, for an integer, its value; `None` when a
/// rule or limit refuses it.
pub open spec fn scan_item(b: Seq<u8>, pos: int, depth: int, role: Role, l: InspectionLimits, st: ScanState)
    -> Option<(int, ScanState, Option<i128>)>
    decreases b.len() - pos, 0int,
{
    if st.items + 1 > l.max_cbor_items {
        None
    } else {
        match cbor_head(b, pos) {
            None => None,
            Some((major, ai, arg, next)) => if !(pos < next && next <= b.len()) || !role_type_ok(role, major) {
                None
            } else if 4 <= major <= 6 && depth >= l.max_cbor_nesting {
                None
            } else if major <= 1 {
                match arg {
                    Some(n) => Some((next, counted(st), Some((if major == 0 { n } else { -1 - n }) as i128))),
                    None => None,
                }
            } else if major <= 3 {
                match scan_string(b, next, role, major, arg, l, counted(st)) {
                    Some((e, s)) => Some((e, s, None)),
                    None => None,
                }
            } else if major <= 6 {
                match scan_container(b, next, depth, role, major, arg, l, counted(st)) {
                    Some((e, s)) => Some((e, s, None)),
                    None => None,
                }
            } else if ai == 31 || (ai == 24 && (arg matches Some(v) && v < 32)) {
                None
            } else {
                Some((next, counted(st), None))
            },
        }
    }
}

/// Scanning the content of a string of major type `major` whose head ends
/// at `pos`.
pub open spec fn scan_string(b: Seq<u8>, pos: int, role: Role, major: int, arg: Option<int>, l: InspectionLimits,
    st: ScanState) -> Option<(int, ScanState)>
{
    let limit = byte_limit_of(l, role).0 as int;
    match arg {
        Some(n) => if n > usize::MAX || n > limit || pos + n > b.len() {
            None
        } else if major == 3 && !vstd::utf8::valid_utf8(b.subrange(pos, pos + n)) {
            None
        } else {
            Some((pos + n, with_chars(role, text_chars(b, major, pos, pos + n), st)))
        },
        None => match scan_chunks(b, pos, major, limit, 0, 0, l, st) {
            Some((e, chars, s)) => Some((e, with_chars(role, chars, s))),
            None => None,
        },
    }
}

/// Scanning the chunks of an indefinite-length string from `pos`, with
/// `total` bytes and `chars` characters seen: the end after the break byte,
/// the characters and the counters.
pub open spec fn scan_chunks(b: Seq<u8>, pos: int, major: int, limit: int, total: int, chars: int, l: InspectionLimits,
    st: ScanState) -> Option<(int, int, ScanState)>
    decreases b.len() - pos,
{
    if 0 <= pos < b.len() && b[pos] == 0xff {
        Some((pos + 1, chars, st))
    } else if st.items + 1 > l.max_cbor_items {
        None
    } else {
        match cbor_head(b, pos) {
            Some((m, _ai, Some(cn), next)) => if !(pos < next && next <= b.len()) || m != major || cn < 0 || cn > usize::MAX
                || total + cn > usize::MAX || total + cn > limit || next + cn > b.len() {
                None
            } else if major == 3 && !vstd::utf8::valid_utf8(b.subrange(next, next + cn)) {
                None
            } else if chars + text_chars(b, major, next, next + cn) > usize::MAX {
                None
            } else {
                scan_chunks(b, next + cn, major, limit, total + cn, chars + text_chars(b, major, next, next + cn), l,
                    counted(st))
            },
            _ => None,
        }
    }
}

/// The element limit of a container of major type `major` in `role`.
pub open spec fn container_limit(l: InspectionLimits, role: Role, major: int) -> int {
    if major == 5 { l.max_map_entries as int } else { array_limit_of(l, role).0 as int }
}

/// Scanning the content of an array (4), map (5) or tag (6) whose head ends
/// at `pos`.
pub open spec fn scan_container(b: Seq<u8>, pos: int, depth: int, role: Role, major: int, arg: Option<int>,
    l: InspectionLimits, st: ScanState) -> Option<(int, ScanState)>
    decreases b.len() - pos, 3int,
{
    if major == 6 {
        match arg {
            None => None,
            Some(tag) => {
                let child = if role == Role::Envelope && tag == 18 { Role::Sign1 } else { Role::Any };
                match scan_item(b, pos, depth + 1, child, l, st) {
                    Some((e, s, _)) => Some((e, s)),
                    None => None,
                }
            },
        }
    } else {
        let limit = container_limit(l, role, major);
        match arg {
            Some(n) => {
                let per: int = if major == 5 { 2 } else { 1 };
                let room: int = if st.items > l.max_cbor_items { 0 } else { l.max_cbor_items - st.items };
                if n > usize::MAX || n > limit || n * per > usize::MAX || n * per > room {
                    None
                } else {
                    scan_elems(b, pos, depth, role, major, n, 0, limit, l, st)
                }
            },
            None => scan_elems_indef(b, pos, depth, role, major, 0, limit, l, st),
        }
    }
}

/// Scanning one element (or map entry) of a container at `pos`: the end and
/// the counters after it.
pub open spec fn scan_element(b: Seq<u8>, pos: int, depth: int, role: Role, major: int, i: int, l: InspectionLimits,
    st: ScanState) -> Option<(int, ScanState)>
    decreases b.len() - pos, 1int,
{
    if major == 5 {
        match scan_item(b, pos, depth + 1, key_role(role), l, st) {
            None => None,
            Some((k, s1, key)) => if !(pos < k <= b.len()) {
                None
            } else {
                match scan_item(b, k, depth + 1, key_child(role, key), l, with_key(role, key, s1)) {
                    Some((e, s2, _)) => Some((e, s2)),
                    None => None,
                }
            },
        }
    } else {
        match scan_item(b, pos, depth + 1, index_child(role, i), l, st) {
            Some((e, s2, _)) => Some((e, s2)),
            None => None,
        }
    }
}

/// Scanning the elements `i ..` of `n` of a definite-length container.
pub open spec fn scan_elems(b: Seq<u8>, pos: int, depth: int, role: Role, major: int, n: int, i: int, limit: int,
    l: InspectionLimits, st: ScanState) -> Option<(int, ScanState)>
    decreases b.len() - pos, 2int,
{
    if i >= n {
        Some((pos, st))
    } else if i >= limit {
        None
    } else {
        match scan_element(b, pos, depth, role, major, i, l, st) {
            Some((e, s)) => if pos < e <= b.len() {
                scan_elems(b, e, depth, role, major, n, i + 1, limit, l, s)
            } else {
                None
            },
            None => None,
        }
    }
}

/// Scanning the elements `i ..` of an indefinite-length container up to and
/// including its break byte.
pub open spec fn scan_elems_indef(b: Seq<u8>, pos: int, depth: int, role: Role, major: int, i: int, limit: int,
    l: InspectionLimits, st: ScanState) -> Option<(int, ScanState)>
    decreases b.len() - pos, 2int,
{
    if 0 <= pos < b.len() && b[pos] == 0xff {
        Some((pos + 1, st))
    } else if i >= limit {
        None
    } else {
        match scan_element(b, pos, depth, role, major, i, l, st) {
            Some((e, s)) => if pos < e <= b.len() {
                scan_elems_indef(b, e, depth, role, major, i + 1, limit, l, s)
            } else {
                None
            },
            None => None,
        }
    }
}

/// The problem a label or integer role refuses a head of major type
/// `major` with, if any.
pub open spec fn role_type_problem(role: Role, major: int) -> Option<Problem> {
    if role_type_ok(role, major) {
        None
    } else {
        match role {
            Role::HeaderLabel => Some(Problem::structure("header_label_type")),
            Role::ClaimLabel => Some(Problem::claims("claim_label_type")),
            Role::RequiredInteger => Some(Problem::claims("required_header_type")),
            Role::CriticalLabel => Some(Problem::structure("crit_label_type")),
            Role::TreeSize => Some(Problem::structure("tree_type")),
            Role::LeafIndex => Some(Problem::structure("leaf_type")),
            Role::ThumbprintAlgorithm => Some(Problem::claims("x5t_shape")),
            _ => None,
        }
    }
}

/// The code a container of major type `major` in `role` fails its element
/// limit with.
pub open spec fn container_code(l: InspectionLimits, role: Role, major: int) -> &'static str {
    if major == 5 { "map_entry_limit" } else { array_limit_of(l, role).1 }
}

/// The problem the declared element count of a container head already
/// decides, with `items` data items counted (the container's own among
/// them), before any element is read.
pub open spec fn count_problem(l: InspectionLimits, role: Role, major: int, arg: Option<int>, items: int) -> Option<Problem> {
    if major == 6 {
        if arg is None { Some(Problem::structure("invalid_cbor")) } else { None }
    } else {
        match arg {
            Some(n) => {
                let per: int = if major == 5 { 2 } else { 1 };
                let room: int = if items > l.max_cbor_items { 0 } else { l.max_cbor_items - items };
                if n > usize::MAX {
                    Some(Problem::policy("cbor_item_limit"))
                } else if n > container_limit(l, role, major) {
                    Some(Problem::policy(container_code(l, role, major)))
                } else if n * per > usize::MAX || n * per > room {
                    Some(Problem::policy("cbor_item_limit"))
                } else {
                    None
                }
            },
            None => None,
        }
    }
}

/// The problem the declared length of a definite-length string in `role`
/// already decides, before any of its content is read.
pub open spec fn length_problem(l: InspectionLimits, role: Role, arg: Option<int>) -> Option<Problem> {
    match arg {
        Some(n) => if n > usize::MAX {
            Some(Problem::policy("cbor_item_limit"))
        } else if n > byte_limit_of(l, role).0 {
            Some(Problem::policy(byte_limit_of(l, role).1))
        } else {
            None
        },
        None => None,
    }
}

/// The problem a data item at `pos` fails with before anything after its
/// head is read, with the position the reader stands at then: the item
/// budget, a missing or truncated head, a label or integer of the wrong
/// major type, a container at the nesting limit, a container whose
/// declared count is refused, and a string whose declared length is.
pub open spec fn head_problem(b: Seq<u8>, pos: int, depth: int, role: Role, l: InspectionLimits, items: int)
    -> Option<(Problem, int)>
{
    if items + 1 > l.max_cbor_items {
        Some((Problem::policy("cbor_item_limit"), pos))
    } else if !(0 <= pos < b.len()) {
        Some((Problem::structure("invalid_cbor"), pos))
    } else if role_type_problem(role, b[pos] as int / 32) is Some {
        Some((role_type_problem(role, b[pos] as int / 32)->Some_0, pos + 1))
    } else {
        match cbor_head(b, pos) {
            None => Some((Problem::structure("invalid_cbor"), pos + 1)),
            Some((major, _ai, arg, next)) => if 4 <= major <= 6 && depth >= l.max_cbor_nesting {
                Some((Problem::policy("cbor_nesting_limit"), next))
            } else if 4 <= major <= 6 && count_problem(l, role, major, arg, items + 1) is Some {
                Some((count_problem(l, role, major, arg, items + 1)->Some_0, next))
            } else if 2 <= major <= 3 && length_problem(l, role, arg) is Some {
                Some((length_problem(l, role, arg)->Some_0, next))
            } else {
                None
            },
        }
    }
}

/// An optional argument as an integer.
pub open spec fn arg_int(a: Option<u64>) -> Option<int> {
    match a {
        Some(v) => Some(v as int),
        None => None,
    }
}

/// Whether scanning `bytes` as exactly one data item succeeds from `items`
/// items already counted: the item is accepted, nothing trails it, and the
/// issuer and subject texts are within the claim-text limit (an issuer
/// beside an X.509 header within 8192 characters).
pub open spec fn scan_accepts(bytes: Seq<u8>, depth: int, role: Role, l: InspectionLimits, items: int) -> bool {
    match scan_item(bytes, 0, depth, role, l, ScanState { items, issuer: 0, subject: 0, x509: false }) {
        Some((e, s, _)) => e == bytes.len() && !(s.x509 && s.issuer > 8192)
            && s.issuer <= l.max_claim_text_characters && s.subject <= l.max_claim_text_characters,
        None => false,
    }
}

proof fn lemma_big_endian_bound(b: Seq<u8>, start: int, n: int)
    requires
        n >= 0,
    ensures
        0 <= big_endian(b, start, n) < pow256(n),
    decreases n,
{
    if n > 0 {
        lemma_big_endian_bound(b, start, n - 1);
        let v = big_endian(b, start, n - 1);
        let p = pow256(n - 1);
        let x = b[start + n - 1] as int;
        assert(0 <= v * 256 + x < 256 * p) by (nonlinear_arith)
            requires
                0 <= v < p,
                0 <= x < 256,
        ;
    }
}

// ---------------------------------------------------------------------------
// The scanner.
// ---------------------------------------------------------------------------

/// The byte limit on a string in `role`, and the code it fails with.
pub open spec fn byte_limit_of(l: InspectionLimits, role: Role) -> (usize, &'static str) {
    match role {
        Role::Protected => (l.max_protected_bytes, "protected_byte_limit"),
        Role::Signature => (l.max_signature_bytes, "signature_byte_limit"),
        Role::Chain | Role::Certificate => (l.max_certificate_bytes, "certificate_byte_limit"),
        _ => (l.max_receipt_bytes, "receipt_byte_limit"),
    }
}

/// The element limit on an array in `role`, and the code it fails with.
pub open spec fn array_limit_of(l: InspectionLimits, role: Role) -> (usize, &'static str) {
    match role {
        Role::Proofs => (l.max_proofs_per_receipt, "proof_limit"),
        Role::Path => (l.max_path_nodes_per_proof, "path_limit"),
        Role::Chain => (l.max_certificate_chain_length, "certificate_count_limit"),
        _ => (l.max_cbor_items, "cbor_item_limit"),
    }
}

/// Whether a map key marks an X.509 header (`x5chain` 33 or `x5t` 34 in
/// the protected map).
pub open spec fn marks_x509(role: Role, key: Option<i128>) -> bool {
    role == Role::ProtectedMap && (key == Some(33i128) || key == Some(34i128))
}

/// The role of a map value, by the role of the map and the integer key.
pub open spec fn key_child(role: Role, key: Option<i128>) -> Role {
    match (role, key) {
        (Role::ProtectedMap, Some(1)) | (Role::ProtectedMap, Some(395)) => Role::RequiredInteger,
        (Role::ProtectedMap, Some(2)) => Role::Critical,
        (Role::ProtectedMap, Some(15)) => Role::Claims,
        (Role::ProtectedMap, Some(34)) => Role::Thumbprint,
        (Role::Unprotected, Some(34)) => Role::UnprotectedThumbprint,
        (Role::ProtectedMap, Some(33)) | (Role::Unprotected, Some(33)) => Role::Chain,
        (Role::Claims, Some(1)) => Role::Issuer,
        (Role::Claims, Some(2)) => Role::Subject,
        (Role::Unprotected, Some(396)) => Role::Vdp,
        (Role::Vdp, Some(-1)) => Role::Proofs,
        _ => Role::Any,
    }
}

/// The role of an array element, by the role of the array and the
/// element's position.
pub open spec fn index_child(role: Role, i: int) -> Role {
    match role {
        Role::Sign1 => if i == 0 { Role::Protected } else if i == 1 { Role::Unprotected } else if i == 3 { Role::Signature } else { Role::Any },
        Role::Proof => if i == 0 { Role::TreeSize } else if i == 1 { Role::LeafIndex } else if i == 2 { Role::Path } else { Role::Any },
        Role::Critical => Role::CriticalLabel,
        Role::Thumbprint => if i == 0 { Role::ThumbprintAlgorithm } else { Role::Any },
        Role::UnprotectedThumbprint => if i == 0 { Role::UnprotectedThumbprintAlgorithm } else { Role::Any },
        Role::Chain => Role::Certificate,
        _ => Role::Any,
    }
}

/// Resource accounting shared across scans of one envelope.
pub struct Budget<'a> {
    pub limits: &'a InspectionLimits,
    pub items: usize,
    pub unprotected_x5t_invalid: bool,
}

struct Reader<'a, 'b> {
    bytes: &'a [u8],
    pos: usize,
    limits: &'b InspectionLimits,
    items: usize,
    unprotected_x5t_invalid: bool,
    issuer_characters: usize,
    subject_characters: usize,
    x509: bool,
}

impl<'a, 'b> Reader<'a, 'b> {
    /// The running counters of this reader.
    spec fn state(&self) -> ScanState {
        ScanState {
            items: self.items as int,
            issuer: self.issuer_characters as int,
            subject: self.subject_characters as int,
            x509: self.x509,
        }
    }

    /// Whether the text counters and the X.509 mark are the same.
    spec fn same_marks(&self, other: &Reader<'a, 'b>) -> bool {
        &&& self.issuer_characters == other.issuer_characters
        &&& self.subject_characters == other.subject_characters
        &&& self.x509 == other.x509
    }

    spec fn frame(&self, other: &Reader<'a, 'b>) -> bool {
        &&& self.bytes == other.bytes
        &&& self.limits == other.limits
        &&& self.items <= other.items
        &&& self.pos <= other.pos
        &&& other.pos <= other.bytes@.len()
        &&& self.unprotected_x5t_invalid ==> other.unprotected_x5t_invalid
    }

    fn take(&mut self, n: usize) -> (r: Result<usize, Problem>)
        requires
            old(self).pos <= old(self).bytes@.len(),
        ensures
            old(self).frame(&*final(self)),
            final(self).items == old(self).items,
            old(self).same_marks(&*final(self)),
            match r {
                Ok(start) => start == old(self).pos && final(self).pos == old(self).pos + n,
                Err(p) => p == Problem::structure("invalid_cbor") && old(self).pos + n > old(self).bytes@.len()
                    && final(self).pos == old(self).pos,
            },
    {
        let len = self.bytes.len();
        let end = match self.pos.checked_add(n) {
            Some(end) => end,
            None => return Err(Problem::structure("invalid_cbor")),
        };
        if end > len {
            return Err(Problem::structure("invalid_cbor"));
        }
        let start = self.pos;
        self.pos = end;
        Ok(start)
    }

    fn argument(&mut self, ai: u8) -> (r: Result<Option<u64>, Problem>)
        requires
            old(self).pos <= old(self).bytes@.len(),
            ai < 32,
        ensures
            old(self).frame(&*final(self)),
            final(self).items == old(self).items,
            old(self).same_marks(&*final(self)),
            ai <= 23 ==> r == Ok::<Option<u64>, Problem>(Some(ai as u64)) && final(self).pos == old(self).pos,
            24 <= ai <= 27 ==> match r {
                Ok(a) => a == Some(big_endian(old(self).bytes@, old(self).pos as int, argument_width(ai as int)) as u64)
                    && final(self).pos == old(self).pos + argument_width(ai as int)
                    && big_endian(old(self).bytes@, old(self).pos as int, argument_width(ai as int)) < 0x1_0000_0000_0000_0000,
                Err(_) => old(self).pos + argument_width(ai as int) > old(self).bytes@.len(),
            },
            ai == 31 ==> r == Ok::<Option<u64>, Problem>(None) && final(self).pos == old(self).pos,
            28 <= ai <= 30 ==> r is Err,
            r is Err ==> r == Err::<Option<u64>, Problem>(Problem::structure("invalid_cbor")) && final(self).pos == old(self).pos,
    {
        if ai <= 23 {
            return Ok(Some(ai as u64));
        }
        if ai == 31 {
            return Ok(None);
        }
        let width: usize = if ai == 24 {
            1
        } else if ai == 25 {
            2
        } else if ai == 26 {
            4
        } else if ai == 27 {
            8
        } else {
            return Err(Problem::structure("invalid_cbor"));
        };
        let start = self.take(width)?;
        let bytes = self.bytes;
        let _ = bytes.len();
        let mut value: u64 = 0;
        let mut k: usize = 0;
        proof {
            lemma_big_endian_bound(bytes@, start as int, width as int);
            reveal_with_fuel(pow256, 9);
        }
        while k < width
            invariant
                k <= width <= 8,
                start + width <= bytes@.len(),
                bytes@.len() <= usize::MAX,
                value as int == big_endian(bytes@, start as int, k as int),
                big_endian(bytes@, start as int, width as int) < pow256(8),
                pow256(8) == 0x1_0000_0000_0000_0000,
            decreases width - k,
        {
            proof {
                lemma_big_endian_bound(bytes@, start as int, k as int + 1);
                assert(pow256(k as int + 1) <= pow256(8)) by {
                    lemma_pow256_mono(k as int + 1, 8);
                }
            }
            value = value * 256 + bytes[start + k] as u64;
            k = k + 1;
        }
        Ok(Some(value))
    }

    fn length(n: u64) -> (r: Result<usize, Problem>)
        ensures
            match r {
                Ok(v) => v as int == n as int,
                Err(p) => p == Problem::policy("cbor_item_limit") && n > usize::MAX,
            },
    {
        if n > usize::MAX as u64 {
            Err(Problem::policy("cbor_item_limit"))
        } else {
            Ok(n as usize)
        }
    }

    fn bump(&mut self) -> (r: Result<(), Problem>)
        requires
            old(self).pos <= old(self).bytes@.len(),
        ensures
            old(self).frame(&*final(self)),
            final(self).pos == old(self).pos,
            old(self).same_marks(&*final(self)),
            r is Ok ==> final(self).items == old(self).items + 1 && final(self).items <= old(self).limits.max_cbor_items,
            r is Ok <==> old(self).items + 1 <= old(self).limits.max_cbor_items,
            r is Err ==> r == Err::<(), Problem>(Problem::policy("cbor_item_limit")),
    {
        let items = match self.items.checked_add(1) {
            Some(items) => items,
            None => return Err(Problem::policy("cbor_item_limit")),
        };
        self.items = items;
        if self.items > self.limits.max_cbor_items {
            return Err(Problem::policy("cbor_item_limit"));
        }
        Ok(())
    }

    fn byte_limit(&self, role: Role) -> (r: (usize, &'static str))
        ensures
            r == byte_limit_of(*self.limits, role),
    {
        match role {
            Role::Protected => (self.limits.max_protected_bytes, "protected_byte_limit"),
            Role::Signature => (self.limits.max_signature_bytes, "signature_byte_limit"),
            Role::Chain | Role::Certificate => (self.limits.max_certificate_bytes, "certificate_byte_limit"),
            _ => (self.limits.max_receipt_bytes, "receipt_byte_limit"),
        }
    }

    fn array_limit(&self, role: Role) -> (r: (usize, &'static str))
        ensures
            r == array_limit_of(*self.limits, role),
    {
        match role {
            Role::Proofs => (self.limits.max_proofs_per_receipt, "proof_limit"),
            Role::Path => (self.limits.max_path_nodes_per_proof, "path_limit"),
            Role::Chain => (self.limits.max_certificate_chain_length, "certificate_count_limit"),
            _ => (self.limits.max_cbor_items, "cbor_item_limit"),
        }
    }
    /// Scans one data item at the current position, enforcing the limits of
    /// `role` and the nesting and item budgets.
    #[verifier::rlimit(60)]
    fn item(&mut self, depth: usize, role: Role) -> (r: Result<Option<i128>, Problem>)
        requires
            old(self).pos <= old(self).bytes@.len(),
        ensures
            old(self).frame(&*final(self)),
            r is Ok ==> wf_item(old(self).bytes@, old(self).pos as int, old(self).limits.max_cbor_nesting - depth)
                == Some(final(self).pos as int),
            r is Ok ==> final(self).items <= old(self).limits.max_cbor_items,
            r is Ok ==> final(self).pos > old(self).pos,
            r is Ok ==> final(self).items > old(self).items,
            head_problem(old(self).bytes@, old(self).pos as int, depth as int, role, *old(self).limits, old(self).items as int)
                matches Some((p, e)) ==> r == Err::<Option<i128>, Problem>(p) && final(self).pos == e
                && (old(self).items + 1 <= old(self).limits.max_cbor_items ==> final(self).items == old(self).items + 1),
            match scan_item(old(self).bytes@, old(self).pos as int, depth as int, role, *old(self).limits, old(self).state()) {
                Some((e, st, v)) => r == Ok::<Option<i128>, Problem>(v) && final(self).pos == e && final(self).state() == st,
                None => r is Err,
            },
        decreases old(self).bytes@.len() - old(self).pos, 0int,
    {
        let ghost b = self.bytes@;
        let ghost start = self.pos as int;
        let _ = self.bytes.len();
        self.bump()?;
        let at = self.take(1)?;
        let head = self.bytes[at];
        let major: u8 = head >> 5;
        let ai: u8 = head & 31;
        proof {
            assert(head >> 5 == head / 32) by (bit_vector);
            assert(head & 31 == head % 32) by (bit_vector);
        }
        // Wire labels and int/uint fields are checked from their actual major
        // type before any decoding.
        match role {
            Role::HeaderLabel => {
                if !(major == 0 || major == 1 || major == 3) {
                    return Err(Problem::structure("header_label_type"));
                }
            },
            Role::ClaimLabel => {
                if !(major == 0 || major == 1 || major == 3) {
                    return Err(Problem::claims("claim_label_type"));
                }
            },
            Role::RequiredInteger => {
                if !(major == 0 || major == 1) {
                    return Err(Problem::claims("required_header_type"));
                }
            },
            Role::CriticalLabel => {
                if !(major == 0 || major == 1 || major == 3) {
                    return Err(Problem::structure("crit_label_type"));
                }
            },
            Role::TreeSize => {
                if major != 0 {
                    return Err(Problem::structure("tree_type"));
                }
            },
            Role::LeafIndex => {
                if major != 0 {
                    return Err(Problem::structure("leaf_type"));
                }
            },
            Role::ThumbprintAlgorithm => {
                if !(major == 0 || major == 1 || major == 3) {
                    return Err(Problem::claims("x5t_shape"));
                }
            },
            Role::UnprotectedThumbprintAlgorithm => {
                if !(major == 0 || major == 1 || major == 3) {
                    // Recorded from the raw type; the caller applies it only
                    // when the unprotected value is the effective one.
                    self.unprotected_x5t_invalid = true;
                }
            },
            _ => {},
        }
        let arg = self.argument(ai)?;
        let ghost next = self.pos as int;
        proof {
            lemma_head(b, start, head, major, ai, arg, next);
        }
        if major >= 4 && major <= 6 && depth >= self.limits.max_cbor_nesting {
            return Err(Problem::policy("cbor_nesting_limit"));
        }
        if major <= 1 {
            let n = match arg {
                Some(n) => n,
                None => return Err(Problem::structure("invalid_cbor")),
            };
            return Ok(Some(if major == 0 { n as i128 } else { -1 - (n as i128) }));
        }
        if major <= 3 {
            self.string(role, major, arg)?;
            return Ok(None);
        }
        if major <= 6 {
            self.container(depth, role, major, arg)?;
            return Ok(None);
        }
        let small = match arg {
            Some(v) => v < 32,
            None => false,
        };
        if ai == 31 || (ai == 24 && small) {
            return Err(Problem::structure("invalid_cbor"));
        }
        Ok(None)
    }

    /// Scans the content of a byte or text string whose head was just read.
    fn string(&mut self, role: Role, major: u8, arg: Option<u64>) -> (r: Result<(), Problem>)
        requires
            old(self).pos <= old(self).bytes@.len(),
            old(self).items <= old(self).limits.max_cbor_items,
            major == 2 || major == 3,
        ensures
            old(self).frame(&*final(self)),
            r is Ok ==> final(self).items <= old(self).limits.max_cbor_items,
            r is Ok ==> match arg {
                Some(n) => final(self).pos == old(self).pos + n
                    && string_content_ok(old(self).bytes@, major as int, old(self).pos as int, old(self).pos + n),
                None => wf_chunks(old(self).bytes@, old(self).pos as int, major as int) == Some(final(self).pos as int),
            },
            match scan_string(old(self).bytes@, old(self).pos as int, role, major as int, arg_int(arg), *old(self).limits,
                old(self).state()) {
                Some((e, st)) => r is Ok && final(self).pos == e && final(self).state() == st,
                None => r is Err,
            },
            length_problem(*old(self).limits, role, arg_int(arg)) matches Some(p)
                ==> r == Err::<(), Problem>(p) && final(self).pos == old(self).pos && final(self).items == old(self).items,
    {
        let ghost b = self.bytes@;
        let (limit, code) = self.byte_limit(role);
        let mut characters: usize = 0;
        match arg {
            Some(n) => {
                let len = Self::length(n)?;
                if len > limit {
                    return Err(Problem::policy(code));
                }
                let s = self.take(len)?;
                if major == 3 {
                    let bytes = self.bytes;
                    let piece = &bytes[s..s + len];
                    assert(piece@ == b.subrange(s as int, s + len));
                    characters = match utf8_char_count(piece) {
                        Some(c) => c,
                        None => return Err(Problem::structure("invalid_cbor")),
                    };
                }
                assert(characters as int == text_chars(b, major as int, s as int, s + len));
                assert(self.state() == old(self).state());
                assert(limit == byte_limit_of(*old(self).limits, role).0);
                assert(arg_int(arg) == Some(n as int));
                assert(major == 3 ==> vstd::utf8::valid_utf8(b.subrange(s as int, s + len)));
                assert(scan_string(b, old(self).pos as int, role, major as int, arg_int(arg), *old(self).limits, old(self).state())
                    == Some((self.pos as int, with_chars(role, characters as int, self.state()))));
            },
            None => {
                characters = self.chunks(major, limit, code)?;
            },
        }
        assert(scan_string(b, old(self).pos as int, role, major as int, arg_int(arg), *old(self).limits, old(self).state())
            == Some((self.pos as int, with_chars(role, characters as int, self.state()))));
        if matches!(role, Role::Issuer) && characters > self.issuer_characters {
            self.issuer_characters = characters;
        }
        if matches!(role, Role::Subject) && characters > self.subject_characters {
            self.subject_characters = characters;
        }
        Ok(())
    }

    /// Scans the definite-length chunks of an indefinite-length string and
    /// its break byte; returns the number of characters of a text string.
    fn chunks(&mut self, major: u8, limit: usize, code: &'static str) -> (r: Result<usize, Problem>)
        requires
            old(self).pos <= old(self).bytes@.len(),
            old(self).items <= old(self).limits.max_cbor_items,
            major == 2 || major == 3,
        ensures
            old(self).frame(&*final(self)),
            r is Ok ==> final(self).items <= old(self).limits.max_cbor_items,
            r is Ok ==> wf_chunks(old(self).bytes@, old(self).pos as int, major as int) == Some(final(self).pos as int),
            match scan_chunks(old(self).bytes@, old(self).pos as int, major as int, limit as int, 0, 0, *old(self).limits,
                old(self).state()) {
                Some((e, chars, st)) => r matches Ok(c) && c as int == chars && final(self).pos == e
                    && final(self).state() == st,
                None => r is Err,
            },
    {
        let ghost b = self.bytes@;
        let ghost first = self.pos as int;
        let ghost st0 = self.state();
        let mut characters: usize = 0;
        let mut total: usize = 0;
        while !(self.pos < self.bytes.len() && self.bytes[self.pos] == 0xff)
            invariant
                old(self).frame(&*self),
                old(self).same_marks(&*self),
                self.bytes@ == b,
                self.items <= self.limits.max_cbor_items,
                major == 2 || major == 3,
                wf_chunks(b, first, major as int) == wf_chunks(b, self.pos as int, major as int),
                st0 == old(self).state(),
                first == old(self).pos as int,
                scan_chunks(b, first, major as int, limit as int, 0, 0, *self.limits, st0)
                    == scan_chunks(b, self.pos as int, major as int, limit as int, total as int, characters as int,
                        *self.limits, self.state()),
            decreases b.len() - self.pos,
        {
            let ghost p = self.pos as int;
            self.bump()?;
            let c_at = self.take(1)?;
            let chunk = self.bytes[c_at];
            let chunk_major: u8 = chunk >> 5;
            let chunk_ai: u8 = chunk & 31;
            proof {
                assert(chunk >> 5 == chunk / 32) by (bit_vector);
                assert(chunk & 31 == chunk % 32) by (bit_vector);
            }
            if chunk_major != major {
                return Err(Problem::structure("invalid_cbor"));
            }
            let a = self.argument(chunk_ai)?;
            let ghost cnext = self.pos as int;
            proof {
                lemma_head(b, p, chunk, chunk_major, chunk_ai, a, cnext);
            }
            let cn = match a {
                Some(v) => v,
                None => return Err(Problem::structure("invalid_cbor")),
            };
            let clen = Self::length(cn)?;
            total = match total.checked_add(clen) {
                Some(t) => t,
                None => return Err(Problem::policy(code)),
            };
            if total > limit {
                return Err(Problem::policy(code));
            }
            let cs = self.take(clen)?;
            if major == 3 {
                let bytes = self.bytes;
                let c = match utf8_char_count(&bytes[cs..cs + clen]) {
                    Some(c) => c,
                    None => return Err(Problem::structure("invalid_cbor")),
                };
                characters = match characters.checked_add(c) {
                    Some(t) => t,
                    None => return Err(Problem::policy("claim_text_limit")),
                };
            }
            proof {
                assert(b[p] != 0xff);
                assert(wf_chunks(b, p, major as int) == wf_chunks(b, cnext + cn, major as int));
            }
        }
        self.take(1)?;
        Ok(characters)
    }

    /// Scans the elements of an array (`major` 4), the entries of a map (5)
    /// or the content of a tag (6) whose head was just read.
    fn container(&mut self, depth: usize, role: Role, major: u8, arg: Option<u64>) -> (r: Result<(), Problem>)
        requires
            old(self).pos <= old(self).bytes@.len(),
            old(self).items <= old(self).limits.max_cbor_items,
            4 <= major <= 6,
            depth < old(self).limits.max_cbor_nesting,
        ensures
            old(self).frame(&*final(self)),
            r is Ok ==> final(self).items <= old(self).limits.max_cbor_items,
            r is Ok ==> ({
                let b = old(self).bytes@;
                let pos = old(self).pos as int;
                let room = old(self).limits.max_cbor_nesting - depth - 1;
                let end = Some(final(self).pos as int);
                if major == 4 {
                    match arg {
                        Some(n) => wf_seq(b, pos, n as int, room) == end,
                        None => wf_seq_indef(b, pos, room) == end,
                    }
                } else if major == 5 {
                    match arg {
                        Some(n) => wf_seq(b, pos, 2 * n, room) == end,
                        None => wf_pairs_indef(b, pos, room) == end,
                    }
                } else {
                    arg is Some && wf_item(b, pos, room) == end
                }
            }),
            count_problem(*old(self).limits, role, major as int, arg_int(arg), old(self).items as int) matches Some(p)
                ==> r == Err::<(), Problem>(p) && final(self).pos == old(self).pos && final(self).items == old(self).items,
            match scan_container(old(self).bytes@, old(self).pos as int, depth as int, role, major as int, arg_int(arg),
                *old(self).limits, old(self).state()) {
                Some((e, st)) => r is Ok && final(self).pos == e && final(self).state() == st,
                None => r is Err,
            },
        decreases old(self).bytes@.len() - old(self).pos, 1int,
    {
        let ghost b = self.bytes@;
        let ghost first = self.pos as int;
        let ghost room = self.limits.max_cbor_nesting as int - depth as int - 1;
        let ghost st0 = self.state();
        let ghost l = *self.limits;
        let _ = self.bytes.len();
        if major == 6 {
            let tag = match arg {
                Some(t) => t,
                None => return Err(Problem::structure("invalid_cbor")),
            };
            let child = if matches!(role, Role::Envelope) && tag == 18 { Role::Sign1 } else { Role::Any };
            self.item(depth + 1, child)?;
            return Ok(());
        }
        let count: Option<usize> = match arg {
            Some(n) => Some(Self::length(n)?),
            None => None,
        };
        let (limit, code) = if major == 5 {
            (self.limits.max_map_entries, "map_entry_limit")
        } else {
            self.array_limit(role)
        };
        if let Some(n) = count {
            if n > limit {
                return Err(Problem::policy(code));
            }
            let items = match n.checked_mul(if major == 5 { 2 } else { 1 }) {
                Some(v) => v,
                None => return Err(Problem::policy("cbor_item_limit")),
            };
            if items > self.limits.max_cbor_items.saturating_sub(self.items) {
                return Err(Problem::policy("cbor_item_limit"));
            }
        }
        let ghost limit_i = container_limit(l, role, major as int);
        assert(limit as int == limit_i);
        let mut i: usize = 0;
        match count {
            Some(n) => {
                let ghost per: int = if major == 5 { 2 } else { 1 };
                while i < n
                    invariant
                        old(self).frame(&*self),
                        self.bytes@ == b,
                        self.limits == old(self).limits,
                        self.items <= self.limits.max_cbor_items,
                        depth < self.limits.max_cbor_nesting,
                        room == self.limits.max_cbor_nesting as int - depth as int - 1,
                        first == old(self).pos as int,
                        major == 4 || major == 5,
                        per == (if major == 5 { 2int } else { 1int }),
                        i <= n,
                        first <= self.pos,
                        wf_seq(b, first, per * n, room) == wf_seq(b, self.pos as int, per * (n - i), room),
                        l == *self.limits,
                        st0 == old(self).state(),
                        limit as int == limit_i,
                        count_problem(l, role, major as int, arg_int(arg), st0.items) is None,
                        scan_container(b, first, depth as int, role, major as int, arg_int(arg), l, st0)
                            == scan_elems(b, self.pos as int, depth as int, role, major as int, n as int, i as int, limit_i, l,
                                self.state()),
                    decreases n - i,
                {
                    if i >= limit {
                        return Err(Problem::policy(code));
                    }
                    let ghost p = self.pos as int;
                    let ghost sp = self.state();
                    proof {
                        assert(scan_elems(b, p, depth as int, role, major as int, n as int, i as int, limit_i, l, sp)
                            == match scan_element(b, p, depth as int, role, major as int, i as int, l, sp) {
                                Some((e, s)) => if p < e <= b.len() {
                                    scan_elems(b, e, depth as int, role, major as int, n as int, i as int + 1, limit_i, l, s)
                                } else {
                                    None
                                },
                                None => None,
                            });
                    }
                    let child = if major == 5 {
                        let label_role = match role {
                            Role::ProtectedMap | Role::Unprotected | Role::Vdp => Role::HeaderLabel,
                            Role::Claims => Role::ClaimLabel,
                            _ => Role::Any,
                        };
                        proof {
                            assert(label_role == key_role(role));
                        }
                        let key = match self.item(depth + 1, label_role) {
                            Ok(key) => key,
                            Err(e) => {
                                proof {
                                    assert(scan_element(b, p, depth as int, role, major as int, i as int, l, sp) is None);
                                }
                                return Err(e);
                            },
                        };
                        let ghost k = self.pos as int;
                        let ghost sk = self.state();
                        proof {
                            assert(wf_seq(b, p, per * (n - i), room) == wf_seq(b, k, per * (n - i) - 1, room));
                        }
                        let c = self.child_for_key(role, key);
                        proof {
                            assert(self.state() == with_key(role, key, sk));
                        }
                        c
                    } else {
                        Self::child_for_index(role, i)
                    };
                    let ghost q = self.pos as int;
                    match self.item(depth + 1, child) {
                        Ok(_) => {},
                        Err(e) => {
                            proof {
                                assert(scan_element(b, p, depth as int, role, major as int, i as int, l, sp) is None);
                            }
                            return Err(e);
                        },
                    }
                    proof {
                        assert(scan_element(b, p, depth as int, role, major as int, i as int, l, sp)
                            == Some((self.pos as int, self.state())));
                        assert(wf_seq(b, q, per * (n - i) - (per - 1), room) == wf_seq(b, self.pos as int, per * (n - i) - per, room));
                        assert(per * (n - i) - per == per * (n - (i + 1))) by (nonlinear_arith)
                            requires per == 1 || per == 2;
                    }
                    i = i + 1;
                }
                proof {
                    assert(per * (n - i) == 0);
                }
            },
            None => {
                while !(self.pos < self.bytes.len() && self.bytes[self.pos] == 0xff)
                    invariant
                        old(self).frame(&*self),
                        self.bytes@ == b,
                        self.limits == old(self).limits,
                        self.items <= self.limits.max_cbor_items,
                        depth < self.limits.max_cbor_nesting,
                        room == self.limits.max_cbor_nesting as int - depth as int - 1,
                        first == old(self).pos as int,
                        major == 4 || major == 5,
                        first <= self.pos,
                        major == 4 ==> wf_seq_indef(b, first, room) == wf_seq_indef(b, self.pos as int, room),
                        major == 5 ==> wf_pairs_indef(b, first, room) == wf_pairs_indef(b, self.pos as int, room),
                        l == *self.limits,
                        st0 == old(self).state(),
                        limit as int == limit_i,
                        arg is None,
                        count_problem(l, role, major as int, arg_int(arg), st0.items) is None,
                        scan_container(b, first, depth as int, role, major as int, arg_int(arg), l, st0)
                            == scan_elems_indef(b, self.pos as int, depth as int, role, major as int, i as int, limit_i, l,
                                self.state()),
                    decreases b.len() - self.pos,
                {
                    if i >= limit {
                        return Err(Problem::policy(code));
                    }
                    let ghost p = self.pos as int;
                    let ghost sp = self.state();
                    proof {
                        assert(scan_elems_indef(b, p, depth as int, role, major as int, i as int, limit_i, l, sp)
                            == match scan_element(b, p, depth as int, role, major as int, i as int, l, sp) {
                                Some((e, s)) => if p < e <= b.len() {
                                    scan_elems_indef(b, e, depth as int, role, major as int, i as int + 1, limit_i, l, s)
                                } else {
                                    None
                                },
                                None => None,
                            });
                    }
                    let child = if major == 5 {
                        let label_role = match role {
                            Role::ProtectedMap | Role::Unprotected | Role::Vdp => Role::HeaderLabel,
                            Role::Claims => Role::ClaimLabel,
                            _ => Role::Any,
                        };
                        proof {
                            assert(label_role == key_role(role));
                        }
                        let key = match self.item(depth + 1, label_role) {
                            Ok(key) => key,
                            Err(e) => {
                                proof {
                                    assert(scan_element(b, p, depth as int, role, major as int, i as int, l, sp) is None);
                                }
                                return Err(e);
                            },
                        };
                        let ghost sk = self.state();
                        let c = self.child_for_key(role, key);
                        proof {
                            assert(self.state() == with_key(role, key, sk));
                        }
                        c
                    } else {
                        Self::child_for_index(role, i)
                    };
                    match self.item(depth + 1, child) {
                        Ok(_) => {},
                        Err(e) => {
                            proof {
                                assert(scan_element(b, p, depth as int, role, major as int, i as int, l, sp) is None);
                            }
                            return Err(e);
                        },
                    }
                    proof {
                        assert(b[p] != 0xff);
                        assert(scan_element(b, p, depth as int, role, major as int, i as int, l, sp)
                            == Some((self.pos as int, self.state())));
                    }
                    i = match i.checked_add(1) {
                        Some(v) => v,
                        None => return Err(Problem::policy(code)),
                    };
                }
                self.take(1)?;
            },
        }
        Ok(())
    }

    /// The role of a map value, selected by the role of the map and the
    /// integer key just read.
    fn child_for_key(&mut self, role: Role, key: Option<i128>) -> (child: Role)
        ensures
            final(self).bytes == old(self).bytes,
            final(self).pos == old(self).pos,
            final(self).limits == old(self).limits,
            final(self).items == old(self).items,
            final(self).issuer_characters == old(self).issuer_characters,
            final(self).subject_characters == old(self).subject_characters,
            final(self).unprotected_x5t_invalid == old(self).unprotected_x5t_invalid,
            final(self).x509 == (old(self).x509 || marks_x509(role, key)),
            child == key_child(role, key),
    {
        if matches!(role, Role::ProtectedMap) && (key == Some(33i128) || key == Some(34i128)) {
            self.x509 = true;
        }
        match (role, key) {
            (Role::ProtectedMap, Some(1)) | (Role::ProtectedMap, Some(395)) => Role::RequiredInteger,
            (Role::ProtectedMap, Some(2)) => Role::Critical,
            (Role::ProtectedMap, Some(15)) => Role::Claims,
            (Role::ProtectedMap, Some(34)) => Role::Thumbprint,
            (Role::Unprotected, Some(34)) => Role::UnprotectedThumbprint,
            (Role::ProtectedMap, Some(33)) | (Role::Unprotected, Some(33)) => Role::Chain,
            (Role::Claims, Some(1)) => Role::Issuer,
            (Role::Claims, Some(2)) => Role::Subject,
            (Role::Unprotected, Some(396)) => Role::Vdp,
            (Role::Vdp, Some(-1)) => Role::Proofs,
            _ => Role::Any,
        }
    }

    /// The role of an array element, selected by the role of the array and
    /// the element's position.
    fn child_for_index(role: Role, i: usize) -> (child: Role)
        ensures
            child == index_child(role, i as int),
    {
        match (role, i) {
            (Role::Sign1, 0) => Role::Protected,
            (Role::Sign1, 1) => Role::Unprotected,
            (Role::Sign1, 3) => Role::Signature,
            (Role::Proof, 0) => Role::TreeSize,
            (Role::Proof, 1) => Role::LeafIndex,
            (Role::Proof, 2) => Role::Path,
            (Role::Critical, _) => Role::CriticalLabel,
            (Role::Thumbprint, 0) => Role::ThumbprintAlgorithm,
            (Role::UnprotectedThumbprint, 0) => Role::UnprotectedThumbprintAlgorithm,
            (Role::Chain, _) => Role::Certificate,
            _ => Role::Any,
        }
    }
}

impl<'a> Budget<'a> {
    /// Scans `bytes` as exactly one data item, starting at nesting `depth`.
    ///
    /// Succeeds only when `bytes` is a single well-formed CBOR data item
    /// (RFC 8949) whose arrays, maps and tags nest within the remaining
    /// nesting budget, and when the running item count stays within
    /// `max_cbor_items`. Trailing bytes fail with `Problem::structure(trailing)`.
    pub fn scan(&mut self, bytes: &[u8], depth: usize, role: Role, trailing: &'static str) -> (r: Result<(), Problem>)
        ensures
            final(self).limits == old(self).limits,
            final(self).items >= old(self).items,
            r is Ok ==> wf_cbor(bytes@, old(self).limits.max_cbor_nesting - depth),
            r is Ok ==> final(self).items <= old(self).limits.max_cbor_items,
            bytes@.len() == 0 ==> r is Err,
            r is Ok <==> scan_accepts(bytes@, depth as int, role, *old(self).limits, old(self).items as int),
            r is Ok ==> final(self).items > old(self).items,
            old(self).unprotected_x5t_invalid ==> final(self).unprotected_x5t_invalid,
            match scan_item(bytes@, 0, depth as int, role, *old(self).limits,
                ScanState { items: old(self).items as int, issuer: 0, subject: 0, x509: false }) {
                Some((e, s, _)) => final(self).items == s.items
                    && (e != bytes@.len() ==> r == Err::<(), Problem>(Problem::structure(trailing))),
                None => true,
            },
    {
        let mut reader = Reader {
            bytes,
            pos: 0,
            limits: self.limits,
            items: self.items,
            unprotected_x5t_invalid: self.unprotected_x5t_invalid,
            issuer_characters: 0,
            subject_characters: 0,
            x509: false,
        };
        let result = reader.item(depth, role);
        self.items = reader.items;
        self.unprotected_x5t_invalid = reader.unprotected_x5t_invalid;
        result?;
        if reader.pos != bytes.len() {
            return Err(Problem::structure(trailing));
        }
        if reader.x509 && reader.issuer_characters > 8192 {
            return Err(Problem::claims("issuer_length"));
        }
        if reader.issuer_characters > self.limits.max_claim_text_characters
            || reader.subject_characters > self.limits.max_claim_text_characters {
            return Err(Problem::policy("claim_text_limit"));
        }
        Ok(())
    }
}

/// Relates a head byte and its decoded argument to `cbor_head`.
proof fn lemma_head(b: Seq<u8>, start: int, head: u8, major: u8, ai: u8, arg: Option<u64>, next: int)
    requires
        0 <= start < b.len(),
        b[start] == head,
        major as int == head as int / 32,
        ai as int == head as int % 32,
        next <= b.len(),
        ai <= 23 ==> arg == Some(ai as u64) && next == start + 1,
        24 <= ai <= 27 ==> arg == Some(big_endian(b, start + 1, argument_width(ai as int)) as u64)
            && next == start + 1 + argument_width(ai as int)
            && big_endian(b, start + 1, argument_width(ai as int)) < 0x1_0000_0000_0000_0000,
        ai == 31 ==> arg is None && next == start + 1,
        !(28 <= ai <= 30),
    ensures
        cbor_head(b, start) is Some,
        cbor_head(b, start).unwrap().0 == major as int,
        cbor_head(b, start).unwrap().1 == ai as int,
        cbor_head(b, start).unwrap().2 == (match arg { Some(v) => Some(v as int), None => None::<int> }),
        cbor_head(b, start).unwrap().3 == next,
        start < next,
        major <= 7,
{
    if 24 <= ai <= 27 {
        lemma_big_endian_bound(b, start + 1, argument_width(ai as int));
    }
}

proof fn lemma_pow256_mono(a: int, b: int)
    requires
        0 <= a <= b,
    ensures
        pow256(a) <= pow256(b),
    decreases b - a,
{
    if a < b {
        lemma_pow256_mono(a, b - 1);
        assert(pow256(b - 1) >= 1) by {
            lemma_pow256_pos(b - 1);
        }
    }
}

proof fn lemma_pow256_pos(a: int)
    ensures
        pow256(a) >= 1,
    decreases a,
{
    if a > 0 {
        lemma_pow256_pos(a - 1);
    }
}

} // verus!
