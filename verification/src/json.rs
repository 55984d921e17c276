//! JSON values as the library reads them, and their RFC 8785 (JCS)
//! canonical serialization.
use vstd::prelude::*;
use crate::error::Error;
use crate::text::str_chars;

verus! {

/// A JSON number as `serde_json` distinguishes it: a signed or unsigned
/// 64-bit integer, or the IEEE 754 binary64 bits of any other number.
#[derive(Debug, Clone, Copy, PartialEq, Eq)]
pub enum JsonNumber {
    Int(i64),
    UInt(u64),
    Float(u64),
}

/// A JSON value. Object members keep the order they are held in: members
/// read from text come as `serde_json` hands them over, sorted by key with
/// the last of duplicate keys kept; values the library builds keep the
/// order they were built in.
#[derive(Debug)]
pub enum JsonValue {
    Null,
    Bool(bool),
    Number(JsonNumber),
    Str(String),
    Array(Vec<JsonValue>),
    Object(Vec<(String, JsonValue)>),
}

/// The mathematical model of a JSON value.
pub enum JsonV {
    Null,
    Bool(bool),
    Int(int),
    Float(u64),
    Str(Seq<char>),
    Array(Seq<JsonV>),
    Object(Seq<(Seq<char>, JsonV)>),
}

impl View for JsonValue {
    type V = JsonV;

    open spec fn view(&self) -> JsonV
        decreases self,
    {
        match self {
            JsonValue::Null => JsonV::Null,
            JsonValue::Bool(b) => JsonV::Bool(*b),
            JsonValue::Number(JsonNumber::Int(i)) => JsonV::Int(*i as int),
            JsonValue::Number(JsonNumber::UInt(u)) => JsonV::Int(*u as int),
            JsonValue::Number(JsonNumber::Float(f)) => JsonV::Float(*f),
            JsonValue::Str(s) => JsonV::Str(s@),
            JsonValue::Array(items) => JsonV::Array(json_items(items@)),
            JsonValue::Object(members) => JsonV::Object(json_members(members@)),
        }
    }
}

/// The models of a sequence of JSON values.
pub open spec fn json_items(items: Seq<JsonValue>) -> Seq<JsonV>
    decreases items,
{
    if items.len() == 0 {
        Seq::empty()
    } else {
        json_items(items.drop_last()).push(items.last().view())
    }
}

/// The models of a sequence of object members.
pub open spec fn json_members(members: Seq<(String, JsonValue)>) -> Seq<(Seq<char>, JsonV)>
    decreases members,
{
    if members.len() == 0 {
        Seq::empty()
    } else {
        json_members(members.drop_last()).push((members.last().0@, members.last().1.view()))
    }
}

pub proof fn lemma_json_items(s: Seq<JsonValue>)
    ensures
        json_items(s).len() == s.len(),
        forall|i: int| 0 <= i < s.len() ==> #[trigger] json_items(s)[i] == s[i]@,
    decreases s.len(),
{
    if s.len() > 0 {
        lemma_json_items(s.drop_last());
        assert(json_items(s) == json_items(s.drop_last()).push(s.last()@));
        assert forall|i: int| 0 <= i < s.len() implies #[trigger] json_items(s)[i] == s[i]@ by {
            if i < s.len() - 1 {
                assert(s.drop_last()[i] == s[i]);
            }
        }
    }
}

pub proof fn lemma_json_members(s: Seq<(String, JsonValue)>)
    ensures
        json_members(s).len() == s.len(),
        forall|i: int| 0 <= i < s.len() ==> #[trigger] json_members(s)[i] == (s[i].0@, s[i].1@),
    decreases s.len(),
{
    if s.len() > 0 {
        lemma_json_members(s.drop_last());
        assert(json_members(s) == json_members(s.drop_last()).push((s.last().0@, s.last().1@)));
        assert forall|i: int| 0 <= i < s.len() implies #[trigger] json_members(s)[i] == (s[i].0@, s[i].1@) by {
            if i < s.len() - 1 {
                assert(s.drop_last()[i] == s[i]);
            }
        }
    }
}

/// The value of the first member named `key`, searching from index `i`.
pub open spec fn member_from(ms: Seq<(Seq<char>, JsonV)>, key: Seq<char>, i: int) -> Option<JsonV>
    decreases ms.len() - i,
{
    if i < 0 || i >= ms.len() {
        None
    } else if ms[i].0 == key {
        Some(ms[i].1)
    } else {
        member_from(ms, key, i + 1)
    }
}

/// The value of the member named `key` of an object (`serde_json`'s
/// `Value::get` with a string index); `None` for any other value.
pub open spec fn json_get(v: JsonV, key: Seq<char>) -> Option<JsonV> {
    match v {
        JsonV::Object(ms) => member_from(ms, key, 0),
        _ => None,
    }
}

/// The member named `key` of an object value.
pub fn get_member<'a>(v: &'a JsonValue, key: &str) -> (r: Option<&'a JsonValue>)
    ensures
        match json_get(v@, key@) {
            Some(m) => r matches Some(x) && x@ == m,
            None => r is None,
        },
{
    match v {
        JsonValue::Object(members) => {
            let ghost ms = json_members(members@);
            proof {
                lemma_json_members(members@);
            }
            let mut i: usize = 0;
            while i < members.len()
                invariant
                    i <= members@.len(),
                    ms == json_members(members@),
                    v@ == JsonV::Object(ms),
                    ms.len() == members@.len(),
                    forall|j: int| 0 <= j < members@.len() ==> #[trigger] ms[j] == (members@[j].0@, members@[j].1@),
                    member_from(ms, key@, 0) == member_from(ms, key@, i as int),
                decreases members@.len() - i,
            {
                if crate::text::str_eq(members[i].0.as_str(), key) {
                    return Some(&members[i].1);
                }
                i = i + 1;
            }
            None
        }
        _ => None,
    }
}

/// The JSON value `serde_json` reads from `bytes`, or `None` when the bytes
/// are not one JSON text.
pub uninterp spec fn json_parse(bytes: Seq<u8>) -> Option<JsonV>;

/// The lowercase hexadecimal digit of `n`, for `0 <= n < 16`.
pub open spec fn hex_digit_char(n: int) -> char {
    if n < 10 { (48 + n) as char } else { (87 + n) as char }
}

/// How `serde_json` writes one character inside a string literal: `"` and
/// `\` escaped by a backslash; backspace, tab, line feed, form feed and
/// carriage return as `\b`, `\t`, `\n`, `\f`, `\r`; any other control
/// character below U+0020 as `\u00` and two lowercase hex digits; every
/// other character as itself.
pub open spec fn json_escape_char(c: char) -> Seq<char> {
    let n = c as int;
    if c == '"' {
        seq!['\\', '"']
    } else if c == '\\' {
        seq!['\\', '\\']
    } else if n == 8 {
        seq!['\\', 'b']
    } else if n == 9 {
        seq!['\\', 't']
    } else if n == 10 {
        seq!['\\', 'n']
    } else if n == 12 {
        seq!['\\', 'f']
    } else if n == 13 {
        seq!['\\', 'r']
    } else if n < 32 {
        seq!['\\', 'u', '0', '0', hex_digit_char(n / 16), hex_digit_char(n % 16)]
    } else {
        seq![c]
    }
}

/// The escaped characters of a text, in order.
pub open spec fn json_escaped(text: Seq<char>) -> Seq<char>
    decreases text.len(),
{
    if text.len() == 0 {
        Seq::empty()
    } else {
        json_escaped(text.drop_last()) + json_escape_char(text.last())
    }
}

/// The JSON string literal `serde_json::to_string` writes for a text: the
/// escaped text between quotes. Writing it never fails.
pub open spec fn json_quoted(text: Seq<char>) -> Option<Seq<char>> {
    Some(seq!['"'] + json_escaped(text) + seq!['"'])
}

/// The shortest round-trip ECMAScript number text `ryu_js` writes for a
/// finite binary64 value.
pub uninterp spec fn ryu_js_text(bits: u64) -> Seq<char>;

#[verifier::external_type_specification]
#[verifier::external_body]
pub struct ExSerdeJsonValue(serde_json::Value);

/// A `serde_json` number, carried opaque.
#[verifier::external_type_specification]
#[verifier::external_body]
pub struct ExSerdeJsonNumber(serde_json::Number);

/// Converts a `serde_json` value, one variant for one; numbers that fit
/// `i64`, then `u64`, are integers, others their binary64 bits.
#[verifier::external_body]
fn from_serde(value: serde_json::Value) -> JsonValue {
    match value {
        serde_json::Value::Null => JsonValue::Null,
        serde_json::Value::Bool(b) => JsonValue::Bool(b),
        serde_json::Value::Number(n) => JsonValue::Number(from_serde_number(n)),
        serde_json::Value::String(s) => JsonValue::Str(s),
        serde_json::Value::Array(items) => JsonValue::Array(items.into_iter().map(from_serde).collect()),
        serde_json::Value::Object(map) => JsonValue::Object(map.into_iter().map(|(k, v)| (k, from_serde(v))).collect()),
    }
}

/// Converts a `serde_json` number: a signed integer, an unsigned integer, or
/// the binary64 bits of any other number.
#[verifier::external_body]
fn from_serde_number(n: serde_json::Number) -> JsonNumber {
    match (n.as_i64(), n.as_u64(), n.as_f64()) {
        (Some(i), _, _) => JsonNumber::Int(i),
        (None, Some(u), _) => JsonNumber::UInt(u),
        (None, None, x) => JsonNumber::Float(x.map(|x| x.to_bits()).unwrap_or(0)),
    }
}

/// `serde_json::from_slice::<serde_json::Value>`: the JSON value `bytes`
/// hold, or the parser's error message.
#[verifier::external_body]
pub(crate) fn parse_json(bytes: &[u8]) -> (r: Result<JsonValue, String>)
    ensures
        r is Ok <==> json_parse(bytes@) is Some,
        r matches Ok(v) ==> json_parse(bytes@) == Some(v@),
{
    match serde_json::from_slice::<serde_json::Value>(bytes) {
        Ok(value) => Ok(from_serde(value)),
        Err(error) => Err(error.to_string()),
    }
}

/// `serde_json::to_string` on a text: its JSON string literal. Writing a
/// text into a byte vector reports no error, so the literal is always there.
#[verifier::external_body]
fn quote_json(text: &str) -> (r: Option<String>)
    ensures
        r is Some,
        r matches Some(s) ==> json_quoted(text@) == Some(s@),
{
    serde_json::to_string(text).ok()
}

/// The indented text `serde_json::to_string_pretty` writes for a JSON
/// value, or `None` when it reports an error.
pub uninterp spec fn json_pretty(v: JsonV) -> Option<Seq<char>>;

/// Converts a number back to `serde_json`, one variant for one; binary64
/// bits go through their CBOR float item.
#[verifier::external_body]
fn to_serde_number(n: JsonNumber) -> serde_json::Value {
    let mut encoded = vec![0xfbu8];
    match n {
        JsonNumber::Int(i) => serde_json::Value::from(i),
        JsonNumber::UInt(u) => serde_json::Value::from(u),
        JsonNumber::Float(bits) => {
            encoded.extend_from_slice(&bits.to_be_bytes());
            match coset::cbor::de::from_reader::<coset::cbor::Value, _>(encoded.as_slice()) {
                Ok(coset::cbor::Value::Float(x)) => serde_json::Value::from(x),
                _ => serde_json::Value::Null,
            }
        },
    }
}

/// Converts a JSON value back to `serde_json`, one variant for one.
#[verifier::external_body]
fn to_serde(value: &JsonValue) -> serde_json::Value {
    match value {
        JsonValue::Null => serde_json::Value::Null,
        JsonValue::Bool(b) => serde_json::Value::Bool(*b),
        JsonValue::Number(n) => to_serde_number(*n),
        JsonValue::Str(s) => serde_json::Value::String(s.clone()),
        JsonValue::Array(items) => serde_json::Value::Array(items.iter().map(to_serde).collect()),
        JsonValue::Object(ms) => serde_json::Value::Object(ms.iter().map(|(k, v)| (k.clone(), to_serde(v))).collect()),
    }
}

/// `serde_json::to_string_pretty` on a value: its indented text, or the
/// serializer's error message.
#[verifier::external_body]
pub(crate) fn pretty_json(value: &JsonValue) -> (r: Result<String, String>)
    ensures
        match json_pretty(value@) {
            Some(t) => r matches Ok(s) && s@ == t,
            None => r is Err,
        },
{
    serde_json::to_string_pretty(&to_serde(value)).map_err(|e| e.to_string())
}

/// Whether binary64 bits encode a finite value.
pub open spec fn finite_bits(bits: u64) -> bool {
    (bits & 0x7ff0_0000_0000_0000u64) != 0x7ff0_0000_0000_0000u64
}

/// `ryu_js::Buffer::format_finite`: the ECMAScript number text of the
/// finite binary64 value with bits `bits`.
#[verifier::external_body]
fn format_number(bits: u64) -> (r: String)
    requires
        finite_bits(bits),
    ensures
        r@ == ryu_js_text(bits),
{
    let mut encoded = vec![0xfbu8];
    encoded.extend_from_slice(&bits.to_be_bytes());
    match coset::cbor::de::from_reader::<coset::cbor::Value, _>(encoded.as_slice()) {
        Ok(coset::cbor::Value::Float(x)) => ryu_js::Buffer::new().format_finite(x).to_owned(),
        _ => String::new(),
    }
}


/// The decimal digits of a natural number, most significant first.
pub open spec fn nat_digits(n: nat) -> Seq<u8>
    decreases n,
{
    if n < 10 {
        seq![(n + 48) as u8]
    } else {
        nat_digits(n / 10).push((n % 10 + 48) as u8)
    }
}

/// The decimal text of an integer, with a leading `-` when negative.
pub open spec fn int_text(i: int) -> Seq<u8> {
    if i < 0 { seq![45u8] + nat_digits((-i) as nat) } else { nat_digits(i as nat) }
}

/// Whether bytes are one or more ASCII decimal digits.
pub open spec fn is_decimal(s: Seq<u8>) -> bool {
    s.len() > 0 && forall|k: int| 0 <= k < s.len() ==> 48 <= #[trigger] s[k] <= 57
}

/// The number that ASCII decimal digits denote, most significant first.
pub open spec fn decimal_value(s: Seq<u8>) -> int
    decreases s.len(),
{
    if s.len() == 0 {
        0
    } else {
        decimal_value(s.drop_last()) * 10 + (s.last() - 48)
    }
}

proof fn lemma_nat_digits(n: nat)
    ensures
        is_decimal(nat_digits(n)),
        decimal_value(nat_digits(n)) == n,
        nat_digits(n).len() > 1 ==> nat_digits(n)[0] != 48u8,
    decreases n,
{
    if n >= 10 {
        lemma_nat_digits(n / 10);
        let d = nat_digits(n / 10);
        assert(nat_digits(n).drop_last() =~= d);
        assert(nat_digits(n)[0] == d[0]);
        if n / 10 < 10 {
            assert(d == seq![((n / 10) + 48) as u8]);
            assert((((n / 10) + 48) as u8) as int == n / 10 + 48);
            assert(d[0] != 48u8);
        } else {
            assert(d.len() > 1) by {
                assert(d == nat_digits(n / 10 / 10).push((n / 10 % 10 + 48) as u8));
            }
        }
        let last = (n % 10 + 48) as u8;
        assert(last as int == n % 10 + 48);
        assert(nat_digits(n).last() == last);
        assert(decimal_value(nat_digits(n)) == decimal_value(d) * 10 + (n % 10));
        assert((n / 10) * 10 + n % 10 == n);
    } else {
        let d = nat_digits(n);
        assert(d == seq![(n + 48) as u8]);
        assert(d.drop_last() =~= Seq::<u8>::empty());
        assert(decimal_value(d) == decimal_value(d.drop_last()) * 10 + (d.last() - 48));
    }
}

/// The canonical text of an integer is its decimal numeral: a `-` first
/// exactly when it is negative, then digits with no leading zero that read
/// back as its magnitude.
pub proof fn lemma_int_text_is_numeral(i: int)
    ensures
        i < 0 ==> int_text(i).len() > 1 && int_text(i)[0] == 45u8 && is_decimal(int_text(i).drop_first())
            && decimal_value(int_text(i).drop_first()) == -i,
        i >= 0 ==> is_decimal(int_text(i)) && decimal_value(int_text(i)) == i,
        i < 0 ==> int_text(i).drop_first().len() > 1 ==> int_text(i)[1] != 48u8,
        i >= 0 ==> int_text(i).len() > 1 ==> int_text(i)[0] != 48u8,
{
    if i < 0 {
        lemma_nat_digits((-i) as nat);
        assert(int_text(i).drop_first() =~= nat_digits((-i) as nat));
    } else {
        lemma_nat_digits(i as nat);
    }
}

/// Distinct integers have distinct canonical texts.
pub proof fn lemma_int_text_injective(i: int, j: int)
    ensures
        int_text(i) == int_text(j) ==> i == j,
{
    lemma_int_text_is_numeral(i);
    lemma_int_text_is_numeral(j);
    if int_text(i) == int_text(j) {
        if i < 0 && j >= 0 {
            assert(48 <= int_text(j)[0] <= 57);
        } else if j < 0 && i >= 0 {
            assert(48 <= int_text(i)[0] <= 57);
        }
    }
}

fn push_digits(n: u64, out: &mut Vec<u8>)
    ensures
        final(out)@ == old(out)@ + nat_digits(n as nat),
    decreases n,
{
    if n >= 10 {
        push_digits(n / 10, out);
    }
    out.push((n % 10 + 48) as u8);
    proof {
        if n >= 10 {
            assert(nat_digits(n as nat) == nat_digits((n / 10) as nat).push((n % 10 + 48) as u8));
        }
    }
}

fn push_int(i: i128, out: &mut Vec<u8>)
    requires
        -0x1_0000_0000_0000_0000 < i < 0x1_0000_0000_0000_0000,
    ensures
        final(out)@ == old(out)@ + int_text(i as int),
        i < 0 ==> final(out)@[old(out)@.len() as int] == 45u8,
        decimal_value(final(out)@.skip(old(out)@.len() + (if i < 0 { 1int } else { 0int }))) == (if i < 0 { -i } else { i as int }),
{
    proof {
        lemma_int_text_is_numeral(i as int);
    }
    if i < 0 {
        out.push(45u8);
        let m = (0 - i) as u64;
        push_digits(m, out);
        assert(out@ =~= old(out)@ + int_text(i as int));
    } else {
        push_digits(i as u64, out);
    }
    proof {
        let start = old(out)@.len() + (if i < 0 { 1int } else { 0int });
        if i < 0 {
            assert(out@.skip(start) =~= int_text(i as int).drop_first());
        } else {
            assert(out@.skip(start) =~= int_text(i as int));
        }
    }
}

/// The UTF-16 code units of one character.
pub open spec fn char_utf16(c: char) -> Seq<u16> {
    let v = (c as u32) as int;
    if v < 0x10000 {
        seq![v as u16]
    } else {
        let w = v - 0x10000;
        seq![(0xD800 + w / 0x400) as u16, (0xDC00 + w % 0x400) as u16]
    }
}

/// The UTF-16 code units of a text (`str::encode_utf16`).
pub open spec fn utf16(s: Seq<char>) -> Seq<u16>
    decreases s.len(),
{
    if s.len() == 0 {
        Seq::empty()
    } else {
        utf16(s.drop_last()) + char_utf16(s.last())
    }
}

fn utf16_units(s: &str) -> (r: Vec<u16>)
    ensures
        r@ == utf16(s@),
{
    let chars = str_chars(s);
    let mut out: Vec<u16> = Vec::new();
    let mut i: usize = 0;
    assert(chars@.take(0) =~= Seq::<char>::empty());
    while i < chars.len()
        invariant
            i <= chars@.len(),
            chars@ == s@,
            out@ == utf16(chars@.take(i as int)),
        decreases chars@.len() - i,
    {
        let c = chars[i];
        let v = c as u32;
        proof { vstd::utf8::char_is_scalar(c); }
        assert(v <= 0x10FFFF);
        assert(chars@.take(i + 1).drop_last() =~= chars@.take(i as int));
        assert(chars@.take(i + 1).last() == c);
        if v < 0x10000 {
            out.push(v as u16);
        } else {
            let w = v - 0x10000;
            out.push((0xD800 + w / 0x400) as u16);
            out.push((0xDC00 + w % 0x400) as u16);
        }
        assert(out@ =~= utf16(chars@.take(i as int)) + char_utf16(c));
        i = i + 1;
    }
    assert(chars@.take(i as int) =~= chars@);
    out
}

/// Lexicographic order on UTF-16 code-unit sequences (a proper prefix
/// comes first).
pub open spec fn units_lt(a: Seq<u16>, b: Seq<u16>) -> bool
    decreases a.len(),
{
    if a.len() == 0 {
        b.len() > 0
    } else if b.len() == 0 {
        false
    } else if a[0] != b[0] {
        a[0] < b[0]
    } else {
        units_lt(a.drop_first(), b.drop_first())
    }
}

fn units_less(a: &Vec<u16>, b: &Vec<u16>) -> (r: bool)
    ensures
        r == units_lt(a@, b@),
{
    let mut i: usize = 0;
    assert(a@.skip(0) =~= a@);
    assert(b@.skip(0) =~= b@);
    while i < a.len() && i < b.len()
        invariant
            i <= a@.len(),
            i <= b@.len(),
            units_lt(a@, b@) == units_lt(a@.skip(i as int), b@.skip(i as int)),
        decreases a@.len() - i,
    {
        let ghost sa = a@.skip(i as int);
        let ghost sb = b@.skip(i as int);
        assert(sa[0] == a@[i as int]);
        assert(sb[0] == b@[i as int]);
        if a[i] != b[i] {
            return a[i] < b[i];
        }
        assert(sa.drop_first() =~= a@.skip(i + 1));
        assert(sb.drop_first() =~= b@.skip(i + 1));
        i = i + 1;
    }
    i == a.len() && i < b.len()
}

/// Inserts index `k` into a sorted order before the first index whose key
/// is greater than `k`'s, keeping equal keys in original order.
pub open spec fn insert_index(order: Seq<int>, keys: Seq<Seq<u16>>, k: int) -> Seq<int>
    decreases order.len(),
{
    if order.len() == 0 {
        seq![k]
    } else if units_lt(keys[k], keys[order[0]]) {
        seq![k] + order
    } else {
        seq![order[0]] + insert_index(order.drop_first(), keys, k)
    }
}

/// The stable order of the first `n` indices by key.
pub open spec fn sort_order(keys: Seq<Seq<u16>>, n: int) -> Seq<int>
    decreases n,
{
    if n <= 0 {
        Seq::empty()
    } else {
        insert_index(sort_order(keys, n - 1), keys, n - 1)
    }
}

proof fn lemma_insert_at(order: Seq<int>, keys: Seq<Seq<u16>>, k: int, p: int)
    requires
        0 <= p <= order.len(),
        forall|j: int| 0 <= j < p ==> !units_lt(keys[k], keys[#[trigger] order[j]]),
        p < order.len() ==> units_lt(keys[k], keys[order[p]]),
    ensures
        insert_index(order, keys, k) == order.take(p) + seq![k] + order.skip(p),
    decreases order.len(),
{
    if order.len() == 0 {
        assert(order.take(p) + seq![k] + order.skip(p) =~= seq![k]);
    } else if p == 0 {
        assert(order.take(0) + seq![k] + order.skip(0) =~= seq![k] + order);
    } else {
        assert(!units_lt(keys[k], keys[order[0]]));
        let rest = order.drop_first();
        assert forall|j: int| 0 <= j < p - 1 implies !units_lt(keys[k], keys[#[trigger] rest[j]]) by {
            assert(rest[j] == order[j + 1]);
        }
        if p - 1 < rest.len() {
            assert(rest[p - 1] == order[p]);
        }
        lemma_insert_at(rest, keys, k, p - 1);
        assert(seq![order[0]] + (rest.take(p - 1) + seq![k] + rest.skip(p - 1)) =~= order.take(p) + seq![k] + order.skip(p));
    }
}

/// The stable order of `keys` by UTF-16 code units.
fn sort_by_units(keys: &Vec<Vec<u16>>) -> (r: Vec<usize>)
    ensures
        Seq::new(r@.len(), |i: int| r@[i] as int) == sort_order(Seq::new(keys@.len(), |i: int| keys@[i]@), keys@.len() as int),
        forall|i: int| 0 <= i < r@.len() ==> #[trigger] r@[i] < keys@.len(),
{
    let ghost kv = Seq::new(keys@.len(), |i: int| keys@[i]@);
    let mut order: Vec<usize> = Vec::new();
    let mut k: usize = 0;
    while k < keys.len()
        invariant
            k <= keys@.len(),
            kv == Seq::new(keys@.len(), |i: int| keys@[i]@),
            Seq::new(order@.len(), |i: int| order@[i] as int) == sort_order(kv, k as int),
            forall|i: int| 0 <= i < order@.len() ==> #[trigger] order@[i] < k,
        decreases keys@.len() - k,
    {
        let ghost ov = Seq::new(order@.len(), |i: int| order@[i] as int);
        let mut p: usize = 0;
        while p < order.len() && !units_less(&keys[k], &keys[order[p]])
            invariant
                p <= order@.len(),
                k < keys@.len(),
                kv == Seq::new(keys@.len(), |i: int| keys@[i]@),
                ov == Seq::new(order@.len(), |i: int| order@[i] as int),
                forall|i: int| 0 <= i < order@.len() ==> #[trigger] order@[i] < k,
                forall|j: int| 0 <= j < p ==> !units_lt(kv[k as int], kv[#[trigger] ov[j]]),
            decreases order@.len() - p,
        {
            assert(ov[p as int] == order@[p as int] as int);
            p = p + 1;
        }
        proof {
            if p < order@.len() {
                assert(ov[p as int] == order@[p as int] as int);
            }
            lemma_insert_at(ov, kv, k as int, p as int);
        }
        order.insert(p, k);
        assert(Seq::new(order@.len(), |i: int| order@[i] as int) =~= ov.take(p as int) + seq![k as int] + ov.skip(p as int));
        k = k + 1;
    }
    order
}


/// The UTF-16 keys of object members.
pub open spec fn member_keys(ms: Seq<(Seq<char>, JsonV)>) -> Seq<Seq<u16>> {
    Seq::new(ms.len(), |i: int| utf16(ms[i].0))
}

/// The RFC 8785 canonical serialization of a JSON value: literals,
/// shortest decimal integers, ECMAScript number text for other numbers,
/// `serde_json` string literals, and object members ordered by the UTF-16
/// code units of their keys. `None` when a number is not finite or a string
/// cannot be serialized.
pub open spec fn jcs(v: JsonV) -> Option<Seq<u8>>
    decreases v, 0int,
{
    match v {
        JsonV::Null => Some(seq![110u8, 117u8, 108u8, 108u8]),
        JsonV::Bool(b) => Some(if b { seq![116u8, 114u8, 117u8, 101u8] } else { seq![102u8, 97u8, 108u8, 115u8, 101u8] }),
        JsonV::Int(i) => Some(int_text(i)),
        JsonV::Float(bits) => if finite_bits(bits) { Some(vstd::utf8::encode_utf8(ryu_js_text(bits))) } else { None },
        JsonV::Str(t) => match json_quoted(t) {
            Some(q) => Some(vstd::utf8::encode_utf8(q)),
            None => None,
        },
        JsonV::Array(items) => match jcs_items(items) {
            Some(b) => Some(seq![91u8] + b + seq![93u8]),
            None => None,
        },
        JsonV::Object(ms) => match jcs_members(ms, sort_order(member_keys(ms), ms.len() as int)) {
            Some(b) => Some(seq![123u8] + b + seq![125u8]),
            None => None,
        },
    }
}

/// The comma-separated serializations of array items.
pub open spec fn jcs_items(items: Seq<JsonV>) -> Option<Seq<u8>>
    decreases items, 0int,
{
    if items.len() == 0 {
        Some(Seq::empty())
    } else {
        match (jcs_items(items.drop_last()), jcs(items.last())) {
            (Some(a), Some(b)) => Some(if items.len() == 1 { b } else { a + seq![44u8] + b }),
            _ => None,
        }
    }
}

/// The comma-separated `key:value` serializations of the members at the
/// indices `order`.
pub open spec fn jcs_members(ms: Seq<(Seq<char>, JsonV)>, order: Seq<int>) -> Option<Seq<u8>>
    decreases ms, order.len(),
{
    if order.len() == 0 {
        Some(Seq::empty())
    } else {
        let k = order.last();
        if 0 <= k < ms.len() {
            match (jcs_members(ms, order.drop_last()), json_quoted(ms[k].0), jcs(ms[k].1)) {
                (Some(a), Some(q), Some(b)) => Some(
                    (if order.len() == 1 { Seq::empty() } else { a + seq![44u8] })
                        + vstd::utf8::encode_utf8(q) + seq![58u8] + b,
                ),
                _ => None,
            }
        } else {
            None
        }
    }
}

fn push_str(s: &str, out: &mut Vec<u8>)
    ensures
        final(out)@ == old(out)@ + vstd::utf8::encode_utf8(s@),
{
    out.extend_from_slice(s.as_bytes());
}

fn jcs_error(message: &str) -> (e: Error)
    ensures
        e matches Error::Jcs(m) && m@ == message@,
{
    Error::Jcs(message.to_owned())
}

fn write_canonical(value: &JsonValue, output: &mut Vec<u8>) -> (r: Result<(), Error>)
    ensures
        match jcs(value@) {
            Some(b) => r is Ok && final(output)@ == old(output)@ + b,
            None => r matches Err(e) && e is Jcs,
        },
    decreases value,
{
    match value {
        JsonValue::Null => {
            output.push(110u8);
            output.push(117u8);
            output.push(108u8);
            output.push(108u8);
            assert(output@ =~= old(output)@ + seq![110u8, 117u8, 108u8, 108u8]);
            Ok(())
        }
        JsonValue::Bool(b) => {
            if *b {
                output.push(116u8);
                output.push(114u8);
                output.push(117u8);
                output.push(101u8);
                assert(output@ =~= old(output)@ + seq![116u8, 114u8, 117u8, 101u8]);
            } else {
                output.push(102u8);
                output.push(97u8);
                output.push(108u8);
                output.push(115u8);
                output.push(101u8);
                assert(output@ =~= old(output)@ + seq![102u8, 97u8, 108u8, 115u8, 101u8]);
            }
            Ok(())
        }
        JsonValue::Number(n) => match n {
            JsonNumber::Int(i) => {
                push_int(*i as i128, output);
                Ok(())
            }
            JsonNumber::UInt(u) => {
                push_int(*u as i128, output);
                Ok(())
            }
            JsonNumber::Float(bits) => {
                if (*bits & 0x7ff0_0000_0000_0000u64) == 0x7ff0_0000_0000_0000u64 {
                    return Err(jcs_error("JCS numbers must be finite"));
                }
                let text = format_number(*bits);
                push_str(text.as_str(), output);
                Ok(())
            }
        },
        JsonValue::Str(s) => match quote_json(s.as_str()) {
            Some(q) => {
                push_str(q.as_str(), output);
                Ok(())
            }
            None => Err(jcs_error("string could not be serialized")),
        },
        JsonValue::Array(items) => {
            let ghost iv = json_items(items@);
            proof { lemma_json_items(items@); }
            assert(decreases_to!(*value => *items));
            output.push(91u8);
            let ghost start = output@;
            assert(iv.take(0) =~= Seq::<JsonV>::empty());
            let mut i: usize = 0;
            while i < items.len()
                invariant
                    i <= items@.len(),
                    decreases_to!(*value => *items),
                    iv == json_items(items@),
                    iv.len() == items@.len(),
                    forall|k: int| 0 <= k < items@.len() ==> #[trigger] iv[k] == items@[k]@,
                    jcs_items(iv.take(i as int)) is Some,
                    output@ == start + jcs_items(iv.take(i as int)).unwrap(),
                    start == old(output)@.push(91u8),
                    value@ == JsonV::Array(iv),
                decreases items@.len() - i,
            {
                proof {
                    assert(decreases_to!(*items => items@));
                    assert(decreases_to!(items@ => items@[i as int]));
                }
                let ghost next = iv.take(i + 1);
                assert(next.drop_last() =~= iv.take(i as int));
                assert(next.last() == items@[i as int]@);
                let ghost before = output@;
                if i != 0 {
                    output.push(44u8);
                }
                let ghost mid = output@;
                match write_canonical(&items[i], output) {
                    Ok(()) => {}
                    Err(e) => {
                        proof {
                            assert(jcs_items(next) is None);
                            lemma_items_prefix_none(iv, i + 1);
                        }
                        return Err(e);
                    }
                }
                assert(output@ =~= start + jcs_items(next).unwrap());
                i = i + 1;
            }
            assert(iv.take(i as int) =~= iv);
            output.push(93u8);
            assert(output@ =~= old(output)@ + (seq![91u8] + jcs_items(iv).unwrap() + seq![93u8]));
            Ok(())
        }
        JsonValue::Object(members) => {
            let ghost mv = json_members(members@);
            proof { lemma_json_members(members@); }
            assert(decreases_to!(*value => *members));
            let mut keys: Vec<Vec<u16>> = Vec::new();
            let mut j: usize = 0;
            while j < members.len()
                invariant
                    j <= members@.len(),
                    mv == json_members(members@),
                    mv.len() == members@.len(),
                    forall|k: int| 0 <= k < members@.len() ==> #[trigger] mv[k] == (members@[k].0@, members@[k].1@),
                    keys@.len() == j,
                    forall|k: int| 0 <= k < j ==> #[trigger] keys@[k]@ == utf16(mv[k].0),
                decreases members@.len() - j,
            {
                keys.push(utf16_units(members[j].0.as_str()));
                j = j + 1;
            }
            assert(Seq::new(keys@.len(), |i: int| keys@[i]@) =~= member_keys(mv));
            let order = sort_by_units(&keys);
            let ghost ov = Seq::new(order@.len(), |i: int| order@[i] as int);
            assert(ov == sort_order(member_keys(mv), mv.len() as int));
            output.push(123u8);
            let ghost start = output@;
            assert(ov.take(0) =~= Seq::<int>::empty());
            let mut p: usize = 0;
            while p < order.len()
                invariant
                    p <= order@.len(),
                    decreases_to!(*value => *members),
                    mv == json_members(members@),
                    mv.len() == members@.len(),
                    forall|k: int| 0 <= k < members@.len() ==> #[trigger] mv[k] == (members@[k].0@, members@[k].1@),
                    ov == Seq::new(order@.len(), |i: int| order@[i] as int),
                    forall|i: int| 0 <= i < order@.len() ==> #[trigger] order@[i] < members@.len(),
                    jcs_members(mv, ov.take(p as int)) is Some,
                    output@ == start + jcs_members(mv, ov.take(p as int)).unwrap(),
                    start == old(output)@.push(123u8),
                    value@ == JsonV::Object(mv),
                    ov == sort_order(member_keys(mv), mv.len() as int),
                decreases order@.len() - p,
            {
                let k = order[p];
                proof {
                    assert(decreases_to!(*members => members@));
                    assert(decreases_to!(members@ => members@[k as int]));
                    assert(decreases_to!(members@[k as int] => members@[k as int].1));
                }
                let ghost next = ov.take(p + 1);
                assert(next.drop_last() =~= ov.take(p as int));
                assert(next.last() == k as int);
                assert(mv[k as int] == (members@[k as int].0@, members@[k as int].1@));
                if p != 0 {
                    output.push(44u8);
                }
                let q = match quote_json(members[k].0.as_str()) {
                    Some(q) => q,
                    None => {
                        proof { lemma_members_prefix_none(mv, ov, p + 1); }
                        return Err(jcs_error("string could not be serialized"));
                    }
                };
                push_str(q.as_str(), output);
                output.push(58u8);
                match write_canonical(&members[k].1, output) {
                    Ok(()) => {}
                    Err(e) => {
                        proof { lemma_members_prefix_none(mv, ov, p + 1); }
                        return Err(e);
                    }
                }
                assert(output@ =~= start + jcs_members(mv, next).unwrap());
                p = p + 1;
            }
            assert(ov.take(p as int) =~= ov);
            output.push(125u8);
            assert(output@ =~= old(output)@ + (seq![123u8] + jcs_members(mv, ov).unwrap() + seq![125u8]));
            Ok(())
        }
    }
}

proof fn lemma_items_prefix_none(items: Seq<JsonV>, k: int)
    requires
        0 <= k <= items.len(),
        jcs_items(items.take(k)) is None,
    ensures
        jcs_items(items) is None,
    decreases items.len(),
{
    if k < items.len() {
        assert(items.drop_last().take(k) =~= items.take(k));
        lemma_items_prefix_none(items.drop_last(), k);
    } else {
        assert(items.take(k) =~= items);
    }
}

proof fn lemma_members_prefix_none(ms: Seq<(Seq<char>, JsonV)>, order: Seq<int>, k: int)
    requires
        0 <= k <= order.len(),
        jcs_members(ms, order.take(k)) is None,
    ensures
        jcs_members(ms, order) is None,
    decreases order.len(),
{
    if k < order.len() {
        assert(order.drop_last().take(k) =~= order.take(k));
        lemma_members_prefix_none(ms, order.drop_last(), k);
    } else {
        assert(order.take(k) =~= order);
    }
}


/// The RFC 8785 canonical serialization of a JSON value.
pub fn canonicalize_value(value: &JsonValue) -> (r: Result<Vec<u8>, Error>)
    ensures
        match jcs(value@) {
            Some(b) => r matches Ok(v) && v@ == b,
            None => r matches Err(e) && e is Jcs,
        },
{
    let mut output: Vec<u8> = Vec::new();
    match write_canonical(value, &mut output) {
        Ok(()) => {
            assert(output@ =~= jcs(value@).unwrap());
            Ok(output)
        }
        Err(e) => Err(e),
    }
}

/// Canonicalizes one JSON text according to RFC 8785: `Error::Json` when
/// the bytes are not JSON, `Error::Jcs` when a value has no canonical form.
pub fn canonicalize_json(bytes: &[u8]) -> (r: Result<Vec<u8>, Error>)
    ensures
        match json_parse(bytes@) {
            None => r matches Err(e) && e is Json,
            Some(v) => match jcs(v) {
                Some(b) => r matches Ok(o) && o@ == b,
                None => r matches Err(e) && e is Jcs,
            },
        },
{
    match parse_json(bytes) {
        Ok(value) => canonicalize_value(&value),
        Err(message) => Err(Error::Json(message)),
    }
}

} // verus!
