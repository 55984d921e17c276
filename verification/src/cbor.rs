//! CBOR data items (RFC 8949) as the library reads and writes them.
use coset::cbor::Value;
use vstd::prelude::*;

verus! {

/// A decoded CBOR data item.
///
/// Integers hold the decoded value, floats hold the IEEE 754 binary64 bits
/// of the decoded value.
pub enum CborValue {
    Integer(i128),
    Bytes(Vec<u8>),
    Float(u64),
    Text(String),
    Bool(bool),
    Null,
    Tag(u64, Box<CborValue>),
    Array(Vec<CborValue>),
    Entries(Vec<(CborValue, CborValue)>),
}

/// The mathematical model of a CBOR data item.
pub enum CborV {
    Integer(int),
    Bytes(Seq<u8>),
    Float(u64),
    Text(Seq<char>),
    Bool(bool),
    Null,
    Tag(u64, Box<CborV>),
    Array(Seq<CborV>),
    Entries(Seq<(CborV, CborV)>),
}

impl View for CborValue {
    type V = CborV;

    open spec fn view(&self) -> CborV
        decreases self,
    {
        match self {
            CborValue::Integer(n) => CborV::Integer(*n as int),
            CborValue::Bytes(b) => CborV::Bytes(b@),
            CborValue::Float(f) => CborV::Float(*f),
            CborValue::Text(t) => CborV::Text(t@),
            CborValue::Bool(b) => CborV::Bool(*b),
            CborValue::Null => CborV::Null,
            CborValue::Tag(t, inner) => CborV::Tag(*t, Box::new((**inner).view())),
            CborValue::Array(items) => CborV::Array(view_items(items@)),
            CborValue::Entries(entries) => CborV::Entries(view_entries(entries@)),
        }
    }
}

/// The models of a sequence of data items.
pub open spec fn view_items(items: Seq<CborValue>) -> Seq<CborV>
    decreases items,
{
    if items.len() == 0 {
        Seq::empty()
    } else {
        view_items(items.drop_last()).push(items.last().view())
    }
}

/// The models of a sequence of map entries.
pub open spec fn view_entries(entries: Seq<(CborValue, CborValue)>) -> Seq<(CborV, CborV)>
    decreases entries,
{
    if entries.len() == 0 {
        Seq::empty()
    } else {
        view_entries(entries.drop_last()).push((entries.last().0.view(), entries.last().1.view()))
    }
}

} // verus!

verus! {

/// Floating-point equality on IEEE 754 binary64 bit patterns: NaN equals
/// nothing, positive and negative zero are equal, otherwise the bits decide.
pub open spec fn float_bits_equal(a: u64, b: u64) -> bool {
    let a_nan = (a & 0x7ff0_0000_0000_0000u64) == 0x7ff0_0000_0000_0000u64 && (a & 0x000f_ffff_ffff_ffffu64) != 0;
    let b_nan = (b & 0x7ff0_0000_0000_0000u64) == 0x7ff0_0000_0000_0000u64 && (b & 0x000f_ffff_ffff_ffffu64) != 0;
    !a_nan && !b_nan && (a == b || ((a & 0x7fff_ffff_ffff_ffffu64) == 0 && (b & 0x7fff_ffff_ffff_ffffu64) == 0))
}

/// Structural equality of data items, with floats compared as numbers.
pub open spec fn cbor_equal(a: CborV, b: CborV) -> bool
    decreases a,
{
    match (a, b) {
        (CborV::Float(x), CborV::Float(y)) => float_bits_equal(x, y),
        (CborV::Tag(t, x), CborV::Tag(u, y)) => t == u && cbor_equal(*x, *y),
        (CborV::Array(x), CborV::Array(y)) => x.len() == y.len() && forall|i: int|
            0 <= i < x.len() ==> cbor_equal(#[trigger] x[i], y[i]),
        (CborV::Entries(x), CborV::Entries(y)) => x.len() == y.len() && forall|i: int|
            0 <= i < x.len() ==> cbor_equal(#[trigger] x[i].0, y[i].0) && cbor_equal(x[i].1, y[i].1),
        (CborV::Float(_), _) => false,
        (CborV::Tag(_, _), _) => false,
        (CborV::Array(_), _) => false,
        (CborV::Entries(_), _) => false,
        _ => a == b,
    }
}

pub proof fn lemma_view_items(s: Seq<CborValue>)
    ensures
        view_items(s).len() == s.len(),
        forall|i: int| 0 <= i < s.len() ==> #[trigger] view_items(s)[i] == s[i]@,
    decreases s.len(),
{
    if s.len() > 0 {
        lemma_view_items(s.drop_last());
        assert(view_items(s) == view_items(s.drop_last()).push(s.last()@));
        assert forall|i: int| 0 <= i < s.len() implies #[trigger] view_items(s)[i] == s[i]@ by {
            if i < s.len() - 1 {
                assert(s.drop_last()[i] == s[i]);
            }
        }
    }
}

pub proof fn lemma_view_entries(s: Seq<(CborValue, CborValue)>)
    ensures
        view_entries(s).len() == s.len(),
        forall|i: int| 0 <= i < s.len() ==> #[trigger] view_entries(s)[i] == (s[i].0@, s[i].1@),
    decreases s.len(),
{
    if s.len() > 0 {
        lemma_view_entries(s.drop_last());
        assert(view_entries(s) == view_entries(s.drop_last()).push((s.last().0@, s.last().1@)));
        assert forall|i: int| 0 <= i < s.len() implies #[trigger] view_entries(s)[i] == (s[i].0@, s[i].1@) by {
            if i < s.len() - 1 {
                assert(s.drop_last()[i] == s[i]);
            }
        }
    }
}

/// The result of reading one CBOR data item from the front of `bytes` with
/// ciborium: the item and the number of bytes left after it, or `None` when
/// no item can be read.
pub uninterp spec fn cbor_read(bytes: Seq<u8>) -> Option<(CborV, nat)>;

/// The bytes ciborium writes for a data item, or `None` when the item holds
/// an integer outside the CBOR range.
pub uninterp spec fn cbor_written(value: CborV) -> Option<Seq<u8>>;

/// Whether a data item holds no bignum tag (2 or 3) over a byte string of at
/// most 16 bytes: ciborium writes such a tag with a definite-length string
/// and reads it back as an integer. A longer byte string, or other content,
/// is read back as the tag it was.
pub open spec fn no_bignum_tag(v: CborV) -> bool
    decreases v,
{
    match v {
        CborV::Tag(t, x) => !((t == 2 || t == 3) && (*x matches CborV::Bytes(b) && b.len() <= 16)) && no_bignum_tag(*x),
        CborV::Array(xs) => forall|i: int| 0 <= i < xs.len() ==> no_bignum_tag(#[trigger] xs[i]),
        CborV::Entries(es) => forall|i: int| 0 <= i < es.len() ==> no_bignum_tag(#[trigger] es[i].0) && no_bignum_tag(es[i].1),
        _ => true,
    }
}

/// Whether the containers of a data item (arrays, maps, tags) nest at most
/// `n` deep.
pub open spec fn nests_within(v: CborV, n: nat) -> bool
    decreases v,
{
    match v {
        CborV::Tag(_, x) => n > 0 && nests_within(*x, (n - 1) as nat),
        CborV::Array(xs) => n > 0 && forall|i: int| 0 <= i < xs.len() ==> nests_within(#[trigger] xs[i], (n - 1) as nat),
        CborV::Entries(es) => n > 0 && forall|i: int| 0 <= i < es.len() ==>
            nests_within(#[trigger] es[i].0, (n - 1) as nat) && nests_within(es[i].1, (n - 1) as nat),
        _ => true,
    }
}

/// Whether `w` is what ciborium reads back for an item `v` it wrote: the
/// same item, except that a float may come back with other bits.
pub open spec fn read_back(v: CborV, w: CborV) -> bool
    decreases v,
{
    match v {
        CborV::Float(_) => w is Float,
        CborV::Tag(t, x) => w matches CborV::Tag(u, y) && u == t && read_back(*x, *y),
        CborV::Array(xs) => w matches CborV::Array(ys) && ys.len() == xs.len()
            && forall|i: int| 0 <= i < xs.len() ==> read_back(#[trigger] xs[i], ys[i]),
        CborV::Entries(es) => w matches CborV::Entries(fs) && fs.len() == es.len()
            && forall|i: int| 0 <= i < es.len() ==> read_back(#[trigger] es[i].0, fs[i].0) && read_back(es[i].1, fs[i].1),
        _ => w == v,
    }
}

/// Whether a data item holds no float.
pub open spec fn no_float(v: CborV) -> bool
    decreases v,
{
    match v {
        CborV::Float(_) => false,
        CborV::Tag(_, x) => no_float(*x),
        CborV::Array(xs) => forall|i: int| 0 <= i < xs.len() ==> no_float(#[trigger] xs[i]),
        CborV::Entries(es) => forall|i: int| 0 <= i < es.len() ==> no_float(#[trigger] es[i].0) && no_float(es[i].1),
        _ => true,
    }
}

/// An item without floats reads back as exactly itself.
pub proof fn lemma_read_back_exact(v: CborV, w: CborV)
    requires
        read_back(v, w),
        no_float(v),
    ensures
        w == v,
    decreases v,
{
    match v {
        CborV::Tag(t, x) => {
            let y = w->Tag_1;
            lemma_read_back_exact(*x, *y);
        },
        CborV::Array(xs) => {
            let ys = w->Array_0;
            assert forall|i: int| 0 <= i < xs.len() implies #[trigger] ys[i] == xs[i] by {
                lemma_read_back_exact(xs[i], ys[i]);
            }
            assert(ys =~= xs);
        },
        CborV::Entries(es) => {
            let fs = w->Entries_0;
            assert forall|i: int| 0 <= i < es.len() implies #[trigger] fs[i] == es[i] by {
                lemma_read_back_exact(es[i].0, fs[i].0);
                lemma_read_back_exact(es[i].1, fs[i].1);
            }
            assert(fs =~= es);
        },
        _ => {},
    }
}

/// The model of a read result.
pub open spec fn read_view(r: Option<(CborValue, usize)>) -> Option<(CborV, nat)> {
    match r {
        Some((v, rest)) => Some((v@, rest as nat)),
        None => None,
    }
}

#[verifier::external_type_specification]
#[verifier::external_body]
pub struct ExCiboriumValue(Value);

/// Converts a ciborium value into a `CborValue`, one variant for one.
#[verifier::external_body]
fn from_ciborium(value: Value) -> CborValue {
    match value {
        Value::Integer(n) => CborValue::Integer(i128::from(n)),
        Value::Bytes(b) => CborValue::Bytes(b),
        Value::Float(f) => CborValue::Float(f.to_bits()),
        Value::Text(t) => CborValue::Text(t),
        Value::Bool(b) => CborValue::Bool(b),
        Value::Tag(t, inner) => CborValue::Tag(t, Box::new(from_ciborium(*inner))),
        Value::Array(items) => CborValue::Array(from_ciborium_items(items)),
        Value::Map(entries) => CborValue::Entries(from_ciborium_entries(entries)),
        _ => CborValue::Null,
    }
}

/// Converts ciborium array items, one for one.
#[verifier::external_body]
fn from_ciborium_items(items: Vec<Value>) -> Vec<CborValue> {
    items.into_iter().map(from_ciborium).collect()
}

/// Converts ciborium map entries, one for one.
#[verifier::external_body]
fn from_ciborium_entries(entries: Vec<(Value, Value)>) -> Vec<(CborValue, CborValue)> {
    entries.into_iter().map(|(k, v)| (from_ciborium(k), from_ciborium(v))).collect()
}

/// Converts a `CborValue` into a ciborium value, one variant for one; `None`
/// when an integer lies outside the CBOR range ciborium's `Integer` holds.
#[verifier::external_body]
pub(crate) fn to_ciborium(value: &CborValue) -> Option<Value> {
    Some(match value {
        CborValue::Integer(n) => Value::Integer(coset::cbor::value::Integer::try_from(*n).ok()?),
        CborValue::Bytes(b) => Value::Bytes(b.clone()),
        CborValue::Float(f) => ciborium_float(*f)?,
        CborValue::Text(t) => Value::Text(t.clone()),
        CborValue::Bool(b) => Value::Bool(*b),
        CborValue::Null => Value::Null,
        CborValue::Tag(t, inner) => Value::Tag(*t, Box::new(to_ciborium(inner)?)),
        CborValue::Array(items) => Value::Array(to_ciborium_items(items)?),
        CborValue::Entries(entries) => Value::Map(to_ciborium_entries(entries)?),
    })
}

/// The ciborium float with the given binary64 bits, read back from its
/// eight-byte CBOR encoding.
#[verifier::external_body]
fn ciborium_float(bits: u64) -> Option<Value> {
    let mut encoded = vec![0xfbu8];
    encoded.extend_from_slice(&bits.to_be_bytes());
    coset::cbor::de::from_reader::<Value, _>(encoded.as_slice()).ok()
}

/// Converts array items, one for one.
#[verifier::external_body]
fn to_ciborium_items(items: &Vec<CborValue>) -> Option<Vec<Value>> {
    items.iter().map(to_ciborium).collect()
}

/// Converts map entries, one for one.
#[verifier::external_body]
fn to_ciborium_entries(entries: &Vec<(CborValue, CborValue)>) -> Option<Vec<(Value, Value)>> {
    entries.iter().map(|(k, v)| Some((to_ciborium(k)?, to_ciborium(v)?))).collect()
}

/// `ciborium::de::from_reader` on a byte slice: reads one data item from the
/// front of `bytes`. The contract says that the result is `cbor_read` of the
/// input, and that the bytes left over are a suffix no longer than the input.
#[verifier::external_body]
pub(crate) fn cbor_read_prefix(bytes: &[u8]) -> (r: Option<(CborValue, usize)>)
    ensures
        read_view(r) == cbor_read(bytes@),
        r matches Some((_, rest)) ==> rest <= bytes@.len(),
{
    let mut cursor = bytes;
    match coset::cbor::de::from_reader::<Value, _>(&mut cursor) {
        Ok(value) => Some((from_ciborium(value), cursor.len())),
        Err(_) => None,
    }
}

/// `ciborium::ser::into_writer` into a fresh `Vec`: the encoding of `value`.
/// The contract says that the result is `cbor_written` of the value, and
/// that `ciborium::de::from_reader` reads those bytes back as one item
/// spanning them all, the same item up to float bits, when the item holds
/// no bignum tag over a byte string of at most 16 bytes (which ciborium
/// writes with a definite length and reads as an integer) and nests within
/// the reader's recursion limit of 256.
#[verifier::external_body]
pub(crate) fn cbor_write(value: &CborValue) -> (r: Option<Vec<u8>>)
    ensures
        match r {
            Some(bytes) => cbor_written(value@) == Some(bytes@),
            None => cbor_written(value@) is None,
        },
        r matches Some(bytes) ==> (no_bignum_tag(value@) && nests_within(value@, 256) ==>
            (cbor_read(bytes@) matches Some((w, rest)) && rest == 0 && read_back(value@, w))),
{
    let value = to_ciborium(value)?;
    let mut out = Vec::new();
    coset::cbor::ser::into_writer(&value, &mut out).ok()?;
    Some(out)
}

/// Reads exactly one data item that spans all of `bytes`.
pub open spec fn cbor_decode_exact(bytes: Seq<u8>) -> Option<CborV> {
    match cbor_read(bytes) {
        Some((v, rest)) => if rest == 0 { Some(v) } else { None },
        None => None,
    }
}

/// Decodes one data item, rejecting trailing bytes. `Err(true)` means the
/// bytes do not start with a readable item, `Err(false)` that bytes follow it.
pub fn cbor_decode(bytes: &[u8]) -> (r: Result<CborValue, bool>)
    ensures
        r matches Ok(v) ==> cbor_decode_exact(bytes@) == Some(v@),
        r is Ok <==> cbor_decode_exact(bytes@) is Some,
        r == Err::<CborValue, bool>(true) <==> cbor_read(bytes@) is None,
        r == Err::<CborValue, bool>(false) <==> (cbor_read(bytes@) matches Some((_, rest)) && rest != 0),
{
    match cbor_read_prefix(bytes) {
        None => Err(true),
        Some((v, rest)) => if rest == 0 { Ok(v) } else { Err(false) },
    }
}

/// The integer a data item holds, if it is an integer.
pub fn integer(value: &CborValue) -> (r: Option<i128>)
    ensures
        r == (match value@ { CborV::Integer(n) => Some(n as i128), _ => None::<i128> }),
        r matches Some(n) ==> value@ == CborV::Integer(n as int),
{
    match value {
        CborValue::Integer(n) => Some(*n),
        _ => None,
    }
}

/// The index of the first entry whose key is the integer `key`.
pub open spec fn key_index(entries: Seq<(CborV, CborV)>, key: int) -> Option<int>
    decreases entries.len(),
{
    if entries.len() == 0 {
        None
    } else if key_index(entries.drop_last(), key) is Some {
        key_index(entries.drop_last(), key)
    } else if entries.last().0 == CborV::Integer(key) {
        Some(entries.len() - 1)
    } else {
        None
    }
}

/// The value of the first entry whose key is the integer `key`.
pub open spec fn entry_value(entries: Seq<(CborV, CborV)>, key: int) -> Option<CborV> {
    match key_index(entries, key) {
        Some(i) => Some(entries[i].1),
        None => None,
    }
}

/// The value under the integer label `key` when `value` is a map.
pub open spec fn map_value(value: CborV, key: int) -> Option<CborV> {
    match value {
        CborV::Entries(entries) => entry_value(entries, key),
        _ => None,
    }
}

pub proof fn lemma_key_index(entries: Seq<(CborV, CborV)>, key: int)
    ensures
        key_index(entries, key) matches Some(i) ==> 0 <= i < entries.len() && entries[i].0 == CborV::Integer(key)
            && forall|j: int| 0 <= j < i ==> #[trigger] entries[j].0 != CborV::Integer(key),
        key_index(entries, key) is None ==> forall|j: int| 0 <= j < entries.len() ==> #[trigger] entries[j].0 != CborV::Integer(key),
    decreases entries.len(),
{
    if entries.len() > 0 {
        lemma_key_index(entries.drop_last(), key);
        assert forall|j: int| 0 <= j < entries.len() - 1 implies #[trigger] entries[j] == entries.drop_last()[j] by {}
    }
}

/// Looks up an integer-labelled entry among a CBOR map's entries.
pub fn get<'a>(entries: &'a [(CborValue, CborValue)], key: i128) -> (r: Option<&'a CborValue>)
    ensures
        match entry_value(view_entries(entries@), key as int) {
            Some(m) => r matches Some(x) && x@ == m,
            None => r is None,
        },
{
    let ghost model = view_entries(entries@);
    proof {
        lemma_view_entries(entries@);
        lemma_key_index(model, key as int);
    }
    let mut i: usize = 0;
    while i < entries.len()
        invariant
            i <= entries@.len(),
            model == view_entries(entries@),
            model.len() == entries@.len(),
            forall|j: int| 0 <= j < entries@.len() ==> #[trigger] model[j] == (entries@[j].0@, entries@[j].1@),
            forall|j: int| 0 <= j < i ==> #[trigger] model[j].0 != CborV::Integer(key as int),
        decreases entries@.len() - i,
    {
        if let Some(n) = integer(&entries[i].0) {
            if n == key {
                proof {
                    lemma_key_index(model, key as int);
                    assert(model[i as int].0 == CborV::Integer(key as int));
                    match key_index(model, key as int) {
                        Some(k) => {
                            if k < i {
                                assert(model[k].0 != CborV::Integer(key as int));
                            } else if k > i {
                                assert(model[i as int].0 != CborV::Integer(key as int));
                            }
                        }
                        None => {
                            assert(model[i as int].0 != CborV::Integer(key as int));
                        }
                    }
                }
                return Some(&entries[i].1);
            }
        }
        assert(model[i as int].0 != CborV::Integer(key as int));
        i = i + 1;
    }
    proof {
        if let Some(k) = key_index(model, key as int) {
            assert(model[k].0 == CborV::Integer(key as int));
        }
    }
    None
}

/// Looks up an integer-labelled entry in a CBOR map; `None` when `value`
/// is not a map or has no such entry.
pub fn map_get(value: &CborValue, key: i128) -> (r: Option<&CborValue>)
    ensures
        match map_value(value@, key as int) {
            Some(m) => r matches Some(x) && x@ == m,
            None => r is None,
        },
{
    match value {
        CborValue::Entries(entries) => get(entries.as_slice(), key),
        _ => None,
    }
}


/// Whether IEEE 754 binary64 bits encode a NaN.
pub open spec fn is_nan_bits(a: u64) -> bool {
    (a & 0x7ff0_0000_0000_0000u64) == 0x7ff0_0000_0000_0000u64 && (a & 0x000f_ffff_ffff_ffffu64) != 0
}

fn float_eq(a: u64, b: u64) -> (r: bool)
    ensures
        r == float_bits_equal(a, b),
{
    let a_nan = (a & 0x7ff0_0000_0000_0000u64) == 0x7ff0_0000_0000_0000u64 && (a & 0x000f_ffff_ffff_ffffu64) != 0;
    let b_nan = (b & 0x7ff0_0000_0000_0000u64) == 0x7ff0_0000_0000_0000u64 && (b & 0x000f_ffff_ffff_ffffu64) != 0;
    !a_nan && !b_nan && (a == b || ((a & 0x7fff_ffff_ffff_ffffu64) == 0 && (b & 0x7fff_ffff_ffff_ffffu64) == 0))
}

fn is_nan(a: u64) -> (r: bool)
    ensures
        r == is_nan_bits(a),
{
    (a & 0x7ff0_0000_0000_0000u64) == 0x7ff0_0000_0000_0000u64 && (a & 0x000f_ffff_ffff_ffffu64) != 0
}

/// Equality of data items as ciborium's `Value` compares them: structural,
/// with floats compared as numbers.
pub fn cbor_eq(a: &CborValue, b: &CborValue) -> (r: bool)
    ensures
        r == cbor_equal(a@, b@),
    decreases a,
{
    match a {
        CborValue::Integer(x) => match b {
            CborValue::Integer(y) => *x == *y,
            _ => false,
        },
        CborValue::Bytes(x) => match b {
            CborValue::Bytes(y) => {
                let e = bytes_eq(x.as_slice(), y.as_slice());
                assert(e == cbor_equal(a@, b@));
                e
            }
            _ => false,
        },
        CborValue::Float(x) => match b {
            CborValue::Float(y) => float_eq(*x, *y),
            _ => false,
        },
        CborValue::Text(x) => match b {
            CborValue::Text(y) => {
                let e = x.eq(y);
                e
            }
            _ => false,
        },
        CborValue::Bool(x) => match b {
            CborValue::Bool(y) => *x == *y,
            _ => false,
        },
        CborValue::Null => match b {
            CborValue::Null => true,
            _ => false,
        },
        CborValue::Tag(s, x) => match b {
            CborValue::Tag(t, y) => {
                let bx: &CborValue = &**x;
                let by: &CborValue = &**y;
                assert(a@ == CborV::Tag(*s, Box::new(bx@)));
                assert(b@ == CborV::Tag(*t, Box::new(by@)));
                if *s != *t {
                    return false;
                }
                cbor_eq(bx, by)
            }
            _ => false,
        },
        CborValue::Array(x) => match b {
            CborValue::Array(y) => {
                proof {
                    lemma_view_items(x@);
                    lemma_view_items(y@);
                }
                if x.len() != y.len() {
                    return false;
                }
                assert(decreases_to!(*a => *x));
                let mut i: usize = 0;
                while i < x.len()
                    invariant
                        i <= x@.len(),
                        x@.len() == y@.len(),
                        decreases_to!(*a => *x),
                        a@ == CborV::Array(view_items(x@)),
                        b@ == CborV::Array(view_items(y@)),
                        view_items(x@).len() == x@.len(),
                        view_items(y@).len() == y@.len(),
                        forall|j: int| 0 <= j < x@.len() ==> #[trigger] view_items(x@)[j] == x@[j]@,
                        forall|j: int| 0 <= j < y@.len() ==> #[trigger] view_items(y@)[j] == y@[j]@,
                        forall|j: int| 0 <= j < i ==> cbor_equal(#[trigger] view_items(x@)[j], view_items(y@)[j]),
                    decreases x@.len() - i,
                {
                    proof {
                        assert(decreases_to!(*x => x@));
                        assert(decreases_to!(x@ => x@[i as int]));
                    }
                    let e = cbor_eq(&x[i], &y[i]);
                    assert(view_items(x@)[i as int] == x@[i as int]@);
                    assert(view_items(y@)[i as int] == y@[i as int]@);
                    if !e {
                        assert(!cbor_equal(view_items(x@)[i as int], view_items(y@)[i as int]));
                        return false;
                    }
                    i = i + 1;
                }
                assert(cbor_equal(a@, b@));
                true
            }
            _ => false,
        },
        CborValue::Entries(x) => match b {
            CborValue::Entries(y) => {
                proof {
                    lemma_view_entries(x@);
                    lemma_view_entries(y@);
                }
                if x.len() != y.len() {
                    return false;
                }
                assert(decreases_to!(*a => *x));
                let mut i: usize = 0;
                while i < x.len()
                    invariant
                        i <= x@.len(),
                        x@.len() == y@.len(),
                        decreases_to!(*a => *x),
                        a@ == CborV::Entries(view_entries(x@)),
                        b@ == CborV::Entries(view_entries(y@)),
                        view_entries(x@).len() == x@.len(),
                        view_entries(y@).len() == y@.len(),
                        forall|j: int| 0 <= j < x@.len() ==> #[trigger] view_entries(x@)[j] == (x@[j].0@, x@[j].1@),
                        forall|j: int| 0 <= j < y@.len() ==> #[trigger] view_entries(y@)[j] == (y@[j].0@, y@[j].1@),
                        forall|j: int| 0 <= j < i ==> cbor_equal(#[trigger] view_entries(x@)[j].0, view_entries(y@)[j].0)
                            && cbor_equal(view_entries(x@)[j].1, view_entries(y@)[j].1),
                    decreases x@.len() - i,
                {
                    proof {
                        assert(decreases_to!(*x => x@));
                        assert(decreases_to!(x@ => x@[i as int]));
                        assert(decreases_to!(x@[i as int] => x@[i as int].0));
                        assert(decreases_to!(x@[i as int] => x@[i as int].1));
                    }
                    let k = cbor_eq(&x[i].0, &y[i].0);
                    let v = cbor_eq(&x[i].1, &y[i].1);
                    assert(view_entries(x@)[i as int] == (x@[i as int].0@, x@[i as int].1@));
                    assert(view_entries(y@)[i as int] == (y@[i as int].0@, y@[i as int].1@));
                    if !(k && v) {
                        proof {
                            lemma_entries_unequal(view_entries(x@), view_entries(y@), i as int);
                        }
                        return false;
                    }
                    i = i + 1;
                }
                proof {
                    let xs = view_entries(x@);
                    let ys = view_entries(y@);
                    assert forall|j: int| 0 <= j < xs.len() implies cbor_equal(#[trigger] xs[j].0, ys[j].0) && cbor_equal(xs[j].1, ys[j].1) by {}
                    assert(a@ == CborV::Entries(xs));
                    assert(b@ == CborV::Entries(ys));
                    lemma_entries_equal(xs, ys);
                }
                true
            }
            _ => false,
        },
    }
}

proof fn lemma_entries_equal(xs: Seq<(CborV, CborV)>, ys: Seq<(CborV, CborV)>)
    requires
        xs.len() == ys.len(),
        forall|j: int| 0 <= j < xs.len() ==> cbor_equal(#[trigger] xs[j].0, ys[j].0) && cbor_equal(xs[j].1, ys[j].1),
    ensures
        cbor_equal(CborV::Entries(xs), CborV::Entries(ys)),
{
    reveal_with_fuel(cbor_equal, 2);
}

proof fn lemma_entries_unequal(xs: Seq<(CborV, CborV)>, ys: Seq<(CborV, CborV)>, i: int)
    requires
        xs.len() == ys.len(),
        0 <= i < xs.len(),
        !(cbor_equal(xs[i].0, ys[i].0) && cbor_equal(xs[i].1, ys[i].1)),
    ensures
        !cbor_equal(CborV::Entries(xs), CborV::Entries(ys)),
{
    reveal_with_fuel(cbor_equal, 2);
}

/// Whether two byte slices are equal.
pub fn bytes_eq(a: &[u8], b: &[u8]) -> (r: bool)
    ensures
        r == (a@ == b@),
{
    if a.len() != b.len() {
        return false;
    }
    let mut i: usize = 0;
    while i < a.len()
        invariant
            i <= a@.len(),
            a@.len() == b@.len(),
            forall|j: int| 0 <= j < i ==> a@[j] == b@[j],
        decreases a@.len() - i,
    {
        if a[i] != b[i] {
            return false;
        }
        i = i + 1;
    }
    assert(a@ =~= b@);
    true
}


/// A copy of a data item.
pub fn copy_value(v: &CborValue) -> (r: CborValue)
    ensures
        r@ == v@,
    decreases v,
{
    match v {
        CborValue::Integer(n) => CborValue::Integer(*n),
        CborValue::Bytes(b) => CborValue::Bytes(b.clone()),
        CborValue::Float(f) => CborValue::Float(*f),
        CborValue::Text(t) => CborValue::Text(t.clone()),
        CborValue::Bool(b) => CborValue::Bool(*b),
        CborValue::Null => CborValue::Null,
        CborValue::Tag(t, inner) => {
            let b: &CborValue = &**inner;
            assert(v@ == CborV::Tag(*t, Box::new(b@)));
            CborValue::Tag(*t, Box::new(copy_value(b)))
        }
        CborValue::Array(items) => {
            proof { lemma_view_items(items@); }
            assert(decreases_to!(*v => *items));
            let mut out: Vec<CborValue> = Vec::new();
            let mut i: usize = 0;
            while i < items.len()
                invariant
                    i <= items@.len(),
                    decreases_to!(*v => *items),
                    out@.len() == i,
                    forall|k: int| 0 <= k < i ==> #[trigger] out@[k]@ == items@[k]@,
                decreases items@.len() - i,
            {
                proof {
                    assert(decreases_to!(*items => items@));
                    assert(decreases_to!(items@ => items@[i as int]));
                }
                out.push(copy_value(&items[i]));
                i = i + 1;
            }
            proof {
                lemma_view_items(out@);
                assert(view_items(out@) =~= view_items(items@));
            }
            CborValue::Array(out)
        }
        CborValue::Entries(entries) => {
            let out = copy_entries(entries.as_slice());
            assert(decreases_to!(*v => *entries));
            CborValue::Entries(out)
        }
    }
}

/// A copy of a sequence of map entries.
pub fn copy_entries(entries: &[(CborValue, CborValue)]) -> (r: Vec<(CborValue, CborValue)>)
    ensures
        view_entries(r@) == view_entries(entries@),
    decreases entries@,
{
    proof { lemma_view_entries(entries@); }
    let mut out: Vec<(CborValue, CborValue)> = Vec::new();
    let mut i: usize = 0;
    while i < entries.len()
        invariant
            i <= entries@.len(),
            out@.len() == i,
            forall|k: int| 0 <= k < i ==> #[trigger] out@[k].0@ == entries@[k].0@ && out@[k].1@ == entries@[k].1@,
        decreases entries@.len() - i,
    {
        proof {
            assert(decreases_to!(entries@ => entries@[i as int]));
            assert(decreases_to!(entries@[i as int] => entries@[i as int].0));
            assert(decreases_to!(entries@[i as int] => entries@[i as int].1));
        }
        let k = copy_value(&entries[i].0);
        let v = copy_value(&entries[i].1);
        out.push((k, v));
        i = i + 1;
    }
    proof {
        lemma_view_entries(out@);
        assert(view_entries(out@) =~= view_entries(entries@));
    }
    out
}

} // verus!
