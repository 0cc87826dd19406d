//! Property-list values as plain values: booleans, integers, reals as their
//! integer truncation, strings, arrays and dictionaries; dates, data and UIDs
//! are opaque.
use vstd::prelude::*;

use crate::text::{
    ascii_lowercase, ascii_lowercase_chars, chars_of, parse_u64, parse_u64_chars, str_eq,
};

verus! {

/// One property-list value.
#[derive(Debug)]
pub enum PlistValue {
    Boolean(bool),
    /// A non-negative integer.
    Unsigned(u64),
    /// A negative integer.
    Negative(i64),
    /// A real, as `f64 as i64` truncates it (saturating, NaN as zero).
    Real(i64),
    String(String),
    Array(Vec<PlistValue>),
    Dictionary(PlistDict),
    /// A date, data blob or UID.
    Other,
}

/// A property-list dictionary: its entries in order, one per key.
#[derive(Debug)]
pub struct PlistDict {
    pub entries: Vec<(String, PlistValue)>,
}

/// `Dictionary::get`: the value under `key`.
pub open spec fn dict_get(d: PlistDict, key: Seq<char>) -> Option<PlistValue> {
    if exists|i: int| 0 <= i < d.entries@.len() && d.entries@[i].0@ == key {
        let i = choose|i: int|
            0 <= i < d.entries@.len() && d.entries@[i].0@ == key && forall|j: int|
                0 <= j < i ==> d.entries@[j].0@ != key;
        Some(d.entries@[i].1)
    } else {
        None
    }
}

/// `Value::as_string`.
pub open spec fn value_string(v: PlistValue) -> Option<Seq<char>> {
    match v {
        PlistValue::String(s) => Some(s@),
        _ => None,
    }
}

/// `Value::as_unsigned_integer`, or a non-negative signed integer, or a real
/// whose truncation is non-negative, or a string that parses as a `u64`.
pub open spec fn value_u64(v: PlistValue) -> Option<u64> {
    match v {
        PlistValue::Unsigned(n) => Some(n),
        PlistValue::Negative(_) => None,
        PlistValue::Real(t) => if t >= 0 {
            Some(t as u64)
        } else {
            None
        },
        PlistValue::String(s) => parse_u64(s@),
        _ => None,
    }
}

/// The first of `keys` whose value is a string, as that string.
pub open spec fn spec_dict_string(d: PlistDict, keys: Seq<Seq<char>>) -> Option<Seq<char>>
    decreases keys.len(),
{
    if keys.len() == 0 {
        None
    } else {
        match dict_get(d, keys[0]) {
            Some(v) => match value_string(v) {
                Some(s) => Some(s),
                None => spec_dict_string(d, keys.drop_first()),
            },
            None => spec_dict_string(d, keys.drop_first()),
        }
    }
}

/// The first of `keys` whose value reads as a `u64`, as that number.
pub open spec fn spec_dict_u64(d: PlistDict, keys: Seq<Seq<char>>) -> Option<u64>
    decreases keys.len(),
{
    if keys.len() == 0 {
        None
    } else {
        match dict_get(d, keys[0]) {
            Some(v) => match value_u64(v) {
                Some(n) => Some(n),
                None => spec_dict_u64(d, keys.drop_first()),
            },
            None => spec_dict_u64(d, keys.drop_first()),
        }
    }
}

/// A flag set to true, to 1, or to `yes` (in any ASCII case) or `1` as text.
pub open spec fn spec_plist_flag(d: PlistDict, key: Seq<char>) -> bool {
    match dict_get(d, key) {
        Some(PlistValue::Boolean(b)) => b,
        Some(PlistValue::Unsigned(n)) => n == 1,
        Some(PlistValue::String(s)) => ascii_lowercase(s@) == "yes"@ || s@ == "1"@,
        _ => false,
    }
}

pub open spec fn keys_view(keys: Seq<&str>) -> Seq<Seq<char>> {
    keys.map_values(|k: &str| k@)
}

/// The value under `key`.
pub fn get<'a>(d: &'a PlistDict, key: &str) -> (r: Option<&'a PlistValue>)
    ensures
        match dict_get(*d, key@) {
            Some(v) => r == Some(&v),
            None => r is None,
        },
{
    let mut i: usize = 0;
    while i < d.entries.len()
        invariant
            i <= d.entries@.len(),
            forall|j: int| 0 <= j < i ==> d.entries@[j].0@ != key@,
        decreases d.entries.len() - i,
    {
        if str_eq(d.entries[i].0.as_str(), key) {
            proof {
                let k = choose|k: int|
                    0 <= k < d.entries@.len() && d.entries@[k].0@ == key@ && forall|j: int|
                        0 <= j < k ==> d.entries@[j].0@ != key@;
                assert(0 <= i < d.entries@.len() && d.entries@[i as int].0@ == key@ && forall|j: int|
                    0 <= j < i ==> d.entries@[j].0@ != key@);
                if k < i {
                    assert(d.entries@[k].0@ != key@);
                }
                if i < k {
                    assert(d.entries@[i as int].0@ != key@);
                }
            }
            return Some(&d.entries[i].1);
        }
        i = i + 1;
    }
    None
}

fn value_u64_exec(v: &PlistValue) -> (r: Option<u64>)
    ensures
        r == value_u64(*v),
{
    match v {
        PlistValue::Unsigned(n) => Some(*n),
        PlistValue::Negative(_) => None,
        PlistValue::Real(t) => if *t >= 0 {
            Some(*t as u64)
        } else {
            None
        },
        PlistValue::String(s) => parse_u64_chars(&chars_of(s.as_str())),
        _ => None,
    }
}

/// The first of `keys` whose value is a string (`dict_string`).
pub fn dict_string(d: &PlistDict, keys: &[&str]) -> (r: Option<String>)
    ensures
        r.deep_view() == spec_dict_string(*d, keys_view(keys@)),
{
    let ghost ks = keys_view(keys@);
    let mut i: usize = 0;
    assert(ks.skip(0) =~= ks);
    while i < keys.len()
        invariant
            i <= keys@.len(),
            ks == keys_view(keys@),
            spec_dict_string(*d, ks) == spec_dict_string(*d, ks.skip(i as int)),
        decreases keys.len() - i,
    {
        assert(ks.skip(i as int)[0] == keys@[i as int]@);
        assert(ks.skip(i as int).drop_first() =~= ks.skip(i + 1));
        match get(d, keys[i]) {
            Some(PlistValue::String(s)) => {
                return Some(s.clone());
            },
            _ => {},
        }
        i = i + 1;
    }
    None
}

/// The first of `keys` whose value reads as a `u64` (`dict_u64`).
pub fn dict_u64(d: &PlistDict, keys: &[&str]) -> (r: Option<u64>)
    ensures
        r == spec_dict_u64(*d, keys_view(keys@)),
{
    let ghost ks = keys_view(keys@);
    let mut i: usize = 0;
    assert(ks.skip(0) =~= ks);
    while i < keys.len()
        invariant
            i <= keys@.len(),
            ks == keys_view(keys@),
            spec_dict_u64(*d, ks) == spec_dict_u64(*d, ks.skip(i as int)),
        decreases keys.len() - i,
    {
        assert(ks.skip(i as int)[0] == keys@[i as int]@);
        assert(ks.skip(i as int).drop_first() =~= ks.skip(i + 1));
        match get(d, keys[i]) {
            Some(v) => match value_u64_exec(v) {
                Some(n) => return Some(n),
                None => {},
            },
            None => {},
        }
        i = i + 1;
    }
    None
}

/// Whether a flag is set (`plist_flag`).
pub fn plist_flag(d: &PlistDict, key: &str) -> (r: bool)
    ensures
        r == spec_plist_flag(*d, key@),
{
    proof {
        reveal_strlit("1");
    }
    match get(d, key) {
        Some(PlistValue::Boolean(b)) => *b,
        Some(PlistValue::Unsigned(n)) => *n == 1,
        Some(PlistValue::String(s)) => {
            let l = ascii_lowercase_chars(&chars_of(s.as_str()));
            let lower = crate::text::string_of(&l);
            str_eq(lower.as_str(), "yes") || str_eq(s.as_str(), "1")
        },
        _ => false,
    }
}

/// The dictionary under `key`, or `d` itself (`nested_dict`).
pub open spec fn spec_nested_dict(d: PlistDict, key: Seq<char>) -> PlistDict {
    match dict_get(d, key) {
        Some(PlistValue::Dictionary(inner)) => inner,
        _ => d,
    }
}

/// The dictionary under `key`, or `d` itself when there is none.
pub fn nested_dict<'a>(d: &'a PlistDict, key: &str) -> (r: &'a PlistDict)
    ensures
        *r == spec_nested_dict(*d, key@),
{
    match get(d, key) {
        Some(PlistValue::Dictionary(inner)) => inner,
        _ => d,
    }
}

/// The string under `key`.
pub open spec fn string_at(d: PlistDict, key: Seq<char>) -> Option<Seq<char>> {
    match dict_get(d, key) {
        Some(PlistValue::String(s)) => Some(s@),
        _ => None,
    }
}

/// The dictionary under `key`.
pub open spec fn dict_at(d: PlistDict, key: Seq<char>) -> Option<PlistDict> {
    match dict_get(d, key) {
        Some(PlistValue::Dictionary(inner)) => Some(inner),
        _ => None,
    }
}

/// The dictionary under `key`.
pub fn get_dict<'a>(d: &'a PlistDict, key: &str) -> (r: Option<&'a PlistDict>)
    ensures
        match dict_at(*d, key@) {
            Some(x) => r == Some(&x),
            None => r is None,
        },
{
    match get(d, key) {
        Some(PlistValue::Dictionary(inner)) => Some(inner),
        _ => None,
    }
}

/// The string under `key`.
pub fn get_string<'a>(d: &'a PlistDict, key: &str) -> (r: Option<&'a String>)
    ensures
        match string_at(*d, key@) {
            Some(x) => (r matches Some(s) && s@ == x),
            None => r is None,
        },
{
    match get(d, key) {
        Some(PlistValue::String(s)) => Some(s),
        _ => None,
    }
}


// ---------------------------------------------------------------------------
// Decoding
// ---------------------------------------------------------------------------

/// The value type of the `plist` crate.
#[verifier::external_type_specification]
#[verifier::external_body]
pub struct ExPlistValue(plist::Value);

/// What `plist::Value::from_reader` makes of `bytes` (XML or binary
/// property list), as the library models the value; or the text of the
/// parser's error. It depends on the bytes alone.
pub uninterp spec fn plist_decoding(bytes: Seq<u8>) -> Result<PlistValue, Seq<char>>;

/// The model of a `plist::Value`: one variant for each of the crate's, a
/// real cast to `i64`, dates, data and UIDs left opaque.
#[verifier::external_body]
fn model_of(value: &plist::Value) -> PlistValue {
    match value {
        plist::Value::Boolean(b) => PlistValue::Boolean(*b),
        plist::Value::Integer(i) => match i.as_unsigned() {
            Some(u) => PlistValue::Unsigned(u),
            None => i.as_signed().map_or(PlistValue::Other, PlistValue::Negative),
        },
        plist::Value::Real(r) => PlistValue::Real(*r as i64),
        plist::Value::String(t) => PlistValue::String(t.clone()),
        plist::Value::Array(items) => PlistValue::Array(items.iter().map(model_of).collect()),
        plist::Value::Dictionary(d) => PlistValue::Dictionary(
            PlistDict { entries: d.iter().map(|(k, v)| (k.clone(), model_of(v))).collect() },
        ),
        _ => PlistValue::Other,
    }
}

/// Parses a property list (the `plist` crate's `Value::from_reader`); the
/// result, value or error text, is the one `plist_decoding` names.
#[verifier::external_body]
pub(crate) fn decode_plist(bytes: &[u8]) -> (r: Result<PlistValue, String>)
    ensures
        match r {
            Ok(v) => plist_decoding(bytes@) == Ok::<PlistValue, Seq<char>>(v),
            Err(t) => plist_decoding(bytes@) == Err::<PlistValue, Seq<char>>(t@),
        },
{
    plist::Value::from_reader(std::io::Cursor::new(bytes))
        .map(|v| model_of(&v))
        .map_err(|e| e.to_string())
}

} // verus!
