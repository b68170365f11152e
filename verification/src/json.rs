//! Reading JSON texts with serde_json: whether a text parses, and the
//! strings found at JSON pointers (RFC 6901) of the parsed value.
use vstd::prelude::*;

verus! {

/// Whether serde_json parses `json` as one JSON value
/// (`serde_json::from_slice::<Value>` succeeds).
pub uninterp spec fn json_parses(json: Seq<u8>) -> bool;

/// The string at `pointer` in the value `json` parses to: `None` when
/// nothing is there or it is not a string (`Value::pointer`, then the
/// `Value::String` case).
pub uninterp spec fn json_str_at(json: Seq<u8>, pointer: Seq<char>) -> Option<Seq<char>>;

/// The items of the array at `pointer` in the value `json` parses to, each
/// taken as its string field `key` (`None` for an item without one); `None`
/// when nothing is there or it is not an array.
pub uninterp spec fn json_str_items_at(json: Seq<u8>, pointer: Seq<char>, key: Seq<char>) -> Option<
    Seq<Option<Seq<char>>>,
>;

/// The compact text `serde_json::to_string` writes for the value `json`
/// parses to.
pub uninterp spec fn json_compact(json: Seq<u8>) -> Seq<char>;

/// Whether `serde_json::from_slice::<Value>(json)` succeeds.
#[verifier::external_body]
pub(crate) fn json_valid(json: &[u8]) -> (b: bool)
    ensures
        b == json_parses(json@),
{
    serde_json::from_slice::<serde_json::Value>(json).is_ok()
}

/// Parses `json` with `serde_json::from_slice` and returns a copy of the
/// string that `Value::pointer(pointer)` finds, when it finds a string.
#[verifier::external_body]
pub(crate) fn json_str_lookup(json: &[u8], pointer: &str) -> (r: Option<String>)
    requires
        json_parses(json@),
    ensures
        r.deep_view() == json_str_at(json@, pointer@),
{
    match serde_json::from_slice::<serde_json::Value>(json) {
        Ok(v) => match v.pointer(pointer) {
            Some(serde_json::Value::String(s)) => Some(s.clone()),
            _ => None,
        },
        Err(_) => None,
    }
}

/// Parses `json` with `serde_json::from_slice`; when `Value::pointer(pointer)`
/// finds an array, returns each item's field `key` (`Value::get`) where it
/// is a string.
#[verifier::external_body]
pub(crate) fn json_str_items_lookup(json: &[u8], pointer: &str, key: &str) -> (r: Option<
    Vec<Option<String>>,
>)
    requires
        json_parses(json@),
    ensures
        r.deep_view() == json_str_items_at(json@, pointer@, key@),
{
    match serde_json::from_slice::<serde_json::Value>(json) {
        Ok(v) => match v.pointer(pointer) {
            Some(serde_json::Value::Array(items)) => Some(
                items.iter().map(|u| match u.get(key) {
                    Some(serde_json::Value::String(s)) => Some(s.clone()),
                    _ => None,
                }).collect(),
            ),
            _ => None,
        },
        Err(_) => None,
    }
}

/// Parses `json` with `serde_json::from_slice` and writes the value back
/// with `serde_json::to_string`, which cannot fail for a `Value`.
#[verifier::external_body]
pub(crate) fn json_compact_text(json: &[u8]) -> (s: String)
    requires
        json_parses(json@),
    ensures
        s@ == json_compact(json@),
{
    match serde_json::from_slice::<serde_json::Value>(json) {
        Ok(v) => serde_json::to_string(&v).unwrap_or_default(),
        Err(_) => String::new(),
    }
}

} // verus!
