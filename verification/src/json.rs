//! The two JSON computations the library needs, made by `serde_json`: reading
//! a string member at a JSON Pointer, and dropping a member of a top-level
//! object.

use vstd::prelude::*;

verus! {

/// The string found at JSON Pointer `pointer` in the JSON document `text`,
/// as `serde_json` parses and looks it up; `None` where `text` is not JSON,
/// nothing is found there, or what is found is not a string.
pub uninterp spec fn json_string_at(text: Seq<char>, pointer: Seq<char>) -> Option<Seq<char>>;

/// The pretty-printed document that `serde_json` makes of the JSON document
/// `text` once member `key` of its top-level object is removed; `None` where
/// `text` is not JSON, is not an object, or has no such member.
pub uninterp spec fn json_without_key(text: Seq<char>, key: Seq<char>) -> Option<Seq<char>>;

/// Parses `text` with `serde_json::from_str::<serde_json::Value>`, looks up
/// `pointer` with `Value::pointer` and reads the result with `Value::as_str`.
/// The contract names the result, which depends on `text` and `pointer`
/// alone.
#[verifier::external_body]
pub(crate) fn json_str_at(text: &str, pointer: &str) -> (r: Option<String>)
    ensures
        match r {
            Some(s) => json_string_at(text@, pointer@) == Some(s@),
            None => json_string_at(text@, pointer@) is None,
        },
{
    let value: serde_json::Value = serde_json::from_str(text).ok()?;
    value.pointer(pointer).and_then(|v| v.as_str()).map(|s| s.to_string())
}

/// Whether `key` is a non-empty run of ASCII letters: a member name that a
/// JSON Pointer writes as it is and that never reads as an array index.
pub open spec fn plain_member_name(key: Seq<char>) -> bool {
    key.len() > 0 && forall|i: int| 0 <= i < key.len() ==> ('a' <= #[trigger] key[i] && key[i] <= 'z') || ('A' <= key[i] && key[i] <= 'Z')
}

/// Parses `text` with `serde_json::from_str::<serde_json::Value>`, removes
/// `key` from the top-level object with `Map::remove`, and prints the rest
/// with `serde_json::to_string_pretty`. The contract names the result, which
/// depends on `text` and `key` alone. For a plain member name it also states
/// two facts of `serde_json`'s source: printed output parses back to the
/// same value, which then has no member `key`, so the pointer `/key` finds
/// no string in it; and where the result is `None` (no JSON, no object, or
/// no such member) that pointer finds no string in `text` either.
#[verifier::external_body]
pub(crate) fn json_remove_key(text: &str, key: &str) -> (r: Option<String>)
    ensures
        match r {
            Some(s) => json_without_key(text@, key@) == Some(s@),
            None => json_without_key(text@, key@) is None,
        },
        plain_member_name(key@) ==> match r {
            Some(s) => json_string_at(s@, "/"@ + key@) is None,
            None => json_string_at(text@, "/"@ + key@) is None,
        },
{
    let mut value: serde_json::Value = serde_json::from_str(text).ok()?;
    value.as_object_mut()?.remove(key)?;
    Some(serde_json::to_string_pretty(&value).unwrap_or_default())
}

} // verus!
