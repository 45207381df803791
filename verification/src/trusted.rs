//! The engine's view of the outside crates it leans on: JSON decoding of the
//! reminder blob (serde_json), RFC 3339 timestamp conversion (chrono), and
//! fresh record identifiers (uuid), plus two string primitives of std that
//! vstd gives no specification. Each wrapper's contract states no more than
//! the outside source shows; results that are pure functions of the
//! arguments are given names so that callers' contracts can be exact.

use vstd::prelude::*;

verus! {

#[verifier::external_type_specification]
#[verifier::external_body]
pub struct ExValue(serde_json::Value);

/// The JSON values of the top-level array that `s` denotes, or `None` where
/// `s` is not a JSON document whose top level is an array.
pub uninterp spec fn json_array_of(s: Seq<char>) -> Option<Seq<serde_json::Value>>;

/// Relies on `serde_json::from_str::<Vec<Value>>`: the decode of a JSON
/// document depends on its text alone; it fails exactly when the text is not
/// a JSON document with a top-level array.
#[verifier::external_body]
pub(crate) fn parse_value_list(s: &str) -> (r: Option<Vec<serde_json::Value>>)
    ensures
        match r {
            Some(vs) => json_array_of(s@) == Some(vs@),
            None => json_array_of(s@) is None,
        },
{
    serde_json::from_str::<Vec<serde_json::Value>>(s).ok()
}

/// The string content of member `key` of the JSON object `v`, or `None`
/// where `v` is not an object, has no such member, or the member is not a
/// string.
pub uninterp spec fn json_str_field(v: serde_json::Value, key: Seq<char>) -> Option<Seq<char>>;

/// Relies on `serde_json::Value::get` and `serde_json::Value::as_str`: both
/// depend on the value and the key alone; `get` returns the member of an
/// object under the key, and `as_str` its text exactly when it is a string.
#[verifier::external_body]
pub(crate) fn get_str_field(v: &serde_json::Value, key: &str) -> (r: Option<String>)
    ensures
        match r {
            Some(s) => json_str_field(*v, key@) == Some(s@),
            None => json_str_field(*v, key@) is None,
        },
{
    v.get(key).and_then(|f| f.as_str()).map(|s| s.to_string())
}

/// The epoch seconds a valid RFC 3339 timestamp string denotes, or `None`
/// where the string is not one.
pub uninterp spec fn rfc3339_epoch_of(s: Seq<char>) -> Option<int>;

/// Relies on `chrono::DateTime::parse_from_rfc3339` and
/// `chrono::DateTime::timestamp`: parsing accepts the valid RFC 3339
/// date-and-time strings and rejects the rest, and both functions depend on
/// the text alone.
#[verifier::external_body]
pub(crate) fn parse_rfc3339_epoch(s: &str) -> (r: Option<i64>)
    ensures
        match r {
            Some(t) => rfc3339_epoch_of(s@) == Some(t as int),
            None => rfc3339_epoch_of(s@) is None,
        },
{
    match chrono::DateTime::parse_from_rfc3339(s) {
        Ok(d) => Some(d.timestamp()),
        Err(_) => None,
    }
}

/// The RFC 3339 rendering of `t` epoch seconds in UTC; for a `t` outside
/// chrono's representable range, the rendering of the epoch itself.
pub uninterp spec fn rfc3339_of_epoch(t: int) -> Seq<char>;

/// Relies on `chrono::DateTime::from_timestamp` and
/// `chrono::DateTime::to_rfc3339`: both depend on their arguments alone;
/// out-of-range seconds yield `None`, for which the default (epoch zero)
/// datetime is rendered instead.
#[verifier::external_body]
pub(crate) fn format_rfc3339_epoch(t: i64) -> (r: String)
    ensures
        r@ == rfc3339_of_epoch(t as int),
{
    chrono::DateTime::from_timestamp(t, 0).unwrap_or_default().to_rfc3339()
}

/// Relies on `uuid::Uuid::new_v4` and the hyphenated `Display` form of
/// `uuid::Uuid`, which is always 36 ASCII characters. Nothing more is
/// promised of a random identifier.
#[verifier::external_body]
pub(crate) fn fresh_record_id() -> (r: String)
    ensures
        r@.len() == 36,
{
    uuid::Uuid::new_v4().to_string()
}

/// Relies on `PartialEq` for `str`, which std documents as comparing the
/// string content.
#[verifier::external_body]
pub(crate) fn str_eq(a: &str, b: &str) -> (r: bool)
    ensures
        r == (a@ == b@),
{
    a == b
}

/// Relies on `String: FromIterator<char>`, which std documents as building
/// the string holding exactly the iterated characters in order.
#[verifier::external_body]
pub(crate) fn chars_to_string(v: &Vec<char>) -> (r: String)
    ensures
        r@ == v@,
{
    v.iter().collect()
}

} // verus!
