//! The JSON value type that tool definitions and autonomous events carry
//! through the library unchanged.
use vstd::prelude::*;

verus! {

#[verifier::external_type_specification]
#[verifier::external_body]
pub struct ExJsonValue(serde_json::Value);

/// `serde_json::Value::clone` (derived): the copy is the same JSON value.
pub assume_specification[ <serde_json::Value as Clone>::clone ](v: &serde_json::Value) -> (r:
    serde_json::Value)
    ensures
        r == *v,
;

/// What `serde_json::from_str::<Value>` makes of `text`: the value, or the
/// message of the error it reports.
pub uninterp spec fn json_parsed(text: Seq<char>) -> Result<serde_json::Value, Seq<char>>;

/// Whether `text` is one well-formed JSON document.
pub open spec fn json_accepts(text: Seq<char>) -> bool {
    json_parsed(text) is Ok
}

/// The message of the error reported for `text`.
pub open spec fn json_error_message(text: Seq<char>) -> Seq<char> {
    match json_parsed(text) {
        Err(m) => m,
        Ok(_) => Seq::empty(),
    }
}

/// `serde_json::from_str::<serde_json::Value>`, its error turned into its message.
#[verifier::external_body]
pub(crate) fn parse_json(text: &str) -> (r: Result<serde_json::Value, String>)
    ensures
        match r {
            Ok(v) => json_parsed(text@) == Ok::<serde_json::Value, Seq<char>>(v),
            Err(m) => json_parsed(text@) == Err::<serde_json::Value, Seq<char>>(m@),
        },
{
    serde_json::from_str::<serde_json::Value>(text).map_err(|error| error.to_string())
}

/// What `==` on `serde_json::Value` says of `a` and `b`.
pub uninterp spec fn json_equal(a: serde_json::Value, b: serde_json::Value) -> bool;

/// `==` on `serde_json::Value` (derived; `Value` is `Eq`, a JSON number
/// never being NaN), so a value always equals itself. Nothing more is
/// stated: two values with different structure may still compare equal
/// (`0.0` and `-0.0`).
#[verifier::external_body]
pub(crate) fn same_json(a: &serde_json::Value, b: &serde_json::Value) -> (r: bool)
    ensures
        r == json_equal(*a, *b),
        *a == *b ==> r,
{
    a == b
}

/// An empty JSON object, `{}` (`serde_json::Map::new()` wrapped as a `Value`).
#[verifier::external_body]
pub(crate) fn empty_object() -> serde_json::Value {
    serde_json::Value::Object(serde_json::Map::new())
}

} // verus!
