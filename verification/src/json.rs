//! JSON values that plugins exchange with the host. The library carries them
//! through without reading them.
use vstd::prelude::*;

verus! {

/// `serde_json::Value`, carried as an opaque payload.
#[verifier::external_type_specification]
#[verifier::external_body]
pub struct ExValue(serde_json::Value);

/// `serde_json::Value` derives `Clone`, so a clone is the same JSON value.
pub assume_specification[ <serde_json::Value as Clone>::clone ](v: &serde_json::Value) -> (res:
    serde_json::Value)
    ensures
        res == *v,
;

/// What a command argument holds, as far as the built-in plugins read it.
#[derive(Debug, Clone, PartialEq, Eq)]
pub enum JsonArg {
    /// The key is absent.
    Missing,
    Bool(bool),
    /// A number, with its value as an unsigned and as a signed integer
    /// where it is one.
    Number { as_u64: Option<u64>, as_i64: Option<i64> },
    Text(String),
    /// `null`, an array or an object.
    Other,
}

/// What `args.get(key)` finds, told apart by JSON type.
pub uninterp spec fn json_arg_of(args: serde_json::Value, key: Seq<char>) -> JsonArg;

/// `args.get(key)`, told apart by JSON type: a number with
/// `Number::as_u64` and `Number::as_i64`, a string copied. What is found is
/// a function of the JSON value and the key, named `json_arg_of`.
#[verifier::external_body]
pub fn json_arg(args: &serde_json::Value, key: &str) -> (r: JsonArg)
    ensures
        r == json_arg_of(*args, key@),
{
    match args.get(key) {
        None => JsonArg::Missing,
        Some(serde_json::Value::Bool(b)) => JsonArg::Bool(*b),
        Some(serde_json::Value::Number(n)) => JsonArg::Number { as_u64: n.as_u64(), as_i64: n.as_i64() },
        Some(serde_json::Value::String(t)) => JsonArg::Text(t.clone()),
        Some(_) => JsonArg::Other,
    }
}

/// The JSON number that `serde_json::Value::from` makes of `n`.
pub uninterp spec fn json_int(n: i64) -> serde_json::Value;

/// The JSON boolean that `serde_json::Value::from` makes of `b`.
pub uninterp spec fn json_bool(b: bool) -> serde_json::Value;

/// The JSON string that `serde_json::Value::from` makes of `text`.
pub uninterp spec fn json_text(text: Seq<char>) -> serde_json::Value;

/// `serde_json::Value::from` on an integer.
#[verifier::external_body]
pub(crate) fn int_value(n: i64) -> (r: serde_json::Value)
    ensures
        r == json_int(n),
{
    serde_json::Value::from(n)
}

/// `serde_json::Value::from` on a boolean.
#[verifier::external_body]
pub(crate) fn bool_value(b: bool) -> (r: serde_json::Value)
    ensures
        r == json_bool(b),
{
    serde_json::Value::from(b)
}

/// `serde_json::Value::from` on a string.
#[verifier::external_body]
pub(crate) fn text_value(text: &str) -> (r: serde_json::Value)
    ensures
        r == json_text(text@),
{
    serde_json::Value::from(text)
}

} // verus!
