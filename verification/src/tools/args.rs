//! The arguments of a tool: the fields of a JSON object.
use crate::text::opt_text;
use vstd::prelude::*;

verus! {

/// A JSON value.
#[verifier::external_type_specification]
#[verifier::external_body]
pub struct ExValue(serde_json::Value);

/// What a field of a JSON object holds, as far as an argument is read from it.
pub enum Scalar {
    /// A string.
    Text(Seq<char>),
    /// A number written as an integer, in the range of `i64` or `u64`.
    Whole(int),
    /// `true` or `false`.
    Flag(bool),
    /// Anything else.
    Other,
}

/// The fields of a JSON object; none for a value that is no object.
pub uninterp spec fn json_fields(value: serde_json::Value) -> Map<Seq<char>, Scalar>;

/// The string that a field holds.
pub open spec fn text_field(fields: Map<Seq<char>, Scalar>, key: Seq<char>) -> Option<Seq<char>> {
    if fields.contains_key(key) {
        match fields[key] {
            Scalar::Text(s) => Some(s),
            _ => None,
        }
    } else {
        None
    }
}

/// The integer that a field holds, where it lies in `min..=max`.
pub open spec fn whole_field(
    fields: Map<Seq<char>, Scalar>,
    key: Seq<char>,
    min: int,
    max: int,
) -> Option<int> {
    if fields.contains_key(key) {
        match fields[key] {
            Scalar::Whole(n) => if min <= n <= max {
                Some(n)
            } else {
                None
            },
            _ => None,
        }
    } else {
        None
    }
}

/// The flag that a field holds.
pub open spec fn flag_field(fields: Map<Seq<char>, Scalar>, key: Seq<char>) -> Option<bool> {
    if fields.contains_key(key) {
        match fields[key] {
            Scalar::Flag(b) => Some(b),
            _ => None,
        }
    } else {
        None
    }
}

/// Indexing a `serde_json::Value` by a string, then `Value::as_str`: the
/// string that the field holds, `None` where there is no such field, the value
/// is no object or the field holds something else.
#[verifier::external_body]
pub(crate) fn text_arg(args: &serde_json::Value, key: &str) -> (r: Option<String>)
    ensures
        opt_text(r) == text_field(json_fields(*args), key@),
{
    args[key].as_str().map(String::from)
}

/// Indexing a `serde_json::Value` by a string, then `Value::as_u64`: the
/// integer that the field holds, where it fits.
#[verifier::external_body]
pub(crate) fn u64_arg(args: &serde_json::Value, key: &str) -> (r: Option<u64>)
    ensures
        match r {
            Some(n) => whole_field(json_fields(*args), key@, 0, u64::MAX as int) == Some(n as int),
            None => whole_field(json_fields(*args), key@, 0, u64::MAX as int) is None,
        },
{
    args[key].as_u64()
}

/// Indexing a `serde_json::Value` by a string, then `Value::as_i64`: the
/// integer that the field holds, where it fits.
#[verifier::external_body]
pub(crate) fn i64_arg(args: &serde_json::Value, key: &str) -> (r: Option<i64>)
    ensures
        match r {
            Some(n) => whole_field(json_fields(*args), key@, i64::MIN as int, i64::MAX as int)
                == Some(n as int),
            None => whole_field(json_fields(*args), key@, i64::MIN as int, i64::MAX as int) is None,
        },
{
    args[key].as_i64()
}

/// Indexing a `serde_json::Value` by a string, then `Value::as_bool`: the flag
/// that the field holds.
#[verifier::external_body]
pub(crate) fn flag_arg(args: &serde_json::Value, key: &str) -> (r: Option<bool>)
    ensures
        r == flag_field(json_fields(*args), key@),
{
    args[key].as_bool()
}

/// The flag that a field holds, or `default` where it holds none.
pub open spec fn flag_or(fields: Map<Seq<char>, Scalar>, key: Seq<char>, default: bool) -> bool {
    match flag_field(fields, key) {
        Some(b) => b,
        None => default,
    }
}

/// The flag that a field holds, or `default` where it holds none.
pub(crate) fn flag_arg_or(args: &serde_json::Value, key: &str, default: bool) -> (r: bool)
    ensures
        r == flag_or(json_fields(*args), key@, default),
{
    match flag_arg(args, key) {
        Some(b) => b,
        None => default,
    }
}

/// An argument is read from the field with its key, and only where the field
/// holds a value of its type; a flag that is not given has its default.
pub proof fn an_argument_is_read_by_its_type(
    fields: Map<Seq<char>, Scalar>,
    key: Seq<char>,
    min: int,
    max: int,
    default: bool,
)
    ensures
        !fields.contains_key(key) ==> {
            &&& text_field(fields, key) is None
            &&& whole_field(fields, key, min, max) is None
            &&& flag_field(fields, key) is None
            &&& flag_or(fields, key, default) == default
        },
        fields.contains_key(key) ==> match fields[key] {
            Scalar::Text(s) => {
                &&& text_field(fields, key) == Some(s)
                &&& whole_field(fields, key, min, max) is None
                &&& flag_field(fields, key) is None
                &&& flag_or(fields, key, default) == default
            },
            Scalar::Whole(n) => {
                &&& text_field(fields, key) is None
                &&& min <= n <= max ==> whole_field(fields, key, min, max) == Some(n)
                &&& n < min || max < n ==> whole_field(fields, key, min, max) is None
                &&& flag_field(fields, key) is None
                &&& flag_or(fields, key, default) == default
            },
            Scalar::Flag(b) => {
                &&& text_field(fields, key) is None
                &&& whole_field(fields, key, min, max) is None
                &&& flag_field(fields, key) == Some(b)
                &&& flag_or(fields, key, default) == b
            },
            Scalar::Other => {
                &&& text_field(fields, key) is None
                &&& whole_field(fields, key, min, max) is None
                &&& flag_field(fields, key) is None
                &&& flag_or(fields, key, default) == default
            },
        },
{
}

} // verus!
