//! JSON values, as `serde_json` parses and holds them.
use serde_json::Value;
use vstd::prelude::*;
use vstd::string::*;

verus! {

/// `serde_json::Value`, a parsed JSON value. What it holds is named by
/// [`contents`].
#[verifier::external_type_specification]
#[verifier::external_body]
pub struct ExValue(serde_json::Value);

/// What a JSON value is.
pub enum Json {
    Null,
    Bool(bool),
    /// A number, with its value where it is an integer that an `i64` can hold.
    Number(Option<i64>),
    Text(Seq<char>),
    Array(Seq<Json>),
    Object(Map<Seq<char>, Json>),
}

/// What a `serde_json::Value` holds.
pub uninterp spec fn contents(v: serde_json::Value) -> Json;

/// What `serde_json::from_slice` makes of bytes: a JSON value, or the text of its
/// error.
pub uninterp spec fn parsed(bytes: Seq<u8>) -> Result<Json, Seq<char>>;

/// What each of several values holds.
pub open spec fn trees(vals: Seq<Value>) -> Seq<Json> {
    vals.map_values(|v: Value| contents(v))
}

/// `serde_json::from_slice`, and the text that its error displays: what the
/// bytes parse to is a function of the bytes, and is not written out here.
#[verifier::external_body]
pub(crate) fn parse(bytes: &[u8]) -> (r: Result<Value, String>)
    ensures
        match r {
            Ok(v) => parsed(bytes@) == Ok::<Json, Seq<char>>(contents(v)),
            Err(e) => parsed(bytes@) == Err::<Json, Seq<char>>(e@),
        },
{
    serde_json::from_slice(bytes).map_err(|e| e.to_string())
}

/// The member of an object with the given key; none of what is no object.
pub open spec fn member(j: Json, key: Seq<char>) -> Option<Json> {
    match j {
        Json::Object(m) => if m.contains_key(key) {
            Some(m[key])
        } else {
            None
        },
        _ => None,
    }
}

/// `Value::get` with a string: the member of an object with that key; none where
/// the object lacks it or the value is no object.
#[verifier::external_body]
pub(crate) fn get<'a>(v: &'a Value, key: &str) -> (r: Option<&'a Value>)
    ensures
        match r {
            Some(x) => member(contents(*v), key@) == Some(contents(*x)),
            None => member(contents(*v), key@) is None,
        },
{
    v.get(key)
}

/// `Value::as_str`: the text of a string; none of any other value.
#[verifier::external_body]
pub(crate) fn as_str<'a>(v: &'a Value) -> (r: Option<&'a str>)
    ensures
        match contents(*v) {
            Json::Text(t) => r matches Some(s) && s@ == t,
            _ => r is None,
        },
{
    v.as_str()
}

/// `Value::as_i64`: an integer that fits; none of any other value.
#[verifier::external_body]
pub(crate) fn as_i64(v: &Value) -> (r: Option<i64>)
    ensures
        match contents(*v) {
            Json::Number(n) => r == n,
            _ => r is None,
        },
{
    v.as_i64()
}

/// `Value::as_array`: the elements of an array; none of any other value.
#[verifier::external_body]
pub(crate) fn as_array<'a>(v: &'a Value) -> (r: Option<&'a Vec<Value>>)
    ensures
        match contents(*v) {
            Json::Array(items) => r matches Some(a) && trees(a@) == items,
            _ => r is None,
        },
{
    v.as_array()
}

/// The member of an optional value; none of what is absent.
pub open spec fn down(j: Option<Json>, key: Seq<char>) -> Option<Json> {
    match j {
        Some(x) => member(x, key),
        None => None,
    }
}

/// The text of an optional value; none where it is absent or no string.
pub open spec fn text_of(j: Option<Json>) -> Option<Seq<char>> {
    match j {
        Some(Json::Text(t)) => Some(t),
        _ => None,
    }
}

/// The text of an optional value, or nothing.
pub open spec fn text_or_empty(j: Option<Json>) -> Seq<char> {
    match text_of(j) {
        Some(t) => t,
        None => seq![],
    }
}

/// The integer of an optional value; none where it is absent or no such integer.
pub open spec fn integer_of(j: Option<Json>) -> Option<i64> {
    match j {
        Some(Json::Number(n)) => n,
        _ => None,
    }
}

/// What an optional value holds.
pub open spec fn opt_contents(v: Option<&Value>) -> Option<Json> {
    match v {
        Some(x) => Some(contents(*x)),
        None => None,
    }
}

/// The member of an optional value.
pub(crate) fn dig<'a>(v: Option<&'a Value>, key: &str) -> (r: Option<&'a Value>)
    ensures
        opt_contents(r) == down(opt_contents(v), key@),
{
    match v {
        Some(x) => get(x, key),
        None => None,
    }
}

/// The text of an optional value, if it is a string.
pub(crate) fn opt_string(v: Option<&Value>) -> (r: Option<String>)
    ensures
        crate::text::opt_text(r) == text_of(opt_contents(v)),
{
    match v {
        Some(x) => match as_str(x) {
            Some(t) => Some(t.to_owned()),
            None => None,
        },
        None => None,
    }
}

/// The text of an optional value, or nothing.
pub(crate) fn string_or_empty(v: Option<&Value>) -> (r: String)
    ensures
        r@ == text_or_empty(opt_contents(v)),
{
    match opt_string(v) {
        Some(t) => t,
        None => {
            let r = String::new();
            assert(r@ =~= text_or_empty(opt_contents(v)));
            r
        },
    }
}

/// The integer of an optional value, if it is one.
pub(crate) fn opt_integer(v: Option<&Value>) -> (r: Option<i64>)
    ensures
        r == integer_of(opt_contents(v)),
{
    match v {
        Some(x) => as_i64(x),
        None => None,
    }
}

/// The text of a member, or nothing where it is absent or no string.
pub fn s(v: &Value, key: &str) -> (r: String)
    ensures
        r@ == text_or_empty(member(contents(*v), key@)),
{
    string_or_empty(get(v, key))
}

}
