//! JSON values: what a `serde_json::Value` holds, and the operations of
//! `serde_json` that the rest of the library calls.
//!
//! A value is kept as the `serde_json::Value` that the parser produced. The
//! contracts speak of the tree it holds, [`json`], and every item below that
//! reaches into `serde_json` says what it does to that tree.
use vstd::prelude::*;

verus! {

/// The tree that a JSON value holds.
pub enum Json {
    Null,
    Bool(bool),
    /// A number that is a `u64`.
    Unsigned(u64),
    /// A negative number that is an `i64`.
    Negative(i64),
    /// Any other number, by its decimal text.
    Float(Seq<char>),
    Text(Seq<char>),
    Array(Seq<Json>),
    Object(Map<Seq<char>, Json>),
}

impl Json {
    /// The member `key` of an object; nothing has members but an object.
    pub open spec fn field(self, key: Seq<char>) -> Option<Json> {
        match self {
            Json::Object(m) => if m.dom().contains(key) {
                Some(m[key])
            } else {
                None
            },
            _ => None,
        }
    }

    /// The number, where it is a `u64`.
    pub open spec fn unsigned(self) -> Option<u64> {
        match self {
            Json::Unsigned(n) => Some(n),
            _ => None,
        }
    }

    /// The text of a string.
    pub open spec fn text(self) -> Option<Seq<char>> {
        match self {
            Json::Text(s) => Some(s),
            _ => None,
        }
    }

    /// The members of an object; none for any other value.
    pub open spec fn members(self) -> Map<Seq<char>, Json> {
        match self {
            Json::Object(m) => m,
            _ => Map::empty(),
        }
    }

    /// The member `key`, where it is a `u64`.
    pub open spec fn unsigned_field(self, key: Seq<char>) -> Option<u64> {
        match self.field(key) {
            Some(j) => j.unsigned(),
            None => None,
        }
    }

    /// The text of the member `key`, where it is a string.
    pub open spec fn text_field(self, key: Seq<char>) -> Option<Seq<char>> {
        match self.field(key) {
            Some(j) => j.text(),
            None => None,
        }
    }

    /// The member `key`, or null where there is none.
    pub open spec fn field_or_null(self, key: Seq<char>) -> Json {
        match self.field(key) {
            Some(j) => j,
            None => Json::Null,
        }
    }
}

/// `serde_json::Value`, the JSON value of the `serde_json` crate.
#[verifier::external_type_specification]
#[verifier::external_body]
pub struct ExValue(serde_json::Value);

/// `serde_json::Error`, what parsing and printing fail with.
#[verifier::external_type_specification]
#[verifier::external_body]
pub struct ExError(serde_json::Error);

/// The tree that a `serde_json::Value` holds.
pub uninterp spec fn json(v: serde_json::Value) -> Json;

/// What `serde_json::from_slice` makes of the given bytes: the tree of the value,
/// or the text of the error.
pub uninterp spec fn json_decoded(bytes: Seq<u8>) -> Result<Json, Seq<char>>;

/// What `serde_json::to_vec` makes of a value that holds the given tree: the
/// bytes, or the text of the error. The members of an object are kept sorted by
/// name, so that these depend on the tree alone.
pub uninterp spec fn json_encoded(j: Json) -> Result<Seq<u8>, Seq<char>>;

/// The text that a value with the given tree is displayed as.
pub uninterp spec fn json_display(j: Json) -> Seq<char>;

/// The text that a `serde_json::Error` is displayed as.
pub uninterp spec fn json_error_text(e: serde_json::Error) -> Seq<char>;

/// `serde_json::Value::as_u64`: the number that the value holds, where it is a
/// `u64`. Negative numbers, numbers with a fraction or an exponent and
/// values of another type give nothing.
pub assume_specification[ serde_json::Value::as_u64 ](v: &serde_json::Value) -> (r: Option<u64>)
    ensures
        r == json(*v).unsigned(),
;

/// `serde_json::Value::as_str`: the text of a string, and nothing for values of
/// another type.
pub assume_specification[ serde_json::Value::as_str ](v: &serde_json::Value) -> (r: Option<&str>)
    ensures
        match r {
            Some(s) => json(*v).text() == Some(s@),
            None => json(*v).text() is None,
        },
;

/// `serde_json::Value::clone`: a value that holds the same tree.
pub assume_specification[ <serde_json::Value as Clone>::clone ](v: &serde_json::Value) -> (r:
    serde_json::Value)
    ensures
        json(r) == json(*v),
;

/// `serde_json::Value::get` with a string: the member of that name where the
/// value is an object that has one, and nothing otherwise.
#[verifier::external_body]
pub(crate) fn value_get<'a>(v: &'a serde_json::Value, key: &str) -> (r: Option<
    &'a serde_json::Value,
>)
    ensures
        match r {
            Some(x) => json(*v).field(key@) == Some(json(*x)),
            None => json(*v).field(key@) is None,
        },
{
    v.get(key)
}

/// `serde_json::Value::default`: null.
#[verifier::external_body]
pub(crate) fn value_null() -> (r: serde_json::Value)
    ensures
        json(r) == Json::Null,
{
    serde_json::Value::default()
}

/// `serde_json::Value::from` of a `bool`: that boolean.
#[verifier::external_body]
pub(crate) fn value_from_bool(b: bool) -> (r: serde_json::Value)
    ensures
        json(r) == Json::Bool(b),
{
    serde_json::Value::from(b)
}

/// `serde_json::Value::from` of a `u64`: that number.
#[verifier::external_body]
pub(crate) fn value_from_u64(n: u64) -> (r: serde_json::Value)
    ensures
        json(r) == Json::Unsigned(n),
{
    serde_json::Value::from(n)
}

/// `serde_json::Value::from` of a `&str`: that text.
#[verifier::external_body]
pub(crate) fn value_from_str(s: &str) -> (r: serde_json::Value)
    ensures
        json(r) == Json::Text(s@),
{
    serde_json::Value::from(s)
}

/// Assignment through `serde_json::Value::index_mut` with a string: sets that
/// member of an object. Null is turned into an object first; on any other value
/// the index panics.
#[verifier::external_body]
pub(crate) fn value_set(v: &mut serde_json::Value, key: &str, x: serde_json::Value)
    requires
        json(*old(v)) is Null || json(*old(v)) is Object,
    ensures
        json(*final(v)) == Json::Object(json(*old(v)).members().insert(key@, json(x))),
{
    v[key] = x;
}

/// `serde_json::from_slice` to a `serde_json::Value`: what the bytes hold, read as
/// one JSON text.
#[verifier::external_body]
pub(crate) fn value_from_slice(bytes: &[u8]) -> (r: Result<serde_json::Value, serde_json::Error>)
    ensures
        match r {
            Ok(v) => json_decoded(bytes@) == Ok::<Json, Seq<char>>(json(v)),
            Err(e) => json_decoded(bytes@) == Err::<Json, Seq<char>>(json_error_text(e)),
        },
{
    serde_json::from_slice(bytes)
}

/// `serde_json::to_vec` of a `serde_json::Value`: its compact text in bytes. The
/// text of a value is never empty, and the printer escapes the control characters
/// of strings, so that no byte of it is zero.
#[verifier::external_body]
pub(crate) fn value_to_vec(v: &serde_json::Value) -> (r: Result<Vec<u8>, serde_json::Error>)
    ensures
        match r {
            Ok(b) => json_encoded(json(*v)) == Ok::<Seq<u8>, Seq<char>>(b@),
            Err(e) => json_encoded(json(*v)) == Err::<Seq<u8>, Seq<char>>(json_error_text(e)),
        },
        r matches Ok(b) ==> b@.len() > 0 && !b@.contains(0u8),
{
    serde_json::to_vec(v)
}

/// `serde_json::Value::to_string`, the text that the value is displayed as.
#[verifier::external_body]
pub(crate) fn value_display(v: &serde_json::Value) -> (r: String)
    ensures
        r@ == json_display(json(*v)),
{
    v.to_string()
}

/// `serde_json::Error::to_string`, the text that the error is displayed as.
#[verifier::external_body]
pub(crate) fn error_text(e: &serde_json::Error) -> (r: String)
    ensures
        r@ == json_error_text(*e),
{
    e.to_string()
}

/// The member `key`, where it is a `u64`.
pub(crate) fn unsigned_field(v: &serde_json::Value, key: &str) -> (r: Option<u64>)
    ensures
        r == json(*v).unsigned_field(key@),
{
    match value_get(v, key) {
        Some(x) => x.as_u64(),
        None => None,
    }
}

/// The view of an optional string.
pub open spec fn opt_text(s: Option<String>) -> Option<Seq<char>> {
    match s {
        Some(x) => Some(x@),
        None => None,
    }
}

/// The text of the member `key`, where it is a string.
pub(crate) fn text_field(v: &serde_json::Value, key: &str) -> (r: Option<String>)
    ensures
        opt_text(r) == json(*v).text_field(key@),
{
    match value_get(v, key) {
        Some(x) => match x.as_str() {
            Some(s) => Some(s.to_owned()),
            None => None,
        },
        None => None,
    }
}

/// A copy of the member `key`, or null where there is none.
pub(crate) fn field_or_null(v: &serde_json::Value, key: &str) -> (r: serde_json::Value)
    ensures
        json(r) == json(*v).field_or_null(key@),
{
    match value_get(v, key) {
        Some(x) => x.clone(),
        None => value_null(),
    }
}

/// A member is found by its name, whatever other members the object has and whatever
/// the member holds.
pub proof fn member_is_found(others: Map<Seq<char>, Json>, key: Seq<char>, value: Json)
    ensures
        ({
            let object = Json::Object(others.insert(key, value));
            &&& object.field(key) == Some(value)
            &&& object.field_or_null(key) == value
            &&& match value {
                Json::Unsigned(n) => object.unsigned_field(key) == Some(n),
                _ => object.unsigned_field(key) is None,
            }
            &&& match value {
                Json::Text(t) => object.text_field(key) == Some(t),
                _ => object.text_field(key) is None,
            }
        }),
{
}

/// A member that an object does not have is not found, and what is no object has no
/// members.
pub proof fn missing_member_is_not_found(value: Json, key: Seq<char>)
    requires
        value matches Json::Object(m) ==> !m.dom().contains(key),
    ensures
        value.field(key) is None,
        value.field_or_null(key) == Json::Null,
        value.unsigned_field(key) is None,
        value.text_field(key) is None,
{
}

/// A text that is there is seen as it is, be it empty or not.
pub proof fn text_is_seen(s: String)
    ensures
        opt_text(Some(s)) == Some(s@),
        opt_text(None) is None,
{
}

} // verus!
