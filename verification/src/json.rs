//! Reading JSON documents. The documents are parsed and held by
//! `serde_json`; this module gives its accessors their contracts and builds
//! the lookups with defaults on them.

use vstd::prelude::*;

verus! {

/// `serde_json::Error`, carried as it is: why a text is not JSON.
#[verifier::external_type_specification]
#[verifier::external_body]
pub struct ExJsonError(serde_json::Error);

/// `serde_json::Value`, carried as it is: a JSON document. What is inside
/// is known only through the accessors of this module.
#[verifier::external_type_specification]
#[verifier::external_body]
pub struct ExJsonValue(serde_json::Value);

/// `serde_json::Value::clone` is the derived clone of an enum of plain
/// data: the copy equals the value it was made from.
pub assume_specification[ <serde_json::Value as Clone>::clone ](v: &serde_json::Value) -> (r:
    serde_json::Value)
    ensures
        r == *v,
;

/// The document that the JSON text `text` denotes, if it is JSON.
pub uninterp spec fn json_document(text: Seq<char>) -> Option<serde_json::Value>;

/// The member `key` of the object `v`; nothing if `v` is no object or has
/// no such member.
pub uninterp spec fn json_member(v: serde_json::Value, key: Seq<char>) -> Option<serde_json::Value>;

/// The text of `v`, if `v` is a string.
pub uninterp spec fn json_text(v: serde_json::Value) -> Option<Seq<char>>;

/// The number `v`, if `v` is a number written without fraction and
/// exponent that lies in the range of `i64`.
pub uninterp spec fn json_integer(v: serde_json::Value) -> Option<i64>;

/// The truth value `v`, if `v` is `true` or `false`.
pub uninterp spec fn json_flag(v: serde_json::Value) -> Option<bool>;

/// The elements of `v` in order, if `v` is an array.
pub uninterp spec fn json_elements(v: serde_json::Value) -> Option<Seq<serde_json::Value>>;

/// The members of `v` with their names, in the order in which `serde_json`
/// walks them, if `v` is an object.
pub uninterp spec fn json_entries(v: serde_json::Value) -> Option<
    Seq<(Seq<char>, serde_json::Value)>,
>;

/// The object `obj` with `member` stored under `key`, in place of what was
/// stored there.
pub uninterp spec fn json_with(
    obj: serde_json::Value,
    key: Seq<char>,
    member: serde_json::Value,
) -> serde_json::Value;

/// Stores `member` under `key` in the object `obj` with
/// `serde_json::Map::insert`. The result is an object; the member can be
/// read back under its key, and the other members are those of `obj`.
#[verifier::external_body]
pub(crate) fn with_member(obj: serde_json::Value, key: &str, member: serde_json::Value) -> (r:
    serde_json::Value)
    requires
        json_entries(obj) is Some,
    ensures
        r == json_with(obj, key@, member),
        json_entries(r) is Some,
        json_member(r, key@) == Some(member),
        forall|other: Seq<char>|
            other != key@ ==> #[trigger] json_member(r, other) == json_member(obj, other),
{
    match obj {
        serde_json::Value::Object(mut map) => {
            map.insert(key.to_string(), member);
            serde_json::Value::Object(map)
        },
        other => other,
    }
}

/// The object without members, made with `serde_json::Map::new`.
#[verifier::external_body]
pub(crate) fn empty_object() -> (r: serde_json::Value)
    ensures
        json_entries(r) is Some,
        forall|key: Seq<char>| #[trigger] json_member(r, key) is None,
{
    serde_json::Value::Object(serde_json::Map::new())
}

/// What `serde_json::Error` prints of itself: its message, then line and
/// column where it has them. Nothing is claimed of the text.
#[verifier::external_body]
pub(crate) fn json_error_text(e: &serde_json::Error) -> (r: String) {
    format!("{e}")
}

/// Parses `text` with `serde_json::from_str`: the document that the text
/// denotes, or the error that says where the text stops being JSON.
#[verifier::external_body]
pub(crate) fn parse_document(text: &str) -> (r: Result<serde_json::Value, serde_json::Error>)
    ensures
        r is Ok ==> json_document(text@) == Some(r->Ok_0),
        r is Err ==> json_document(text@) is None,
{
    serde_json::from_str(text)
}

/// `serde_json::Value::get` with a string key: the member of that name of
/// an object, nothing for any other value.
#[verifier::external_body]
pub(crate) fn member<'a>(v: &'a serde_json::Value, key: &str) -> (r: Option<&'a serde_json::Value>)
    ensures
        r is Some ==> json_member(*v, key@) == Some(*r->0),
        r is None ==> json_member(*v, key@) is None,
{
    v.get(key)
}

/// `serde_json::Value::as_str`: the text of a string, nothing for any other
/// value.
#[verifier::external_body]
pub(crate) fn text_of<'a>(v: &'a serde_json::Value) -> (r: Option<&'a str>)
    ensures
        r is Some ==> json_text(*v) == Some(r->0@),
        r is None ==> json_text(*v) is None,
{
    v.as_str()
}

/// `serde_json::Value::as_i64`: the number if the value is a number held
/// as an integer that fits `i64`, nothing for any other value.
#[verifier::external_body]
pub(crate) fn integer_of(v: &serde_json::Value) -> (r: Option<i64>)
    ensures
        r == json_integer(*v),
{
    v.as_i64()
}

/// `serde_json::Value::as_bool`: the truth value of `true` and `false`,
/// nothing for any other value.
#[verifier::external_body]
pub(crate) fn flag_of(v: &serde_json::Value) -> (r: Option<bool>)
    ensures
        r == json_flag(*v),
{
    v.as_bool()
}

/// `serde_json::Value::as_array`: the elements of an array, nothing for any
/// other value.
#[verifier::external_body]
pub(crate) fn elements_of<'a>(v: &'a serde_json::Value) -> (r: Option<&'a Vec<serde_json::Value>>)
    ensures
        r is Some ==> json_elements(*v) == Some(r->0@),
        r is None ==> json_elements(*v) is None,
{
    v.as_array()
}

/// `serde_json::Value::as_object` and the walk over the map it gives: the
/// members of an object with their names, nothing for any other value.
#[verifier::external_body]
pub(crate) fn entries_of<'a>(v: &'a serde_json::Value) -> (r: Option<
    Vec<(String, &'a serde_json::Value)>,
>)
    ensures
        r is None ==> json_entries(*v) is None,
        r is Some ==> json_entries(*v) is Some && r->0@.len() == json_entries(*v)->0.len(),
        r is Some ==> forall|i: int|
            0 <= i < r->0@.len() ==> (#[trigger] r->0@[i]).0@ == json_entries(*v)->0[i].0
                && *r->0@[i].1 == json_entries(*v)->0[i].1,
{
    v.as_object().map(|m| m.iter().map(|(k, v)| (k.clone(), v)).collect())
}

/// The text of the member `key` of `v`, or `default` if there is no such
/// member or it is no string.
pub open spec fn text_field(v: serde_json::Value, key: Seq<char>, default: Seq<char>) -> Seq<
    char,
> {
    match json_member(v, key) {
        Some(m) => match json_text(m) {
            Some(t) => t,
            None => default,
        },
        None => default,
    }
}

/// The text of the member `key` of `v`, if that member is a string.
pub open spec fn some_text_field(v: serde_json::Value, key: Seq<char>) -> Option<Seq<char>> {
    match json_member(v, key) {
        Some(m) => json_text(m),
        None => None,
    }
}

/// The whole number that the member `key` of `v` is, if it is one.
pub open spec fn some_int_field(v: serde_json::Value, key: Seq<char>) -> Option<i64> {
    match json_member(v, key) {
        Some(m) => json_integer(m),
        None => None,
    }
}

/// The whole number that the member `key` of `v` is, or `default`.
pub open spec fn int_field(v: serde_json::Value, key: Seq<char>, default: i64) -> i64 {
    match some_int_field(v, key) {
        Some(n) => n,
        None => default,
    }
}

/// The truth value that the member `key` of `v` is, or `default`.
pub open spec fn flag_field(v: serde_json::Value, key: Seq<char>, default: bool) -> bool {
    match json_member(v, key) {
        Some(m) => match json_flag(m) {
            Some(b) => b,
            None => default,
        },
        None => default,
    }
}

/// The elements of the member `key` of `v`, if that member is an array.
pub open spec fn list_field(v: serde_json::Value, key: Seq<char>) -> Option<
    Seq<serde_json::Value>,
> {
    match json_member(v, key) {
        Some(m) => json_elements(m),
        None => None,
    }
}

/// The members of the member `key` of `v`, if that member is an object.
pub open spec fn entries_field(v: serde_json::Value, key: Seq<char>) -> Option<
    Seq<(Seq<char>, serde_json::Value)>,
> {
    match json_member(v, key) {
        Some(m) => json_entries(m),
        None => None,
    }
}

/// The text of the member `key` of `v`, or `default`.
pub fn get_text(v: &serde_json::Value, key: &str, default: &str) -> (r: String)
    ensures
        r@ == text_field(*v, key@, default@),
{
    match member(v, key) {
        Some(m) => match text_of(m) {
            Some(t) => String::from_str(t),
            None => String::from_str(default),
        },
        None => String::from_str(default),
    }
}

/// The text of the member `key` of `v`, if that member is a string.
pub fn get_some_text<'a>(v: &'a serde_json::Value, key: &str) -> (r: Option<&'a str>)
    ensures
        r is Some == some_text_field(*v, key@) is Some,
        r is Some ==> r->0@ == some_text_field(*v, key@)->0,
{
    match member(v, key) {
        Some(m) => text_of(m),
        None => None,
    }
}

/// The whole number that the member `key` of `v` is, if it is one.
pub fn get_some_int(v: &serde_json::Value, key: &str) -> (r: Option<i64>)
    ensures
        r == some_int_field(*v, key@),
{
    match member(v, key) {
        Some(m) => integer_of(m),
        None => None,
    }
}

/// The whole number that the member `key` of `v` is, or `default`.
pub fn get_int(v: &serde_json::Value, key: &str, default: i64) -> (r: i64)
    ensures
        r == int_field(*v, key@, default),
{
    match get_some_int(v, key) {
        Some(n) => n,
        None => default,
    }
}

/// The truth value that the member `key` of `v` is, or `default`.
pub fn get_flag(v: &serde_json::Value, key: &str, default: bool) -> (r: bool)
    ensures
        r == flag_field(*v, key@, default),
{
    match member(v, key) {
        Some(m) => match flag_of(m) {
            Some(b) => b,
            None => default,
        },
        None => default,
    }
}

/// The elements of the member `key` of `v`, if that member is an array.
pub fn get_list<'a>(v: &'a serde_json::Value, key: &str) -> (r: Option<&'a Vec<serde_json::Value>>)
    ensures
        r is Some == list_field(*v, key@) is Some,
        r is Some ==> r->0@ == list_field(*v, key@)->0,
{
    match member(v, key) {
        Some(m) => elements_of(m),
        None => None,
    }
}

/// The members of the member `key` of `v` with their names, if that member
/// is an object.
pub fn get_entries<'a>(v: &'a serde_json::Value, key: &str) -> (r: Option<
    Vec<(String, &'a serde_json::Value)>,
>)
    ensures
        r is Some == entries_field(*v, key@) is Some,
        r is Some ==> r->0@.len() == entries_field(*v, key@)->0.len(),
        r is Some ==> forall|i: int|
            0 <= i < r->0@.len() ==> (#[trigger] r->0@[i]).0@ == entries_field(*v, key@)->0[i].0
                && *r->0@[i].1 == entries_field(*v, key@)->0[i].1,
{
    match member(v, key) {
        Some(m) => entries_of(m),
        None => None,
    }
}

/// `n` cut down to its lowest 32 bits.
pub open spec fn narrowed(n: i64) -> i32 {
    n as i32
}

/// `n` cut down to its lowest 32 bits, as a cast does.
pub fn narrow(n: i64) -> (r: i32)
    ensures
        r == narrowed(n),
        i32::MIN <= n <= i32::MAX ==> r == n,
{
    #[verifier::truncate]
    (n as i32)
}

} // verus!
