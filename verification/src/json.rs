//! JSON values as `serde_json` holds them.
//!
//! Nothing is known here of what is inside a value. What a value holds is
//! spoken of through its compact JSON text, and what `serde_json`'s
//! accessors make of a value is named, not described: each accessor below is
//! taken at its word.

use vstd::prelude::*;

verus! {

#[verifier::external_type_specification]
#[verifier::external_body]
pub struct ExValue(serde_json::Value);

#[verifier::external_type_specification]
#[verifier::external_body]
#[verifier::reject_recursive_types(K)]
#[verifier::reject_recursive_types(V)]
pub struct ExMap<K, V>(serde_json::Map<K, V>);

/// What a JSON value holds, as its compact JSON text: the text that
/// `serde_json` writes for the value.
pub uninterp spec fn json_text(value: serde_json::Value) -> Seq<char>;

/// The text of what indexing the value written `document` by `key` gives:
/// the member of that name where the value is an object that has one, the
/// JSON null otherwise.
pub uninterp spec fn member_text(document: Seq<char>, key: Seq<char>) -> Seq<char>;

/// The text of the member `key` of the value written `document`, where the
/// value is an object that has such a member.
pub uninterp spec fn found_text(document: Seq<char>, key: Seq<char>) -> Option<Seq<char>>;

/// The texts of the items of the value written `document`, in order, where
/// the value is an array.
pub uninterp spec fn array_items(document: Seq<char>) -> Option<Seq<Seq<char>>>;

/// The texts of the members' values of the value written `document`, in
/// the order in which the object lists them, where the value is an object.
pub uninterp spec fn object_values(document: Seq<char>) -> Option<Seq<Seq<char>>>;

/// What the map of a JSON object holds: the texts of its members' values,
/// in the order in which the map walks them.
pub uninterp spec fn map_values(map: serde_json::Map<String, serde_json::Value>) -> Seq<Seq<char>>;

/// The texts of a sequence of values.
pub open spec fn texts_of(values: Seq<serde_json::Value>) -> Seq<Seq<char>> {
    Seq::new(values.len(), |i: int| json_text(values[i]))
}

/// The texts of a sequence of borrowed values.
pub open spec fn texts_of_borrowed(values: Seq<&serde_json::Value>) -> Seq<Seq<char>> {
    Seq::new(values.len(), |i: int| json_text(*values[i]))
}

/// `serde_json::Value`'s `to_string`, which goes through its `Display`: the
/// value written as compact JSON. The result is the text by which this
/// library speaks of the value.
#[verifier::external_body]
pub(crate) fn text_of(value: &serde_json::Value) -> (text: String)
    ensures
        text@ == json_text(*value),
{
    value.to_string()
}

/// `serde_json::Value`'s indexing by a string, `value[key]`. It never fails:
/// where there is no such member it gives the JSON null. The text of the
/// result is named by `member_text`.
#[verifier::external_body]
pub(crate) fn member<'a>(value: &'a serde_json::Value, key: &str) -> (inner: &'a serde_json::Value)
    ensures
        json_text(*inner) == member_text(json_text(*value), key@),
{
    &value[key]
}

/// `serde_json::Value::get` with a string: the member of that name, or
/// nothing where the value is no object or has no such member. The text of
/// the result is named by `found_text`.
#[verifier::external_body]
pub(crate) fn find<'a>(value: &'a serde_json::Value, key: &str) -> (inner: Option<&'a serde_json::Value>)
    ensures
        match inner {
            None => found_text(json_text(*value), key@) is None,
            Some(found) => found_text(json_text(*value), key@) == Some(json_text(*found)),
        },
{
    value.get(key)
}

/// `serde_json::Value::as_array`: the items of an array, or nothing where
/// the value is no array. The texts of the items are named by
/// `array_items`.
#[verifier::external_body]
pub(crate) fn elements<'a>(value: &'a serde_json::Value) -> (items: Option<&'a Vec<serde_json::Value>>)
    ensures
        match items {
            None => array_items(json_text(*value)) is None,
            Some(list) => array_items(json_text(*value)) == Some(texts_of(list@)),
        },
{
    value.as_array()
}

/// `serde_json::Value::as_object`: the map of an object, or nothing where
/// the value is no object. What the map holds is what `object_values` names
/// for the value.
#[verifier::external_body]
pub(crate) fn object_of<'a>(value: &'a serde_json::Value) -> (object: Option<
    &'a serde_json::Map<String, serde_json::Value>,
>)
    ensures
        match object {
            None => object_values(json_text(*value)) is None,
            Some(map) => object_values(json_text(*value)) == Some(map_values(*map)),
        },
{
    value.as_object()
}

/// `serde_json::Map::values`: the values of a map's members, in the order
/// in which the map walks them.
#[verifier::external_body]
pub(crate) fn values_of<'a>(map: &'a serde_json::Map<String, serde_json::Value>) -> (values: Vec<
    &'a serde_json::Value,
>)
    ensures
        texts_of_borrowed(values@) == map_values(*map),
{
    map.values().collect()
}

} // verus!
