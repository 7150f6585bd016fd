//! JSON documents: what a `serde_json` value holds, and the calls that read and build one.
use serde_json::Value;
use vstd::prelude::*;

use crate::text;

verus! {

/// A JSON document as mathematics: what a `serde_json::Value` holds.
pub enum Json {
    Null,
    Bool(bool),
    /// A number that `u64` can hold.
    Unsigned(u64),
    /// Any other number, by its text.
    Number(Seq<char>),
    Text(Seq<char>),
    Array(Seq<Json>),
    /// The members in order, each key once.
    Object(Seq<(Seq<char>, Json)>),
}

/// The value type of `serde_json`.
#[verifier::external_type_specification]
#[verifier::external_body]
pub struct ExValue(serde_json::Value);

/// What a value holds.
pub uninterp spec fn json_tree(value: Value) -> Json;

/// The document that a text writes, where it is JSON.
pub uninterp spec fn json_of(text: Seq<char>) -> Option<Json>;

/// The text of a document with two spaces of indentation for each level.
pub uninterp spec fn pretty_text(tree: Json) -> Seq<char>;

/// The least whole number that is not below a JSON number, within `u64`.
pub uninterp spec fn number_ceiling(tree: Json) -> u64;

/// A JSON number without its fraction, within `i64`.
pub uninterp spec fn number_whole(tree: Json) -> i64;

/// Whether a document is a number.
pub open spec fn is_number(tree: Json) -> bool {
    tree is Unsigned || tree is Number
}

/// The first member with a key, from position `i` on.
pub open spec fn member_from(members: Seq<(Seq<char>, Json)>, key: Seq<char>, i: int) -> Option<Json>
    decreases members.len() - i,
{
    if i < 0 || i >= members.len() {
        None
    } else if members[i].0 == key {
        Some(members[i].1)
    } else {
        member_from(members, key, i + 1)
    }
}

/// The member of a document under a key, where it is an object that has one.
pub open spec fn member(tree: Json, key: Seq<char>) -> Option<Json> {
    match tree {
        Json::Object(members) => member_from(members, key, 0),
        _ => None,
    }
}

/// The text of a document that is a string.
pub open spec fn text_in(tree: Option<Json>) -> Option<Seq<char>> {
    match tree {
        Some(Json::Text(text)) => Some(text),
        _ => None,
    }
}

/// What each value of a list holds.
pub open spec fn trees(items: Seq<Value>) -> Seq<Json> {
    Seq::new(items.len(), |i: int| json_tree(items[i]))
}

/// What each member of a list holds.
pub open spec fn member_trees(members: Seq<(String, Value)>) -> Seq<(Seq<char>, Json)> {
    Seq::new(members.len(), |i: int| (members[i].0@, json_tree(members[i].1)))
}

/// Whether no two members have one key.
pub open spec fn distinct_keys(members: Seq<(Seq<char>, Json)>) -> bool {
    forall|i: int, j: int|
        0 <= i < j < members.len() ==> (#[trigger] members[i]).0 != (#[trigger] members[j]).0
}

/// An array of strings.
pub open spec fn text_array(list: Seq<Seq<char>>) -> Json {
    Json::Array(Seq::new(list.len(), |i: int| Json::Text(list[i])))
}

/// `serde_json::from_str` into a value: the document of a text that is JSON, `None` for any other.
#[verifier::external_body]
pub(crate) fn parse_json(text: &str) -> (r: Option<Value>)
    ensures
        match r {
            Some(value) => json_of(text@) == Some(json_tree(value)),
            None => json_of(text@) is None,
        },
{
    serde_json::from_str::<Value>(text).ok()
}

/// `serde_json::Value::is_object`.
#[verifier::external_body]
pub(crate) fn json_is_object(value: &Value) -> (r: bool)
    ensures
        r == (json_tree(*value) is Object),
{
    value.is_object()
}

/// `serde_json::Value::get` with a key: the member of an object; `None` without it and for any
/// other document.
#[verifier::external_body]
pub(crate) fn json_get<'a>(value: &'a Value, key: &str) -> (r: Option<&'a Value>)
    ensures
        match r {
            Some(found) => member(json_tree(*value), key@) == Some(json_tree(*found)),
            None => member(json_tree(*value), key@) is None,
        },
{
    value.get(key)
}

/// `serde_json::Value::as_str`: the text of a string, `None` for any other document.
#[verifier::external_body]
pub(crate) fn json_as_str(value: &Value) -> (r: Option<&str>)
    ensures
        text::opt_str(r) == text_in(Some(json_tree(*value))),
{
    value.as_str()
}

/// `serde_json::Value::as_u64`: the number of a document that `u64` can hold.
#[verifier::external_body]
pub(crate) fn json_as_u64(value: &Value) -> (r: Option<u64>)
    ensures
        r == (match json_tree(*value) {
            Json::Unsigned(n) => Some(n),
            _ => None,
        }),
{
    value.as_u64()
}

/// `serde_json::Value::as_bool`: the truth value of a document that is one.
#[verifier::external_body]
pub(crate) fn json_as_bool(value: &Value) -> (r: Option<bool>)
    ensures
        r == (match json_tree(*value) {
            Json::Bool(flag) => Some(flag),
            _ => None,
        }),
{
    value.as_bool()
}

/// `serde_json::Value::as_f64` rounded up to `u64`: a number for every JSON number and for no
/// other document. How the rounding goes is left to the float type.
#[verifier::external_body]
pub(crate) fn json_ceiling(value: &Value) -> (r: Option<u64>)
    ensures
        r == (if is_number(json_tree(*value)) {
            Some(number_ceiling(json_tree(*value)))
        } else {
            None
        }),
{
    value.as_f64().map(|number| number.ceil() as u64)
}

/// `serde_json::Value::as_f64` cut to `i64`: a number for every JSON number and for no other
/// document; a number that the float type holds exactly is kept.
#[verifier::external_body]
pub(crate) fn json_whole(value: &Value) -> (r: Option<i64>)
    ensures
        r == (if is_number(json_tree(*value)) {
            Some(number_whole(json_tree(*value)))
        } else {
            None
        }),
        json_tree(*value) matches Json::Unsigned(n) ==> n <= 0x20_0000_0000_0000 ==> r == Some(
            n as i64,
        ),
{
    value.as_f64().map(|number| number as i64)
}

/// The members of `serde_json::Value::as_object`, in order; `None` for any other document.
#[verifier::external_body]
pub(crate) fn json_members(value: &Value) -> (r: Option<Vec<(String, Value)>>)
    ensures
        match r {
            Some(members) => json_tree(*value) == Json::Object(member_trees(members@)),
            None => !(json_tree(*value) is Object),
        },
{
    value.as_object().map(|map| map.iter().map(|(k, v)| (k.clone(), v.clone())).collect())
}

/// The items of `serde_json::Value::as_array`, in order; `None` for any other document.
#[verifier::external_body]
pub(crate) fn json_items(value: &Value) -> (r: Option<Vec<Value>>)
    ensures
        match r {
            Some(items) => json_tree(*value) == Json::Array(trees(items@)),
            None => !(json_tree(*value) is Array),
        },
{
    value.as_array().cloned()
}

/// `serde_json::Value::Bool`.
#[verifier::external_body]
pub(crate) fn json_bool(flag: bool) -> (r: Value)
    ensures
        json_tree(r) == Json::Bool(flag),
{
    Value::Bool(flag)
}

/// `serde_json::Value::from` on a `u64`.
#[verifier::external_body]
pub(crate) fn json_number(n: u64) -> (r: Value)
    ensures
        json_tree(r) == Json::Unsigned(n),
{
    Value::from(n)
}

/// `serde_json::Value::String`.
#[verifier::external_body]
pub(crate) fn json_text(text: &str) -> (r: Value)
    ensures
        json_tree(r) == Json::Text(text@),
{
    Value::String(text.to_owned())
}

/// `serde_json::Value::Array`.
#[verifier::external_body]
pub(crate) fn json_array(items: Vec<Value>) -> (r: Value)
    ensures
        json_tree(r) == Json::Array(trees(items@)),
{
    Value::Array(items)
}

/// `serde_json::Value::Object` on a map that keeps the order in which members are put in; a key
/// that came twice would keep only its last value, so each key comes once.
#[verifier::external_body]
pub(crate) fn json_object(members: Vec<(String, Value)>) -> (r: Value)
    requires
        distinct_keys(member_trees(members@)),
    ensures
        json_tree(r) == Json::Object(member_trees(members@)),
{
    Value::Object(members.into_iter().collect())
}

/// `serde_json::to_string_pretty` on a value, which always has a text.
#[verifier::external_body]
pub(crate) fn json_pretty(value: &Value) -> (r: String)
    ensures
        r@ == pretty_text(json_tree(*value)),
{
    serde_json::to_string_pretty(value).unwrap_or_default()
}

/// An array of strings.
pub fn json_texts(list: &Vec<String>) -> (r: Value)
    ensures
        json_tree(r) == text_array(text::views(list@)),
{
    let mut items: Vec<Value> = Vec::new();
    let mut i: usize = 0;
    while i < list.len()
        invariant
            i <= list@.len(),
            items@.len() == i,
            forall|j: int| 0 <= j < i ==> json_tree(#[trigger] items@[j]) == Json::Text(list@[j]@),
        decreases list@.len() - i,
    {
        items.push(json_text(list[i].as_str()));
        i = i + 1;
    }
    let ghost all = text::views(list@);
    assert(trees(items@) =~= Seq::new(all.len(), |j: int| Json::Text(all[j])));
    json_array(items)
}

/// An object with one member.
pub fn object1(k1: &str, v1: Value) -> (r: Value)
    ensures
        json_tree(r) == Json::Object(seq![(k1@, json_tree(v1))]),
{
    let mut members: Vec<(String, Value)> = Vec::new();
    members.push((k1.to_owned(), v1));
    assert(member_trees(members@) =~= seq![(k1@, json_tree(v1))]);
    json_object(members)
}

/// An object with two members.
pub fn object2(k1: &str, v1: Value, k2: &str, v2: Value) -> (r: Value)
    requires
        k1@ != k2@,
    ensures
        json_tree(r) == Json::Object(seq![(k1@, json_tree(v1)), (k2@, json_tree(v2))]),
{
    let mut members: Vec<(String, Value)> = Vec::new();
    members.push((k1.to_owned(), v1));
    members.push((k2.to_owned(), v2));
    assert(member_trees(members@) =~= seq![(k1@, json_tree(v1)), (k2@, json_tree(v2))]);
    json_object(members)
}

/// An object with three members.
pub fn object3(k1: &str, v1: Value, k2: &str, v2: Value, k3: &str, v3: Value) -> (r: Value)
    requires
        k1@ != k2@,
        k1@ != k3@,
        k2@ != k3@,
    ensures
        json_tree(r) == Json::Object(
            seq![(k1@, json_tree(v1)), (k2@, json_tree(v2)), (k3@, json_tree(v3))],
        ),
{
    let mut members: Vec<(String, Value)> = Vec::new();
    members.push((k1.to_owned(), v1));
    members.push((k2.to_owned(), v2));
    members.push((k3.to_owned(), v3));
    assert(member_trees(members@) =~= seq![
        (k1@, json_tree(v1)),
        (k2@, json_tree(v2)),
        (k3@, json_tree(v3)),
    ]);
    json_object(members)
}

/// An array with one item.
pub fn array1(item: Value) -> (r: Value)
    ensures
        json_tree(r) == Json::Array(seq![json_tree(item)]),
{
    let mut items: Vec<Value> = Vec::new();
    items.push(item);
    assert(trees(items@) =~= seq![json_tree(item)]);
    json_array(items)
}

/// The member of a document that may be missing.
pub open spec fn field(tree: Option<Json>, key: Seq<char>) -> Option<Json> {
    match tree {
        Some(tree) => member(tree, key),
        None => None,
    }
}

/// The items of a document that is an array.
pub open spec fn items(tree: Option<Json>) -> Seq<Json> {
    match tree {
        Some(Json::Array(items)) => items,
        _ => Seq::empty(),
    }
}

/// The one item of a document that is an array of one item.
pub open spec fn only(tree: Option<Json>) -> Option<Json> {
    match tree {
        Some(Json::Array(items)) if items.len() == 1 => Some(items[0]),
        _ => None,
    }
}

/// A member whose key no earlier member has is found.
pub proof fn lemma_member(members: Seq<(Seq<char>, Json)>, at: int)
    requires
        0 <= at < members.len(),
        forall|j: int| 0 <= j < at ==> (#[trigger] members[j]).0 != members[at].0,
    ensures
        member(Json::Object(members), members[at].0) == Some(members[at].1),
{
    lemma_member_from(members, at, 0);
}

proof fn lemma_member_from(members: Seq<(Seq<char>, Json)>, at: int, i: int)
    requires
        0 <= i <= at < members.len(),
        forall|j: int| 0 <= j < at ==> (#[trigger] members[j]).0 != members[at].0,
    ensures
        member_from(members, members[at].0, i) == Some(members[at].1),
    decreases at - i,
{
    if i < at {
        lemma_member_from(members, at, i + 1);
    }
}

/// A key that no member has is not found.
pub proof fn lemma_no_member(members: Seq<(Seq<char>, Json)>, key: Seq<char>, i: int)
    requires
        0 <= i,
        forall|j: int| i <= j < members.len() ==> (#[trigger] members[j]).0 != key,
    ensures
        member_from(members, key, i) is None,
    decreases members.len() - i,
{
    if i < members.len() {
        lemma_no_member(members, key, i + 1);
    }
}

} // verus!
