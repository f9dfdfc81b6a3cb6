//! JSON values: what the ledger reads from them and how it writes them.
use crate::text::views;
use vstd::prelude::*;

verus! {

/// A JSON value of `serde_json`.
#[verifier::external_type_specification]
#[verifier::external_body]
pub struct ExValue(serde_json::Value);

/// What a JSON value is.
#[allow(inconsistent_fields)]
pub enum JsonView {
    Null,
    Bool { value: bool },
    /// A whole number.
    Whole { value: int },
    /// Any other number.
    Fraction,
    Text { text: Seq<char> },
    List { items: Seq<JsonView> },
    Object { members: Map<Seq<char>, JsonView> },
}

/// What a value of `serde_json` holds.
pub uninterp spec fn json_view(value: serde_json::Value) -> JsonView;

/// Whether a JSON value is an object.
pub open spec fn is_object(value: serde_json::Value) -> bool {
    json_view(value) is Object
}

/// The members of a JSON object whose values are strings.
pub open spec fn string_members(value: serde_json::Value) -> Map<Seq<char>, Seq<char>> {
    let members = json_view(value)->members;
    Map::new(
        |key: Seq<char>| members.dom().contains(key) && members[key] is Text,
        |key: Seq<char>| members[key]->text,
    )
}

/// Whether JSON holds no fraction and nests at most `depth` times.
pub open spec fn plain_within(view: JsonView, depth: nat) -> bool
    decreases depth,
{
    match view {
        JsonView::Fraction => false,
        JsonView::List { items } => depth > 0 && forall|i: int|
            0 <= i < items.len() ==> plain_within(#[trigger] items[i], (depth - 1) as nat),
        JsonView::Object { members } => depth > 0 && forall|key: Seq<char>| #[trigger]
            members.dom().contains(key) ==> plain_within(members[key], (depth - 1) as nat),
        _ => true,
    }
}

/// Whether a JSON value holds no fraction and nests at most a hundred times.
pub open spec fn plain(value: serde_json::Value) -> bool {
    plain_within(json_view(value), 100)
}

/// A text in JSON.
pub open spec fn text_view(text: Seq<char>) -> JsonView {
    JsonView::Text { text }
}

/// Texts in JSON.
pub open spec fn texts_view(texts: Seq<Seq<char>>) -> JsonView {
    JsonView::List { items: Seq::new(texts.len(), |i: int| text_view(texts[i])) }
}

/// What some values hold.
pub open spec fn json_views(values: Seq<serde_json::Value>) -> Seq<JsonView> {
    Seq::new(values.len(), |i: int| json_view(values[i]))
}

/// An object without members.
pub open spec fn no_members() -> Map<Seq<char>, JsonView> {
    Map::empty()
}

/// `serde_json::Value` from a `&str`: a JSON string.
#[verifier::external_body]
pub(crate) fn text_value(text: &str) -> (r: serde_json::Value)
    ensures
        json_view(r) == text_view(text@),
{
    serde_json::Value::from(text)
}

/// `serde_json::Value` from an `i64`: a whole number.
#[verifier::external_body]
pub(crate) fn whole_value(n: i64) -> (r: serde_json::Value)
    ensures
        json_view(r) == (JsonView::Whole { value: n as int }),
{
    serde_json::Value::from(n)
}

/// `serde_json::Value` from a `Vec` of values: an array of them, in their order.
#[verifier::external_body]
pub(crate) fn list_value(items: Vec<serde_json::Value>) -> (r: serde_json::Value)
    ensures
        json_view(r) == (JsonView::List { items: json_views(items@) }),
{
    serde_json::Value::from(items)
}

/// `serde_json::Map::new` as a value: an object without members.
#[verifier::external_body]
pub(crate) fn empty_object() -> (r: serde_json::Value)
    ensures
        json_view(r) == (JsonView::Object { members: no_members() }),
{
    serde_json::Value::Object(serde_json::Map::new())
}

/// `serde_json::Value` indexed for writing by a key: the member under the key of an object is put
/// in place of what was there, and the others stay. Indexing what is no object panics.
#[verifier::external_body]
pub(crate) fn put_member(value: &mut serde_json::Value, key: &str, member: serde_json::Value)
    requires
        is_object(*old(value)),
    ensures
        json_view(*final(value)) == (JsonView::Object {
            members: json_view(*old(value))->members.insert(key@, json_view(member)),
        }),
{
    value[key] = member;
}

/// Puts a text under a key of an object.
pub(crate) fn put_text(value: &mut serde_json::Value, key: &str, text: &str)
    requires
        is_object(*old(value)),
    ensures
        json_view(*final(value)) == (JsonView::Object {
            members: json_view(*old(value))->members.insert(key@, text_view(text@)),
        }),
{
    put_member(value, key, text_value(text));
}

/// Puts texts under a key of an object.
pub(crate) fn put_texts(value: &mut serde_json::Value, key: &str, texts: &Vec<String>)
    requires
        is_object(*old(value)),
    ensures
        json_view(*final(value)) == (JsonView::Object {
            members: json_view(*old(value))->members.insert(key@, texts_view(views(texts@))),
        }),
{
    let mut items: Vec<serde_json::Value> = Vec::new();
    for i in 0..texts.len()
        invariant
            items@.len() == i,
            forall|k: int| 0 <= k < i ==> json_view(#[trigger] items@[k]) == text_view(texts@[k]@),
    {
        items.push(text_value(texts[i].as_str()));
    }
    assert(json_views(items@) =~= Seq::new(
        views(texts@).len(),
        |i: int| text_view(views(texts@)[i]),
    ));
    put_member(value, key, list_value(items));
}

/// The bytes that `serde_json::to_vec` writes for a value.
pub uninterp spec fn compact_bytes(value: serde_json::Value) -> Seq<u8>;

/// The bytes that `serde_json::to_vec_pretty` writes for a value.
pub uninterp spec fn pretty_bytes(value: serde_json::Value) -> Seq<u8>;

/// The JSON value that a text is, where it is one.
pub uninterp spec fn json_of(text: Seq<char>) -> Option<serde_json::Value>;

/// `serde_json::from_str` into a `Value`: the value that a text is, where it is one.
#[verifier::external_body]
pub(crate) fn read_json(text: &str) -> (r: Option<serde_json::Value>)
    ensures
        r == json_of(text@),
{
    serde_json::from_str(text).ok()
}

/// The JSON value that bytes are, where they are one.
pub uninterp spec fn json_of_bytes(bytes: Seq<u8>) -> Option<serde_json::Value>;

/// `serde_json::from_slice` into a `Value`: the value that bytes are, where they are one. Reading
/// what `to_vec_pretty` wrote, with a line feed behind it, gives a value that holds the same as the
/// one that was written. That is said of values without a fraction, because reading one may miss
/// its last digit, and of values that stay below the nesting that reading accepts.
#[verifier::external_body]
pub(crate) fn read_json_bytes(bytes: &Vec<u8>) -> (r: Option<serde_json::Value>)
    ensures
        r == json_of_bytes(bytes@),
        forall|value: serde_json::Value|
            plain(value) && bytes@ == #[trigger] pretty_bytes(value).push(10u8) ==> r is Some
                && json_view(r->0) == json_view(value),
{
    serde_json::from_slice(bytes).ok()
}

/// Whether two JSON values are equal.
pub uninterp spec fn json_equal(a: serde_json::Value, b: serde_json::Value) -> bool;

/// The `==` of `serde_json::Value`: whether two values are equal. Equal values hold the same, and
/// values that hold the same and no fraction are equal.
#[verifier::external_body]
pub(crate) fn equal_json(a: &serde_json::Value, b: &serde_json::Value) -> (r: bool)
    ensures
        r == json_equal(*a, *b),
        r ==> json_view(*a) == json_view(*b),
        plain(*a) && json_view(*a) == json_view(*b) ==> r,
{
    a == b
}

/// `serde_json::Value::is_object`: whether a value is an object.
#[verifier::external_body]
pub(crate) fn holds_object(value: &serde_json::Value) -> (r: bool)
    ensures
        r == is_object(*value),
{
    value.is_object()
}

/// `serde_json::Value::get` with `Value::as_str`: the string under a key of an object. A value
/// that is no object has none.
#[verifier::external_body]
pub(crate) fn get_string<'a>(value: &'a serde_json::Value, key: &str) -> (r: Option<&'a str>)
    ensures
        match r {
            Some(text) => is_object(*value) && string_members(*value).dom().contains(key@)
                && string_members(*value)[key@] == text@,
            None => !is_object(*value) || !string_members(*value).dom().contains(key@),
        },
{
    value.get(key).and_then(serde_json::Value::as_str)
}

/// `serde_json::Value::as_str`: the text of a value that is a string.
#[verifier::external_body]
pub(crate) fn as_text(value: &serde_json::Value) -> (r: Option<&str>)
    ensures
        match r {
            Some(text) => json_view(*value) == text_view(text@),
            None => !(json_view(*value) is Text),
        },
{
    value.as_str()
}

/// `Clone` for `serde_json::Value`: the same value once more.
#[verifier::external_body]
pub(crate) fn copy_value(value: &serde_json::Value) -> (r: serde_json::Value)
    ensures
        r == *value,
{
    value.clone()
}

/// `serde_json::to_vec`: the bytes of a value without white space between its parts. Writing a
/// value into memory does not fail.
#[verifier::external_body]
pub(crate) fn write_compact(value: &serde_json::Value) -> (r: Vec<u8>)
    ensures
        r@ == compact_bytes(*value),
{
    serde_json::to_vec(value).unwrap()
}

/// `serde_json::to_vec_pretty`: the bytes of a value, indented. Writing a value into memory does
/// not fail.
#[verifier::external_body]
pub(crate) fn write_pretty(value: &serde_json::Value) -> (r: Vec<u8>)
    ensures
        r@ == pretty_bytes(*value),
{
    serde_json::to_vec_pretty(value).unwrap()
}

} // verus!
