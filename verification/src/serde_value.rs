//! `Json` to and from `serde_json::Value`, and its text as `serde_json`
//! writes it.

use vstd::prelude::*;

use crate::json::{copy_number, entries_view, items_view, lemma_views, well_formed, Json, JsonView};

verus! {

/// `serde_json::Value`: JSON data as `serde_json` holds it. The crate is built
/// with its feature `preserve_order`, so an object keeps its entries in the
/// order in which they were put in.
#[verifier::external_type_specification]
#[verifier::external_body]
pub struct ExValue(serde_json::Value);

/// The data that a `serde_json::Value` holds: its variant and what is in it,
/// the entries of an object in the order in which the map lists them.
pub uninterp spec fn value_content(value: serde_json::Value) -> JsonView;

/// The text that `serde_json::to_string` writes for a value with this content.
pub uninterp spec fn compact_json_text(content: JsonView) -> Seq<char>;

/// The text that `serde_json::to_string_pretty` writes for a value with this
/// content.
pub uninterp spec fn pretty_json_text(content: JsonView) -> Seq<char>;

/// The outermost level of a `serde_json::Value`.
pub enum ValueNode {
    Null,
    Bool(bool),
    Number(serde_json::Number),
    Text(String),
    Array(Vec<serde_json::Value>),
    Object(Vec<(String, serde_json::Value)>),
}

/// The contents of a list of values.
pub open spec fn value_contents(values: Seq<serde_json::Value>) -> Seq<JsonView> {
    Seq::new(values.len(), |i: int| value_content(values[i]))
}

/// The contents of a list of entries.
pub open spec fn entry_contents(entries: Seq<(String, serde_json::Value)>) -> Seq<
    (Seq<char>, JsonView),
> {
    Seq::new(entries.len(), |i: int| (entries[i].0@, value_content(entries[i].1)))
}

/// The data of a value whose outermost level this is.
pub open spec fn node_content(node: ValueNode) -> JsonView {
    match node {
        ValueNode::Null => JsonView::Null,
        ValueNode::Bool(b) => JsonView::Bool(b),
        ValueNode::Number(number) => JsonView::Number(number),
        ValueNode::Text(text) => JsonView::Text(text@),
        ValueNode::Array(values) => JsonView::Array(value_contents(values@)),
        ValueNode::Object(entries) => JsonView::Object(entry_contents(entries@)),
    }
}

/// Takes a `serde_json::Value` apart: its variant, with the fields moved out
/// and the map (`serde_json::Map::into_iter`) listed entry by entry. What is
/// claimed: nothing is lost or changed, and no map holds a key twice.
#[verifier::external_body]
fn take_apart(value: serde_json::Value) -> (node: ValueNode)
    ensures
        node_content(node) == value_content(value),
        well_formed(node_content(node)),
{
    match value {
        serde_json::Value::Null => ValueNode::Null,
        serde_json::Value::Bool(b) => ValueNode::Bool(b),
        serde_json::Value::Number(number) => ValueNode::Number(number),
        serde_json::Value::String(text) => ValueNode::Text(text),
        serde_json::Value::Array(values) => ValueNode::Array(values),
        serde_json::Value::Object(map) => ValueNode::Object(map.into_iter().collect()),
    }
}

/// Makes a `serde_json::Value` of its outermost level: the variant with the
/// fields moved in, the map made by `serde_json::Map::from_iter`. What is
/// claimed: the value holds just that, provided that no key comes twice.
#[verifier::external_body]
fn put_together(node: ValueNode) -> (value: serde_json::Value)
    requires
        well_formed(node_content(node)),
    ensures
        value_content(value) == node_content(node),
{
    match node {
        ValueNode::Null => serde_json::Value::Null,
        ValueNode::Bool(b) => serde_json::Value::Bool(b),
        ValueNode::Number(number) => serde_json::Value::Number(number),
        ValueNode::Text(text) => serde_json::Value::String(text),
        ValueNode::Array(values) => serde_json::Value::Array(values),
        ValueNode::Object(entries) => serde_json::Value::Object(entries.into_iter().collect()),
    }
}

/// `serde_json::to_string` on a `serde_json::Value`. What is claimed: it does
/// not fail, since a `Value` has only string keys and finite numbers and the
/// text goes to memory; the text is a function of what the value holds; and
/// two values with the same text hold the same, since JSON text is read in one
/// way only and no two numbers are written alike.
#[verifier::external_body]
fn compact_text_of(value: &serde_json::Value) -> (text: Option<String>)
    ensures
        text is Some,
        text.unwrap()@ == compact_json_text(value_content(*value)),
        forall|other: JsonView|
            well_formed(other) && #[trigger] compact_json_text(other) == text.unwrap()@ ==> other
                == value_content(*value),
{
    serde_json::to_string(value).ok()
}

/// `serde_json::to_string_pretty` on a `serde_json::Value`. What is claimed is
/// what is claimed of `serde_json::to_string`: it does not fail, the text is a
/// function of what the value holds, and two values with the same text hold the
/// same.
#[verifier::external_body]
fn pretty_text_of(value: &serde_json::Value) -> (text: Option<String>)
    ensures
        text is Some,
        text.unwrap()@ == pretty_json_text(value_content(*value)),
        forall|other: JsonView|
            well_formed(other) && #[trigger] pretty_json_text(other) == text.unwrap()@ ==> other
                == value_content(*value),
{
    serde_json::to_string_pretty(value).ok()
}

/// `serde_json::Number::from(u32)`: the number with this value.
pub uninterp spec fn json_number(value: u32) -> serde_json::Number;

/// `serde_json::Number::from` for a `u32`. What is claimed: the result is a
/// function of the argument, and different for different arguments.
#[verifier::external_body]
pub(crate) fn number_from(value: u32) -> (number: serde_json::Number)
    ensures
        number == json_number(value),
        forall|other: u32| #[trigger] json_number(other) == number ==> other == value,
{
    serde_json::Number::from(value)
}

/// The `serde_json::Value` that holds this data.
pub fn to_value(json: &Json) -> (value: serde_json::Value)
    requires
        well_formed(json@),
    ensures
        value_content(value) == json@,
    decreases json,
{
    proof {
        lemma_views(*json);
    }
    match json {
        Json::Null => put_together(ValueNode::Null),
        Json::Bool(b) => put_together(ValueNode::Bool(*b)),
        Json::Number(number) => put_together(ValueNode::Number(copy_number(number))),
        Json::Text(text) => put_together(ValueNode::Text(text.clone())),
        Json::Array(items) => {
            let mut values: Vec<serde_json::Value> = Vec::new();
            let mut i: usize = 0;
            while i < items.len()
                invariant
                    json is Array,
                    *items == json->Array_0,
                    well_formed(json@),
                    json@ == JsonView::Array(items_view(items@)),
                    i <= items@.len(),
                    values@.len() == i,
                    forall|j: int| 0 <= j < i ==> value_content(#[trigger] values@[j]) == items@[j]@,
                decreases items@.len() - i,
            {
                assert(json@->Array_0[i as int] == items@[i as int]@);
                values.push(to_value(&items[i]));
                i = i + 1;
            }
            assert(value_contents(values@) =~= items_view(items@));
            put_together(ValueNode::Array(values))
        },
        Json::Object(entries) => {
            let mut values: Vec<(String, serde_json::Value)> = Vec::new();
            let mut i: usize = 0;
            while i < entries.len()
                invariant
                    json is Object,
                    *entries == json->Object_0,
                    well_formed(json@),
                    json@ == JsonView::Object(entries_view(entries@)),
                    i <= entries@.len(),
                    values@.len() == i,
                    forall|j: int|
                        0 <= j < i ==> (#[trigger] values@[j]).0@ == entries@[j].0@
                            && value_content(values@[j].1) == entries@[j].1@,
                decreases entries@.len() - i,
            {
                assert(json@->Object_0[i as int].1 == entries@[i as int].1@);
                values.push((entries[i].0.clone(), to_value(&entries[i].1)));
                i = i + 1;
            }
            assert(entry_contents(values@) =~= entries_view(entries@));
            put_together(ValueNode::Object(values))
        },
    }
}

/// The data that a `serde_json::Value` holds.
pub fn from_value(value: serde_json::Value) -> (json: Json)
    ensures
        json@ == value_content(value),
        well_formed(json@),
    decreases value_content(value),
{
    let ghost content = value_content(value);
    match take_apart(value) {
        ValueNode::Null => Json::Null,
        ValueNode::Bool(b) => Json::Bool(b),
        ValueNode::Number(number) => Json::Number(number),
        ValueNode::Text(text) => Json::Text(text),
        ValueNode::Array(values) => {
            let ghost all = values@;
            let mut items: Vec<Json> = Vec::new();
            for first in rest: values
                invariant
                    content == value_content(value),
                    content == JsonView::Array(value_contents(all)),
                    rest.seq() == all,
                    items@.len() == rest.index(),
                    forall|j: int|
                        0 <= j < items@.len() ==> (#[trigger] items@[j])@ == value_content(all[j]),
            {
                assert(content->Array_0[items@.len() as int] == value_content(first));
                items.push(from_value(first));
            }
            assert(items_view(items@) =~= value_contents(all));
            let json: Json = Json::Array(items);
            proof {
                lemma_views(json);
            }
            json
        },
        ValueNode::Object(values) => {
            let ghost all = values@;
            let mut entries: Vec<(String, Json)> = Vec::new();
            for (key, first) in rest: values
                invariant
                    content == value_content(value),
                    content == JsonView::Object(entry_contents(all)),
                    rest.seq() == all,
                    entries@.len() == rest.index(),
                    forall|j: int|
                        0 <= j < entries@.len() ==> (#[trigger] entries@[j]).0@ == all[j].0@
                            && entries@[j].1@ == value_content(all[j].1),
            {
                assert(content->Object_0[entries@.len() as int].1 == value_content(first));
                entries.push((key, from_value(first)));
            }
            assert(entries_view(entries@) =~= entry_contents(all));
            let json: Json = Json::Object(entries);
            proof {
                lemma_views(json);
            }
            json
        },
    }
}

/// The text of a value without white space.
pub fn to_compact_text(json: &Json) -> (text: String)
    requires
        well_formed(json@),
    ensures
        text@ == compact_json_text(json@),
        forall|other: JsonView|
            well_formed(other) && #[trigger] compact_json_text(other) == text@ ==> other == json@,
{
    compact_text_of(&to_value(json)).unwrap()
}

/// The text of a value over several lines.
pub fn to_pretty_text(json: &Json) -> (text: String)
    requires
        well_formed(json@),
    ensures
        text@ == pretty_json_text(json@),
        forall|other: JsonView|
            well_formed(other) && #[trigger] pretty_json_text(other) == text@ ==> other == json@,
{
    pretty_text_of(&to_value(json)).unwrap()
}

/// The outermost level of a value and what is below it make up its content.
pub proof fn law_node_shows_all(node: ValueNode)
    ensures
        match (node, node_content(node)) {
            (ValueNode::Null, JsonView::Null) => true,
            (ValueNode::Bool(b), JsonView::Bool(shown)) => shown == b,
            (ValueNode::Number(number), JsonView::Number(shown)) => shown == number,
            (ValueNode::Text(text), JsonView::Text(shown)) => shown == text@,
            (ValueNode::Array(values), JsonView::Array(shown)) => shown.len() == values@.len()
                && forall|i: int|
                0 <= i < shown.len() ==> #[trigger] shown[i] == value_content(values@[i]),
            (ValueNode::Object(entries), JsonView::Object(shown)) => shown.len() == entries@.len()
                && forall|i: int|
                0 <= i < shown.len() ==> #[trigger] shown[i] == (
                    entries@[i].0@,
                    value_content(entries@[i].1),
                ),
            _ => false,
        },
{
}

} // verus!
