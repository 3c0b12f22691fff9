//! Schemas as the `schemars` and `serde_json` crates hold them, and their
//! conversion into plain JSON trees.

use vstd::prelude::*;
use vstd::string::*;
use crate::schema::value::{
    items_view, lemma_array_view, lemma_object_view, members_view, SchemaModel, SchemaValue,
};

verus! {

/// `serde_json::Value`, a JSON value; it is read through the functions below.
#[verifier::external_type_specification]
#[verifier::external_body]
pub struct ExJsonValue(serde_json::Value);

/// `schemars::Schema`, a schema: a JSON value that is an object or a truth
/// value.
#[verifier::external_type_specification]
#[verifier::external_body]
pub struct ExSchema(schemars::Schema);

/// The JSON tree that a `serde_json::Value` holds: a number as the text
/// that its `Display` writes, an object's members in the order in which the
/// object yields them.
pub uninterp spec fn value_model(value: serde_json::Value) -> SchemaModel;

/// The JSON tree that a schema holds.
pub uninterp spec fn schema_model(schema: schemars::Schema) -> SchemaModel;

/// What the JSON Pointer `pointer` finds in the schema `root`; a pointer
/// that starts with `#` is percent-decoded first.
pub uninterp spec fn pointer_target(root: SchemaModel, pointer: Seq<char>) -> Option<SchemaModel>;

/// `Schema::as_value`: the JSON value of the schema.
#[verifier::external_body]
fn schema_value(schema: &schemars::Schema) -> (value: &serde_json::Value)
    ensures
        value_model(*value) == schema_model(*schema),
{
    schema.as_value()
}

/// `Schema::pointer`: the value that a JSON Pointer finds in the schema.
#[verifier::external_body]
fn pointer_of<'a>(schema: &'a schemars::Schema, pointer: &str) -> (found: Option<
    &'a serde_json::Value,
>)
    ensures
        match found {
            Some(value) => pointer_target(schema_model(*schema), pointer@) == Some(
                value_model(*value),
            ),
            None => pointer_target(schema_model(*schema), pointer@) is None,
        },
{
    schema.pointer(pointer)
}

/// `Value::as_bool`: the truth value, where the value is one.
#[verifier::external_body]
fn bool_of(value: &serde_json::Value) -> (b: Option<bool>)
    ensures
        match b {
            Some(x) => value_model(*value) == SchemaModel::Bool(x),
            None => !(value_model(*value) is Bool),
        },
{
    value.as_bool()
}

/// `Value::as_number` and the number's `Display`: the decimal text, where
/// the value is a number.
#[verifier::external_body]
fn number_text_of(value: &serde_json::Value) -> (text: Option<String>)
    ensures
        match text {
            Some(t) => value_model(*value) == SchemaModel::Number(t@),
            None => !(value_model(*value) is Number),
        },
{
    value.as_number().map(|n| n.to_string())
}

/// `Value::as_str`: the text, where the value is a string.
#[verifier::external_body]
fn str_of(value: &serde_json::Value) -> (text: Option<&str>)
    ensures
        match text {
            Some(t) => value_model(*value) == SchemaModel::String(t@),
            None => !(value_model(*value) is String),
        },
{
    value.as_str()
}

/// `Value::as_array`: the items, where the value is an array.
#[verifier::external_body]
fn items_of(value: &serde_json::Value) -> (items: Option<Vec<&serde_json::Value>>)
    ensures
        match items {
            Some(list) => value_model(*value) is Array && value_model(*value)->Array_0.len()
                == list.len() && forall|i: int|
                0 <= i < list.len() ==> value_model(*#[trigger] list[i]) == value_model(
                    *value,
                )->Array_0[i],
            None => !(value_model(*value) is Array),
        },
{
    value.as_array().map(|list| list.iter().collect())
}

/// `Value::as_object`: the members in the object's order, where the value
/// is an object.
#[verifier::external_body]
fn members_of(value: &serde_json::Value) -> (members: Option<Vec<(&String, &serde_json::Value)>>)
    ensures
        match members {
            Some(list) => value_model(*value) is Object && value_model(*value)->Object_0.len()
                == list.len() && forall|i: int|
                0 <= i < list.len() ==> (#[trigger] list[i]).0@ == value_model(
                    *value,
                )->Object_0[i].0 && value_model(*list[i].1) == value_model(*value)->Object_0[i].1,
            None => !(value_model(*value) is Object),
        },
{
    value.as_object().map(|map| map.iter().collect())
}

/// The JSON tree of a `serde_json::Value`.
pub fn tree_of(value: &serde_json::Value) -> (tree: SchemaValue)
    ensures
        tree@ == value_model(*value),
    decreases value_model(*value),
{
    if let Some(b) = bool_of(value) {
        return SchemaValue::Bool(b);
    }
    if let Some(text) = number_text_of(value) {
        return SchemaValue::Number(text);
    }
    if let Some(text) = str_of(value) {
        return SchemaValue::String(text.to_owned());
    }
    if let Some(list) = items_of(value) {
        let ghost target = value_model(*value)->Array_0;
        let mut items: Vec<SchemaValue> = Vec::new();
        let mut i: usize = 0;
        while i < list.len()
            invariant
                i <= list.len(),
                items.len() == i,
                value_model(*value) == SchemaModel::Array(target),
                target.len() == list.len(),
                forall|j: int| 0 <= j < list.len() ==> value_model(*#[trigger] list[j]) == target[j],
                forall|j: int| 0 <= j < i ==> (#[trigger] items[j])@ == target[j],
            decreases list.len() - i,
        {
            proof {
                assert(decreases_to!(value_model(*value) => value_model(*value)->Array_0));
                vstd::seq::axiom_seq_index_decreases(target, i as int);
            }
            items.push(tree_of(list[i]));
            i += 1;
        }
        let tree = SchemaValue::Array(items);
        proof {
            lemma_array_view(tree);
            assert(items_view(items@) =~= target);
        }
        return tree;
    }
    if let Some(list) = members_of(value) {
        let ghost target = value_model(*value)->Object_0;
        let mut members: Vec<(String, SchemaValue)> = Vec::new();
        let mut i: usize = 0;
        while i < list.len()
            invariant
                i <= list.len(),
                members.len() == i,
                value_model(*value) == SchemaModel::Object(target),
                target.len() == list.len(),
                forall|j: int|
                    0 <= j < list.len() ==> (#[trigger] list[j]).0@ == target[j].0 && value_model(
                        *list[j].1,
                    ) == target[j].1,
                forall|j: int|
                    0 <= j < i ==> (#[trigger] members[j]).0@ == target[j].0 && members[j].1@
                        == target[j].1,
            decreases list.len() - i,
        {
            proof {
                assert(decreases_to!(value_model(*value) => value_model(*value)->Object_0));
                vstd::seq::axiom_seq_index_decreases(target, i as int);
                assert(decreases_to!(target[i as int] => target[i as int].1));
            }
            members.push((list[i].0.clone(), tree_of(list[i].1)));
            i += 1;
        }
        let tree = SchemaValue::Object(members);
        proof {
            lemma_object_view(tree);
            assert(members_view(members@) =~= target);
        }
        return tree;
    }
    SchemaValue::Null
}

/// The JSON tree of a schema.
pub fn schema_tree(schema: &schemars::Schema) -> (tree: SchemaValue)
    ensures
        tree@ == schema_model(*schema),
{
    tree_of(schema_value(schema))
}

/// What the JSON Pointer `pointer` finds in `schema`, as a tree of its own.
pub fn lookup_pointer(schema: &schemars::Schema, pointer: &str) -> (found: Option<SchemaValue>)
    ensures
        match found {
            Some(tree) => pointer_target(schema_model(*schema), pointer@) == Some(tree@),
            None => pointer_target(schema_model(*schema), pointer@) is None,
        },
{
    match pointer_of(schema, pointer) {
        Some(value) => Some(tree_of(value)),
        None => None,
    }
}

} // verus!
