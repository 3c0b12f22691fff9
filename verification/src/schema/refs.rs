//! Resolution of local references in a schema.

use vstd::prelude::*;
use vstd::string::*;
use crate::schema::json::{lookup_pointer, pointer_target, schema_model, schema_tree};
use crate::schema::value::{
    has_member, items_view, lemma_array_view, lemma_object_view, member, members_view,
    SchemaModel, SchemaValue,
};
use crate::text::starts_with_char;

verus! {

/// What an object with these members refers to: the target of its `$ref`
/// in `root`, where `$ref` is a string that starts with `#` and points at
/// something.
pub open spec fn reference_target(
    members: Seq<(Seq<char>, SchemaModel)>,
    root: SchemaModel,
) -> Option<SchemaModel> {
    if has_member(members, "$ref"@) && member(members, "$ref"@) is String && {
        let pointer = member(members, "$ref"@)->String_0;
        pointer.len() > 0 && pointer[0] == '#'
    } {
        pointer_target(root, member(members, "$ref"@)->String_0)
    } else {
        None
    }
}

/// The tree with its local references resolved against `root`. An object
/// that refers to something in `root` becomes a copy of what it refers to,
/// which is not resolved again; an object with an external or a dangling
/// reference stays, and so does any other value, with its children
/// resolved.
pub open spec fn resolved(value: SchemaModel, root: SchemaModel) -> SchemaModel
    decreases value,
{
    match value {
        SchemaModel::Object(members) => match reference_target(members, root) {
            Some(target) => target,
            None => SchemaModel::Object(
                Seq::new(
                    members.len(),
                    |i: int|
                        if 0 <= i < members.len() {
                            proof {
                                vstd::seq::axiom_seq_index_decreases(members, i);
                            }
                            (members[i].0, resolved(members[i].1, root))
                        } else {
                            (Seq::empty(), SchemaModel::Null)
                        },
                ),
            ),
        },
        SchemaModel::Array(items) => SchemaModel::Array(
            Seq::new(
                items.len(),
                |i: int|
                    if 0 <= i < items.len() {
                        proof {
                            vstd::seq::axiom_seq_index_decreases(items, i);
                        }
                        resolved(items[i], root)
                    } else {
                        SchemaModel::Null
                    },
            ),
        ),
        _ => value,
    }
}

/// The resolved form of a whole schema. A schema is an object or a truth
/// value: where resolving the root gives anything else, the schema stays as
/// it was.
pub open spec fn resolved_schema(root: SchemaModel) -> SchemaModel {
    let tree = resolved(root, root);
    if tree is Object || tree is Bool {
        tree
    } else {
        root
    }
}

/// What the object `value` refers to in `root`, if it has a local
/// reference that points at something.
fn follow_reference(value: &SchemaValue, root: &schemars::Schema) -> (found: Option<SchemaValue>)
    requires
        value@ is Object,
    ensures
        match found {
            Some(tree) => reference_target(value@->Object_0, schema_model(*root)) == Some(tree@),
            None => reference_target(value@->Object_0, schema_model(*root)) is None,
        },
{
    match value.get("$ref") {
        None => None,
        Some(reference) => match reference.as_str() {
            None => None,
            Some(pointer) => {
                if starts_with_char(pointer, '#') {
                    lookup_pointer(root, pointer)
                } else {
                    None
                }
            },
        },
    }
}

/// Resolves the local references of `value` against `root`.
pub fn resolve_refs_value(value: &SchemaValue, root: &schemars::Schema) -> (tree: SchemaValue)
    ensures
        tree@ == resolved(value@, schema_model(*root)),
    decreases value,
{
    match value {
        SchemaValue::Object(members) => {
            proof {
                lemma_object_view(*value);
            }
            if let Some(target) = follow_reference(value, root) {
                return target;
            }
            let mut out: Vec<(String, SchemaValue)> = Vec::new();
            let mut i: usize = 0;
            while i < members.len()
                invariant
                    i <= members.len(),
                    *value == SchemaValue::Object(*members),
                    out.len() == i,
                    forall|j: int|
                        0 <= j < i ==> (#[trigger] out[j]).0@ == members[j].0@ && out[j].1@
                            == resolved(members[j].1@, schema_model(*root)),
                decreases members.len() - i,
            {
                proof {
                    vstd::std_specs::vec::axiom_vec_index_decreases(*members, i as int);
                    assert(decreases_to!(*value => value->Object_0));
                }
                out.push((members[i].0.clone(), resolve_refs_value(&members[i].1, root)));
                i += 1;
            }
            let tree = SchemaValue::Object(out);
            proof {
                lemma_object_view(tree);
                assert(members_view(out@) =~= resolved(
                    value@,
                    schema_model(*root),
                )->Object_0);
            }
            tree
        },
        SchemaValue::Array(items) => {
            proof {
                lemma_array_view(*value);
            }
            let mut out: Vec<SchemaValue> = Vec::new();
            let mut i: usize = 0;
            while i < items.len()
                invariant
                    i <= items.len(),
                    *value == SchemaValue::Array(*items),
                    out.len() == i,
                    forall|j: int|
                        0 <= j < i ==> (#[trigger] out[j])@ == resolved(
                            items[j]@,
                            schema_model(*root),
                        ),
                decreases items.len() - i,
            {
                proof {
                    vstd::std_specs::vec::axiom_vec_index_decreases(*items, i as int);
                    assert(decreases_to!(*value => value->Array_0));
                }
                out.push(resolve_refs_value(&items[i], root));
                i += 1;
            }
            let tree = SchemaValue::Array(out);
            proof {
                lemma_array_view(tree);
                assert(items_view(out@) =~= resolved(value@, schema_model(*root))->Array_0);
            }
            tree
        },
        _ => value.duplicate(),
    }
}

/// Resolves every local reference of `schema`: a reference that starts
/// with `#` and points at something in the schema is replaced by a copy of
/// what it points at. References to other documents and references that
/// point at nothing stay as they are.
pub fn resolve_refs(schema: &schemars::Schema) -> (tree: SchemaValue)
    ensures
        tree@ == resolved_schema(schema_model(*schema)),
{
    let root = schema_tree(schema);
    let tree = resolve_refs_value(&root, schema);
    match tree {
        SchemaValue::Object(_) => tree,
        SchemaValue::Bool(_) => tree,
        _ => root,
    }
}

} // verus!
