//! The schema walker: from a resolved schema to the table of annotations.

use vstd::prelude::*;
use vstd::string::*;
use crate::schema::annotation::{option_view, Annotation, AnnotationMap, AnnotationView};
use crate::schema::json::schema_model;
use crate::schema::refs::{resolve_refs, resolved_schema};
use crate::schema::value::{
    has_member, lemma_array_view, lemma_member_index, lemma_object_view, member, member_index,
    SchemaModel, SchemaValue,
};
use crate::text::{dotted, join_strings, joined, views};

verus! {

/// The default values of an array, each rendered.
pub open spec fn rendered_items(items: Seq<SchemaModel>, n: nat) -> Seq<Seq<char>>
    decreases items, n,
{
    if n == 0 || n > items.len() {
        Seq::empty()
    } else {
        proof {
            vstd::seq::axiom_seq_index_decreases(items, n - 1);
        }
        rendered_items(items, (n - 1) as nat).push(rendered_default(items[n - 1]))
    }
}

/// The members of an object, each rendered as `key: value`.
pub open spec fn rendered_members(members: Seq<(Seq<char>, SchemaModel)>, n: nat) -> Seq<
    Seq<char>,
>
    decreases members, n,
{
    if n == 0 || n > members.len() {
        Seq::empty()
    } else {
        proof {
            vstd::seq::axiom_seq_index_decreases(members, n - 1);
        }
        rendered_members(members, (n - 1) as nat).push(
            members[n - 1].0 + seq![':', ' '] + rendered_default(members[n - 1].1),
        )
    }
}

/// A default value as it is shown in a comment: `null`, `true` or `false`,
/// the text of a number, a string in double quotes, the items of an array
/// in square brackets, the members of an object in braces.
pub open spec fn rendered_default(value: SchemaModel) -> Seq<char>
    decreases value, 0nat,
{
    match value {
        SchemaModel::Null => "null"@,
        SchemaModel::Bool(b) => if b {
            "true"@
        } else {
            "false"@
        },
        SchemaModel::Number(text) => text,
        SchemaModel::String(text) => seq!['"'] + text + seq!['"'],
        SchemaModel::Array(items) => seq!['['] + joined(
            rendered_items(items, items.len()),
            seq![',', ' '],
        ) + seq![']'],
        SchemaModel::Object(members) => seq!['{'] + joined(
            rendered_members(members, members.len()),
            seq![',', ' '],
        ) + seq!['}'],
    }
}

/// The text of the member `key`, where it is a string.
pub open spec fn text_member(members: Seq<(Seq<char>, SchemaModel)>, key: Seq<char>) -> Option<
    Seq<char>,
> {
    if has_member(members, key) && member(members, key) is String {
        Some(member(members, key)->String_0)
    } else {
        None
    }
}

/// The record that a schema node with these members makes at `path`.
pub open spec fn node_annotation(
    members: Seq<(Seq<char>, SchemaModel)>,
    path: Seq<Seq<char>>,
) -> AnnotationView {
    AnnotationView {
        path: dotted(path),
        title: text_member(members, "title"@),
        description: text_member(members, "description"@),
        default: if has_member(members, "default"@) {
            Some(rendered_default(member(members, "default"@)))
        } else {
            None
        },
    }
}

/// The table once the node's own record is stored, if the node has any
/// documentation.
pub open spec fn recorded(
    members: Seq<(Seq<char>, SchemaModel)>,
    path: Seq<Seq<char>>,
    table: Map<Seq<char>, AnnotationView>,
) -> Map<Seq<char>, AnnotationView> {
    let a = node_annotation(members, path);
    if a.is_empty() {
        table
    } else {
        table.insert(a.path, a)
    }
}

/// The table after the first `n` of the named child schemas were walked,
/// each at `path` extended by its name.
pub open spec fn walked_properties(
    properties: Seq<(Seq<char>, SchemaModel)>,
    n: nat,
    path: Seq<Seq<char>>,
    table: Map<Seq<char>, AnnotationView>,
) -> Map<Seq<char>, AnnotationView>
    decreases properties, n,
{
    if n == 0 || n > properties.len() {
        table
    } else {
        proof {
            vstd::seq::axiom_seq_index_decreases(properties, n - 1);
        }
        walked(
            properties[n - 1].1,
            path.push(properties[n - 1].0),
            walked_properties(properties, (n - 1) as nat, path, table),
        )
    }
}

/// The table after the first `n` of the schemas were walked, each at `path`.
pub open spec fn walked_each(
    schemas: Seq<SchemaModel>,
    n: nat,
    path: Seq<Seq<char>>,
    table: Map<Seq<char>, AnnotationView>,
) -> Map<Seq<char>, AnnotationView>
    decreases schemas, n,
{
    if n == 0 || n > schemas.len() {
        table
    } else {
        proof {
            vstd::seq::axiom_seq_index_decreases(schemas, n - 1);
        }
        walked(schemas[n - 1], path, walked_each(schemas, (n - 1) as nat, path, table))
    }
}

/// The table after the members of the array under `keyword` were walked at
/// `path`; the table itself where there is no such array.
pub open spec fn walked_composition(
    members: Seq<(Seq<char>, SchemaModel)>,
    keyword: Seq<char>,
    path: Seq<Seq<char>>,
    table: Map<Seq<char>, AnnotationView>,
) -> Map<Seq<char>, AnnotationView>
    decreases members, 0nat,
{
    if has_member(members, keyword) && member(members, keyword) is Array {
        proof {
            lemma_member_index(members, keyword);
            vstd::seq::axiom_seq_index_decreases(members, member_index(members, keyword));
        }
        let schemas = member(members, keyword)->Array_0;
        walked_each(schemas, schemas.len(), path, table)
    } else {
        table
    }
}

/// The table after the schema `value` was walked at `path`. An object
/// stores its own record, then its `properties` are walked under their
/// names, then `items`, an `additionalProperties` that is an object, and
/// the members of `oneOf`, `allOf` and `anyOf` at `path` itself. Anything
/// but an object leaves the table as it is.
pub open spec fn walked(
    value: SchemaModel,
    path: Seq<Seq<char>>,
    table: Map<Seq<char>, AnnotationView>,
) -> Map<Seq<char>, AnnotationView>
    decreases value, 0nat,
{
    match value {
        SchemaModel::Object(members) => {
            let own = recorded(members, path, table);
            let properties = if has_member(members, "properties"@) && member(
                members,
                "properties"@,
            ) is Object {
                proof {
                    lemma_member_index(members, "properties"@);
                    vstd::seq::axiom_seq_index_decreases(
                        members,
                        member_index(members, "properties"@),
                    );
                }
                let named = member(members, "properties"@)->Object_0;
                walked_properties(named, named.len(), path, own)
            } else {
                own
            };
            let items = if has_member(members, "items"@) {
                proof {
                    lemma_member_index(members, "items"@);
                    vstd::seq::axiom_seq_index_decreases(members, member_index(members, "items"@));
                }
                walked(member(members, "items"@), path, properties)
            } else {
                properties
            };
            let additional = if has_member(members, "additionalProperties"@) && member(
                members,
                "additionalProperties"@,
            ) is Object {
                proof {
                    lemma_member_index(members, "additionalProperties"@);
                    vstd::seq::axiom_seq_index_decreases(
                        members,
                        member_index(members, "additionalProperties"@),
                    );
                }
                walked(member(members, "additionalProperties"@), path, items)
            } else {
                items
            };
            let one_of = walked_composition(members, "oneOf"@, path, additional);
            let all_of = walked_composition(members, "allOf"@, path, one_of);
            walked_composition(members, "anyOf"@, path, all_of)
        },
        _ => table,
    }
}

/// The table of annotations of a schema: its resolved form walked from the
/// empty path.
pub open spec fn annotations_of(schema: SchemaModel) -> Map<Seq<char>, AnnotationView> {
    walked(resolved_schema(schema), Seq::empty(), Map::empty())
}


/// Renders a default value for display in a comment.
pub fn format_default_value(value: &SchemaValue) -> (text: String)
    ensures
        text@ == rendered_default(value@),
    decreases value,
{
    match value {
        SchemaValue::Null => "null".to_owned(),
        SchemaValue::Bool(b) => if *b {
            "true".to_owned()
        } else {
            "false".to_owned()
        },
        SchemaValue::Number(n) => n.clone(),
        SchemaValue::String(s) => {
            let mut text = String::new();
            proof {
                reveal_strlit("\"");
            }
            text.append("\"");
            text.append(s.as_str());
            text.append("\"");
            assert(text@ =~= seq!['"'] + s@ + seq!['"']);
            text
        },
        SchemaValue::Array(items) => {
            proof {
                lemma_array_view(*value);
            }
            let ghost models = value@->Array_0;
            let mut parts: Vec<String> = Vec::new();
            let mut i: usize = 0;
            assert(views(parts@) =~= rendered_items(models, 0));
            while i < items.len()
                invariant
                    i <= items.len(),
                    *value == SchemaValue::Array(*items),
                    value@ == SchemaModel::Array(models),
                    models.len() == items.len(),
                    forall|j: int| 0 <= j < items.len() ==> (#[trigger] items[j])@ == models[j],
                    views(parts@) == rendered_items(models, i as nat),
                decreases items.len() - i,
            {
                proof {
                    vstd::std_specs::vec::axiom_vec_index_decreases(*items, i as int);
                    assert(decreases_to!(*value => value->Array_0));
                }
                let ghost before = views(parts@);
                let part = format_default_value(&items[i]);
                parts.push(part);
                assert(views(parts@) =~= before.push(part@));
                i += 1;
            }
            let inner = join_strings(&parts, ", ");
            let mut text = String::new();
            proof {
                reveal_strlit("[");
                reveal_strlit("]");
                reveal_strlit(", ");
                assert(", "@ =~= seq![',', ' ']);
            }
            text.append("[");
            text.append(inner.as_str());
            text.append("]");
            assert(text@ =~= seq!['['] + inner@ + seq![']']);
            text
        },
        SchemaValue::Object(members) => {
            proof {
                lemma_object_view(*value);
            }
            let ghost models = value@->Object_0;
            let mut parts: Vec<String> = Vec::new();
            let mut i: usize = 0;
            assert(views(parts@) =~= rendered_members(models, 0));
            proof {
                reveal_strlit(": ");
            }
            while i < members.len()
                invariant
                    i <= members.len(),
                    *value == SchemaValue::Object(*members),
                    value@ == SchemaModel::Object(models),
                    models.len() == members.len(),
                    ": "@ == seq![':', ' '],
                    forall|j: int|
                        0 <= j < members.len() ==> (#[trigger] members[j]).0@ == models[j].0
                            && members[j].1@ == models[j].1,
                    views(parts@) == rendered_members(models, i as nat),
                decreases members.len() - i,
            {
                proof {
                    vstd::std_specs::vec::axiom_vec_index_decreases(*members, i as int);
                    assert(decreases_to!(*value => value->Object_0));
                }
                let ghost before = views(parts@);
                let rendered = format_default_value(&members[i].1);
                let mut part = members[i].0.clone();
                part.append(": ");
                part.append(rendered.as_str());
                assert(part@ =~= models[i as int].0 + seq![':', ' '] + rendered@);
                parts.push(part);
                assert(views(parts@) =~= before.push(part@));
                i += 1;
            }
            let inner = join_strings(&parts, ", ");
            let mut text = String::new();
            proof {
                reveal_strlit("{");
                reveal_strlit("}");
                reveal_strlit(", ");
                assert(", "@ =~= seq![',', ' ']);
            }
            text.append("{");
            text.append(inner.as_str());
            text.append("}");
            assert(text@ =~= seq!['{'] + inner@ + seq!['}']);
            text
        },
    }
}

/// The text of the member `key` of the object `value`, where it is a
/// string.
fn text_of_member(value: &SchemaValue, key: &str) -> (text: Option<String>)
    requires
        value@ is Object,
    ensures
        option_view(text) == text_member(value@->Object_0, key@),
{
    match value.get(key) {
        None => None,
        Some(v) => match v.as_str() {
            None => None,
            Some(s) => Some(s.to_owned()),
        },
    }
}

/// Walks the array of schemas that the object `value` holds under
/// `keyword`.
fn walk_composition(
    value: &SchemaValue,
    keyword: &str,
    current_path: &mut Vec<String>,
    annotations: &mut AnnotationMap,
)
    requires
        value@ is Object,
    ensures
        views(final(current_path)@) == views(old(current_path)@),
        final(annotations)@ == walked_composition(
            value@->Object_0,
            keyword@,
            views(old(current_path)@),
            old(annotations)@,
        ),
    decreases value, 0nat,
{
    let ghost path = views(current_path@);
    let ghost table = annotations@;
    if let Some(SchemaValue::Array(schemas)) = value.get(keyword) {
        let ghost holder = SchemaValue::Array(*schemas);
        proof {
            lemma_array_view(holder);
            lemma_member_index(value@->Object_0, keyword@);
            lemma_object_view(*value);
            assert(decreases_to!(holder => holder->Array_0));
            assert forall|j: int| 0 <= j < schemas.len() implies decreases_to!(*value => #[trigger] schemas[j]) by {
                vstd::std_specs::vec::axiom_vec_index_decreases(*schemas, j);
            }
        }
        let ghost models = holder@->Array_0;
        let mut i: usize = 0;
        while i < schemas.len()
            invariant
                i <= schemas.len(),
                models.len() == schemas.len(),
                forall|j: int| 0 <= j < schemas.len() ==> (#[trigger] schemas[j])@ == models[j],
                forall|j: int|
                    0 <= j < schemas.len() ==> decreases_to!(*value => #[trigger] schemas[j]),
                views(current_path@) == path,
                annotations@ == walked_each(models, i as nat, path, table),
            decreases schemas.len() - i,
        {
            walk_schema(&schemas[i], current_path, annotations);
            i += 1;
        }
    }
}

/// Walks the schema `value` at the path `current_path` and stores what it
/// documents in `annotations`.
pub fn walk_schema(
    value: &SchemaValue,
    current_path: &mut Vec<String>,
    annotations: &mut AnnotationMap,
)
    ensures
        views(final(current_path)@) == views(old(current_path)@),
        final(annotations)@ == walked(value@, views(old(current_path)@), old(annotations)@),
    decreases value, 1nat,
{
    let ghost path = views(current_path@);
    let ghost table = annotations@;
    if !value.is_object() {
        return ;
    }
    let ghost members = value@->Object_0;

    let title = text_of_member(value, "title");
    let description = text_of_member(value, "description");
    let default = match value.get("default") {
        Some(v) => Some(format_default_value(v)),
        None => None,
    };
    if title.is_some() || description.is_some() || default.is_some() {
        let names = join_strings(current_path, ".");
        proof {
            reveal_strlit(".");
            assert("."@ =~= seq!['.']);
        }
        annotations.insert(Annotation { path: names, title, description, default });
    }
    assert(annotations@ == recorded(members, path, table));

    if let Some(SchemaValue::Object(properties)) = value.get("properties") {
        let ghost holder = SchemaValue::Object(*properties);
        proof {
            lemma_object_view(holder);
            assert(decreases_to!(holder => holder->Object_0));
            assert forall|j: int| 0 <= j < properties.len() implies decreases_to!(*value => (
            #[trigger] properties[j]).1) by {
                vstd::std_specs::vec::axiom_vec_index_decreases(*properties, j);
            }
        }
        let ghost named = holder@->Object_0;
        let ghost own = annotations@;
        let mut i: usize = 0;
        while i < properties.len()
            invariant
                i <= properties.len(),
                named.len() == properties.len(),
                forall|j: int|
                    0 <= j < properties.len() ==> (#[trigger] properties[j]).0@ == named[j].0
                        && properties[j].1@ == named[j].1,
                forall|j: int|
                    0 <= j < properties.len() ==> decreases_to!(*value => (
                    #[trigger] properties[j]).1),
                views(current_path@) == path,
                annotations@ == walked_properties(named, i as nat, path, own),
            decreases properties.len() - i,
        {
            current_path.push(properties[i].0.clone());
            assert(views(current_path@) =~= path.push(named[i as int].0));
            walk_schema(&properties[i].1, current_path, annotations);
            let ghost longer = current_path@;
            current_path.pop();
            assert(views(current_path@) =~= views(longer).drop_last());
            i += 1;
        }
    }
    if let Some(items) = value.get("items") {
        walk_schema(items, current_path, annotations);
    }
    if let Some(additional) = value.get("additionalProperties") {
        if additional.is_object() {
            walk_schema(additional, current_path, annotations);
        }
    }
    walk_composition(value, "oneOf", current_path, annotations);
    walk_composition(value, "allOf", current_path, annotations);
    walk_composition(value, "anyOf", current_path, annotations);
}

/// Extracts the annotations of a schema: its local references are
/// resolved, then every node that carries a title, a description or a
/// default value gives one record at its dotted path.
pub fn extract_annotations(schema: &schemars::Schema) -> (annotations: AnnotationMap)
    ensures
        annotations@ == annotations_of(schema_model(*schema)),
{
    let resolved = resolve_refs(schema);
    let mut annotations = AnnotationMap::new();
    let mut path: Vec<String> = Vec::new();
    assert(views(path@) =~= Seq::<Seq<char>>::empty());
    walk_schema(&resolved, &mut path, &mut annotations);
    annotations
}

} // verus!
