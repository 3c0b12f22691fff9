//! What holds of the resolver and the walker for every schema.

use vstd::prelude::*;
use crate::schema::annotation::AnnotationView;
use crate::schema::parser::{recorded, walked, walked_composition};
use crate::schema::refs::{reference_target, resolved};
use crate::schema::value::{has_member, member, member_index, SchemaModel};

verus! {

/// An object that holds nothing but one member has no member of another
/// name.
pub proof fn lemma_single_member(members: Seq<(Seq<char>, SchemaModel)>, key: Seq<char>)
    requires
        members.len() == 1,
    ensures
        has_member(members, key) == (members[0].0 == key),
        has_member(members, key) ==> member(members, key) == members[0].1,
{
    if members[0].0 != key {
        assert(member_index(members.drop_first(), key) == 0);
    }
}

/// A reference that is not resolved stays in the tree word for word: the
/// object keeps its `$ref` member, whether the reference leaves the
/// document or points at nothing in it.
pub proof fn lemma_unresolved_reference_stays(
    members: Seq<(Seq<char>, SchemaModel)>,
    root: SchemaModel,
)
    requires
        has_member(members, "$ref"@),
        member(members, "$ref"@) is String,
        reference_target(members, root) is None,
    ensures
        resolved(SchemaModel::Object(members), root) is Object,
        has_member(resolved(SchemaModel::Object(members), root)->Object_0, "$ref"@),
        member(resolved(SchemaModel::Object(members), root)->Object_0, "$ref"@) == member(
            members,
            "$ref"@,
        ),
{
    let out = resolved(SchemaModel::Object(members), root)->Object_0;
    crate::schema::value::lemma_member_index(members, "$ref"@);
    let k = member_index(members, "$ref"@);
    assert(out.len() == members.len());
    assert forall|i: int| 0 <= i < k implies (#[trigger] out[i]).0 != "$ref"@ by {
        assert(out[i].0 == members[i].0);
    }
    assert(out[k].0 == members[k].0);
    crate::schema::value::lemma_member_index_is(out, "$ref"@, k);
    assert(out[k].1 == resolved(members[k].1, root));
}

/// An object that is nothing but an unresolved reference comes out of the
/// resolver as it went in, and the walker finds nothing to record in it.
pub proof fn lemma_unresolved_reference_is_silent(
    reference: Seq<char>,
    root: SchemaModel,
    path: Seq<Seq<char>>,
    table: Map<Seq<char>, AnnotationView>,
)
    requires
        reference_target(seq![("$ref"@, SchemaModel::String(reference))], root) is None,
    ensures
        ({
            let node = SchemaModel::Object(seq![("$ref"@, SchemaModel::String(reference))]);
            &&& resolved(node, root) == node
            &&& walked(resolved(node, root), path, table) == table
        }),
{
    let members = seq![("$ref"@, SchemaModel::String(reference))];
    let node = SchemaModel::Object(members);
    assert(resolved(SchemaModel::String(reference), root) == SchemaModel::String(reference));
    assert(resolved(node, root)->Object_0[0] == members[0]);
    assert(resolved(node, root)->Object_0 =~= members);
    reveal_strlit("$ref");
    reveal_strlit("title");
    reveal_strlit("description");
    reveal_strlit("default");
    reveal_strlit("properties");
    reveal_strlit("items");
    reveal_strlit("additionalProperties");
    reveal_strlit("oneOf");
    reveal_strlit("allOf");
    reveal_strlit("anyOf");
    lemma_single_member(members, "title"@);
    lemma_single_member(members, "description"@);
    lemma_single_member(members, "default"@);
    lemma_single_member(members, "properties"@);
    lemma_single_member(members, "items"@);
    lemma_single_member(members, "additionalProperties"@);
    lemma_single_member(members, "oneOf"@);
    lemma_single_member(members, "allOf"@);
    lemma_single_member(members, "anyOf"@);
    assert("$ref"@.len() == 4);
    assert(recorded(members, path, table) == table);
    assert(walked_composition(members, "oneOf"@, path, table) == table);
    assert(walked_composition(members, "allOf"@, path, table) == table);
    assert(walked_composition(members, "anyOf"@, path, table) == table);
}

/// A reference that does not start with `#` is never resolved.
pub proof fn lemma_external_reference_has_no_target(
    members: Seq<(Seq<char>, SchemaModel)>,
    root: SchemaModel,
)
    requires
        has_member(members, "$ref"@),
        member(members, "$ref"@) matches SchemaModel::String(pointer) && (pointer.len() == 0
            || pointer[0] != '#'),
    ensures
        reference_target(members, root) is None,
{
}

} // verus!
