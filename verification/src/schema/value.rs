//! JSON values held as plain data.

use vstd::prelude::*;
use vstd::string::*;

verus! {

/// Mathematical value of a JSON tree.
pub enum SchemaModel {
    Null,
    Bool(bool),
    Number(Seq<char>),
    String(Seq<char>),
    Array(Seq<SchemaModel>),
    Object(Seq<(Seq<char>, SchemaModel)>),
}

/// A JSON tree. A number is held as its decimal text; an object holds its
/// members in their order.
#[derive(Debug, PartialEq, Eq)]
pub enum SchemaValue {
    Null,
    Bool(bool),
    Number(String),
    String(String),
    Array(Vec<SchemaValue>),
    Object(Vec<(String, SchemaValue)>),
}

/// The mathematical value of a JSON tree.
pub open spec fn model_of(value: SchemaValue) -> SchemaModel
    decreases value,
{
    match value {
        SchemaValue::Null => SchemaModel::Null,
        SchemaValue::Bool(b) => SchemaModel::Bool(b),
        SchemaValue::Number(n) => SchemaModel::Number(n@),
        SchemaValue::String(s) => SchemaModel::String(s@),
        SchemaValue::Array(items) => SchemaModel::Array(
            Seq::new(
                items.len() as nat,
                |i: int|
                    if 0 <= i < items.len() {
                        proof {
                            vstd::std_specs::vec::axiom_vec_index_decreases(items, i);
                        }
                        model_of(items[i])
                    } else {
                        SchemaModel::Null
                    },
            ),
        ),
        SchemaValue::Object(members) => SchemaModel::Object(
            Seq::new(
                members.len() as nat,
                |i: int|
                    if 0 <= i < members.len() {
                        proof {
                            vstd::std_specs::vec::axiom_vec_index_decreases(members, i);
                        }
                        (members[i].0@, model_of(members[i].1))
                    } else {
                        (Seq::empty(), SchemaModel::Null)
                    },
            ),
        ),
    }
}

impl View for SchemaValue {
    type V = SchemaModel;

    open spec fn view(&self) -> SchemaModel {
        model_of(*self)
    }
}

/// The views of the items of an array.
pub open spec fn items_view(items: Seq<SchemaValue>) -> Seq<SchemaModel> {
    Seq::new(items.len(), |i: int| items[i]@)
}

/// The views of the members of an object.
pub open spec fn members_view(members: Seq<(String, SchemaValue)>) -> Seq<(Seq<char>, SchemaModel)> {
    Seq::new(members.len(), |i: int| (members[i].0@, members[i].1@))
}

/// The view of an array is the array of the views of its items.
pub proof fn lemma_array_view(value: SchemaValue)
    requires
        value is Array,
    ensures
        value@ == SchemaModel::Array(items_view(value->Array_0@)),
{
    assert(value@->Array_0 =~= items_view(value->Array_0@));
}

/// The view of an object is the object of the views of its members.
pub proof fn lemma_object_view(value: SchemaValue)
    requires
        value is Object,
    ensures
        value@ == SchemaModel::Object(members_view(value->Object_0@)),
{
    let members = value->Object_0;
    let a = value@->Object_0;
    let b = members_view(members@);
    assert(a.len() == b.len());
    assert forall|i: int| 0 <= i < a.len() implies a[i] == b[i] by {
        assert(a[i].0 == members[i].0@);
        assert(a[i].1 == members[i].1@);
    }
    assert(a =~= b);
}

/// Position of the first member named `key`, or the number of members if
/// there is none.
pub open spec fn member_index(members: Seq<(Seq<char>, SchemaModel)>, key: Seq<char>) -> int
    decreases members.len(),
{
    if members.len() == 0 || members[0].0 == key {
        0
    } else {
        1 + member_index(members.drop_first(), key)
    }
}

/// Whether an object with these members has a member named `key`.
pub open spec fn has_member(members: Seq<(Seq<char>, SchemaModel)>, key: Seq<char>) -> bool {
    member_index(members, key) < members.len()
}

/// The value of the first member named `key`.
pub open spec fn member(members: Seq<(Seq<char>, SchemaModel)>, key: Seq<char>) -> SchemaModel {
    members[member_index(members, key)].1
}

/// The index of a member is within the object, no member before it has
/// the name, and where the object has such a member, it stands there.
pub proof fn lemma_member_index(members: Seq<(Seq<char>, SchemaModel)>, key: Seq<char>)
    ensures
        0 <= member_index(members, key) <= members.len(),
        forall|i: int| 0 <= i < member_index(members, key) ==> (#[trigger] members[i]).0 != key,
        has_member(members, key) ==> members[member_index(members, key)].0 == key,
    decreases members.len(),
{
    if !(members.len() == 0 || members[0].0 == key) {
        let rest = members.drop_first();
        lemma_member_index(rest, key);
        assert forall|i: int| 0 <= i < member_index(members, key) implies (
        #[trigger] members[i]).0 != key by {
            if i > 0 {
                assert(members[i] == rest[i - 1]);
            }
        }
    }
}

/// The first member with the name, after members of other names, is the
/// member of that name.
pub proof fn lemma_member_index_is(members: Seq<(Seq<char>, SchemaModel)>, key: Seq<char>, k: int)
    requires
        0 <= k <= members.len(),
        forall|i: int| 0 <= i < k ==> (#[trigger] members[i]).0 != key,
        k < members.len() ==> members[k].0 == key,
    ensures
        member_index(members, key) == k,
    decreases members.len(),
{
    if k > 0 {
        let rest = members.drop_first();
        assert(members[0].0 != key);
        assert forall|i: int| 0 <= i < k - 1 implies (#[trigger] rest[i]).0 != key by {
            assert(rest[i] == members[i + 1]);
        }
        if k - 1 < rest.len() {
            assert(rest[k - 1] == members[k]);
        }
        lemma_member_index_is(rest, key, k - 1);
    }
}

impl SchemaValue {
    /// The value of the first member named `key`, where this is an object
    /// that has one.
    pub fn get(&self, key: &str) -> (r: Option<&SchemaValue>)
        ensures
            match r {
                Some(v) => self@ matches SchemaModel::Object(members) && has_member(members, key@)
                    && v@ == member(members, key@) && decreases_to!(*self => *v),
                None => self@ matches SchemaModel::Object(members) ==> !has_member(members, key@),
            },
    {
        match self {
            SchemaValue::Object(members) => {
                let wanted = key.to_owned();
                let mut i: usize = 0;
                proof {
                    lemma_object_view(*self);
                }
                while i < members.len()
                    invariant
                        i <= members.len(),
                        wanted@ == key@,
                        *self == SchemaValue::Object(*members),
                        self@ == SchemaModel::Object(members_view(members@)),
                        forall|j: int| 0 <= j < i ==> (#[trigger] members[j]).0@ != key@,
                    decreases members.len() - i,
                {
                    if members[i].0 == wanted {
                        proof {
                            lemma_member_index_is(self@->Object_0, key@, i as int);
                            vstd::std_specs::vec::axiom_vec_index_decreases(*members, i as int);
                            assert(decreases_to!(*self => self->Object_0));
                        }
                        return Some(&members[i].1);
                    }
                    i += 1;
                }
                proof {
                    lemma_member_index_is(self@->Object_0, key@, members.len() as int);
                }
                None
            },
            _ => None,
        }
    }

    /// The text, where this is a string.
    pub fn as_str(&self) -> (r: Option<&str>)
        ensures
            match r {
                Some(s) => self@ == SchemaModel::String(s@),
                None => !(self@ is String),
            },
    {
        match self {
            SchemaValue::String(s) => Some(s.as_str()),
            _ => None,
        }
    }

    /// Whether this is an object.
    pub fn is_object(&self) -> (b: bool)
        ensures
            b == (self@ is Object),
    {
        match self {
            SchemaValue::Object(_) => true,
            _ => false,
        }
    }

    /// A deep copy.
    pub fn duplicate(&self) -> (copy: SchemaValue)
        ensures
            copy@ == self@,
        decreases self,
    {
        match self {
            SchemaValue::Null => SchemaValue::Null,
            SchemaValue::Bool(b) => SchemaValue::Bool(*b),
            SchemaValue::Number(n) => SchemaValue::Number(n.clone()),
            SchemaValue::String(s) => SchemaValue::String(s.clone()),
            SchemaValue::Array(items) => {
                let mut copies: Vec<SchemaValue> = Vec::new();
                let mut i: usize = 0;
                while i < items.len()
                    invariant
                        i <= items.len(),
                        *self == SchemaValue::Array(*items),
                        copies.len() == i,
                        forall|j: int| 0 <= j < i ==> (#[trigger] copies[j])@ == items[j]@,
                    decreases items.len() - i,
                {
                    proof {
                        vstd::std_specs::vec::axiom_vec_index_decreases(*items, i as int);
                        assert(decreases_to!(*self => self->Array_0));
                    }
                    copies.push(items[i].duplicate());
                    i += 1;
                }
                let copy = SchemaValue::Array(copies);
                proof {
                    lemma_array_view(copy);
                    lemma_array_view(*self);
                    assert(items_view(copies@) =~= items_view(items@));
                }
                copy
            },
            SchemaValue::Object(members) => {
                let mut copies: Vec<(String, SchemaValue)> = Vec::new();
                let mut i: usize = 0;
                while i < members.len()
                    invariant
                        i <= members.len(),
                        *self == SchemaValue::Object(*members),
                        copies.len() == i,
                        forall|j: int|
                            0 <= j < i ==> (#[trigger] copies[j]).0@ == members[j].0@
                                && copies[j].1@ == members[j].1@,
                    decreases members.len() - i,
                {
                    proof {
                        vstd::std_specs::vec::axiom_vec_index_decreases(*members, i as int);
                        assert(decreases_to!(*self => self->Object_0));
                    }
                    copies.push((members[i].0.clone(), members[i].1.duplicate()));
                    i += 1;
                }
                let copy = SchemaValue::Object(copies);
                proof {
                    lemma_object_view(copy);
                    lemma_object_view(*self);
                    assert(members_view(copies@) =~= members_view(members@));
                }
                copy
            },
        }
    }
}

} // verus!
