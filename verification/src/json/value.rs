//! JSON values and their mathematical model.

use crate::text::slice_chars;
use vstd::prelude::*;

verus! {

/// A JSON value. A number keeps the text it was written with; the members of
/// an object keep their order, and a key may occur more than once.
#[derive(Debug, PartialEq, Eq)]
pub enum JsonValue {
    Null,
    Bool(bool),
    Number(Vec<char>),
    String(Vec<char>),
    Array(Vec<JsonValue>),
    Object(Vec<JsonMember>),
}

/// One `key: value` member of an object.
#[derive(Debug, PartialEq, Eq)]
pub struct JsonMember {
    pub key: Vec<char>,
    pub value: JsonValue,
}

/// The mathematical value that a `JsonValue` stands for.
#[verifier::ext_equal]
pub enum JsonModel {
    Null,
    Bool(bool),
    Number(Seq<char>),
    String(Seq<char>),
    Array(Seq<JsonModel>),
    Object(Seq<MemberModel>),
}

/// The mathematical value of one member of an object.
#[verifier::ext_equal]
pub struct MemberModel {
    pub key: Seq<char>,
    pub value: JsonModel,
}

impl View for JsonValue {
    type V = JsonModel;

    open spec fn view(&self) -> JsonModel
        decreases self,
    {
        match self {
            JsonValue::Null => JsonModel::Null,
            JsonValue::Bool(b) => JsonModel::Bool(*b),
            JsonValue::Number(t) => JsonModel::Number(t@),
            JsonValue::String(t) => JsonModel::String(t@),
            JsonValue::Array(items) => JsonModel::Array(
                Seq::new(
                    items@.len(),
                    |i: int|
                        if 0 <= i < items@.len() {
                            items@[i].view()
                        } else {
                            JsonModel::Null
                        },
                ),
            ),
            JsonValue::Object(members) => JsonModel::Object(
                Seq::new(
                    members@.len(),
                    |i: int|
                        if 0 <= i < members@.len() {
                            members@[i].view()
                        } else {
                            MemberModel { key: Seq::empty(), value: JsonModel::Null }
                        },
                ),
            ),
        }
    }
}

impl View for JsonMember {
    type V = MemberModel;

    open spec fn view(&self) -> MemberModel
        decreases self,
    {
        MemberModel { key: self.key@, value: self.value.view() }
    }
}

/// The models of a sequence of values.
pub open spec fn items_view(items: Seq<JsonValue>) -> Seq<JsonModel> {
    Seq::new(items.len(), |i: int| items[i]@)
}

/// The models of a sequence of object members.
pub open spec fn members_view(members: Seq<JsonMember>) -> Seq<MemberModel> {
    Seq::new(members.len(), |i: int| members[i]@)
}

/// The view of an array is the sequence of its items' views.
pub proof fn lemma_view_array(items: Vec<JsonValue>)
    ensures
        JsonValue::Array(items)@ == JsonModel::Array(items_view(items@)),
{
    assert(JsonValue::Array(items)@->Array_0 =~= items_view(items@));
}

/// The view of an object is the sequence of its members' views.
pub proof fn lemma_view_object(members: Vec<JsonMember>)
    ensures
        JsonValue::Object(members)@ == JsonModel::Object(members_view(members@)),
{
    assert(JsonValue::Object(members)@->Object_0 =~= members_view(members@));
}

/// A deep copy of a value.
pub fn clone_value(v: &JsonValue) -> (r: JsonValue)
    ensures
        r@ == v@,
    decreases v,
{
    match v {
        JsonValue::Null => JsonValue::Null,
        JsonValue::Bool(b) => JsonValue::Bool(*b),
        JsonValue::Number(t) => {
            let copy = slice_chars(t, 0, t.len());
            assert(t@.subrange(0, t@.len() as int) =~= t@);
            JsonValue::Number(copy)
        },
        JsonValue::String(t) => {
            let copy = slice_chars(t, 0, t.len());
            assert(t@.subrange(0, t@.len() as int) =~= t@);
            JsonValue::String(copy)
        },
        JsonValue::Array(items) => {
            let mut copy: Vec<JsonValue> = Vec::new();
            let mut i: usize = 0;
            while i < items.len()
                invariant
                    i <= items.len(),
                    decreases_to!(*v => *items),
                    items_view(copy@) == items_view(items@).take(i as int),
                decreases items.len() - i,
            {
                assert(decreases_to!(*items => items[i as int]));
                let item = clone_value(&items[i]);
                let ghost before = items_view(copy@);
                copy.push(item);
                assert(items_view(copy@) =~= before.push(item@));
                assert(before.push(item@) =~= items_view(items@).take(i + 1));
                i += 1;
            }
            proof {
                assert(items_view(items@).take(items@.len() as int) =~= items_view(items@));
                lemma_view_array(copy);
                lemma_view_array(*items);
            }
            JsonValue::Array(copy)
        },
        JsonValue::Object(members) => {
            let mut copy: Vec<JsonMember> = Vec::new();
            let mut i: usize = 0;
            while i < members.len()
                invariant
                    i <= members.len(),
                    decreases_to!(*v => *members),
                    members_view(copy@) == members_view(members@).take(i as int),
                decreases members.len() - i,
            {
                assert(decreases_to!(*members => members[i as int]));
                let key = slice_chars(&members[i].key, 0, members[i].key.len());
                assert(members[i as int].key@.subrange(0, members[i as int].key@.len() as int)
                    =~= members[i as int].key@);
                let value = clone_value(&members[i].value);
                let ghost before = members_view(copy@);
                let member = JsonMember { key: key, value: value };
                assert(member@ == members[i as int]@);
                copy.push(member);
                assert(members_view(copy@) =~= before.push(member@));
                assert(before.push(member@) =~= members_view(members@).take(i + 1));
                i += 1;
            }
            proof {
                assert(members_view(members@).take(members@.len() as int) =~= members_view(
                    members@,
                ));
                lemma_view_object(copy);
                lemma_view_object(*members);
            }
            JsonValue::Object(copy)
        },
    }
}

} // verus!
