//! The JSON document model: the values the proxy's configuration and events
//! are made of, together with their mathematical abstraction.
//!
//! A number is held in fixed point, as a signed count of thousandths: the
//! configuration's fractional millisecond values keep three decimal places.

use vstd::prelude::*;

verus! {

/// A JSON document. Objects keep their members in order; a lookup takes the
/// last member with the sought key, so a later duplicate shadows an earlier
/// one.
pub enum JsonValue {
    Null,
    Bool(bool),
    /// The number's value in thousandths (fixed point, three decimal places).
    Number(i64),
    String(String),
    Array(Vec<JsonValue>),
    Object(Vec<(String, JsonValue)>),
}

/// The mathematical abstraction of a [`JsonValue`].
pub enum SpecJson {
    Null,
    Bool(bool),
    /// The number's value in thousandths.
    Number(int),
    String(Seq<char>),
    Array(Seq<SpecJson>),
    Object(Seq<(Seq<char>, SpecJson)>),
}

impl JsonValue {
    /// The abstraction of this document: strings become character sequences,
    /// vectors become sequences, numbers become unbounded integers.
    pub open spec fn spec_json(self) -> SpecJson
        decreases self,
    {
        match self {
            JsonValue::Null => SpecJson::Null,
            JsonValue::Bool(b) => SpecJson::Bool(b),
            JsonValue::Number(n) => SpecJson::Number(n as int),
            JsonValue::String(s) => SpecJson::String(s@),
            JsonValue::Array(items) => SpecJson::Array(spec_json_of_seq(items@)),
            JsonValue::Object(members) => SpecJson::Object(spec_json_of_members(members@)),
        }
    }
}

/// The abstraction of each document in a sequence, in order.
pub open spec fn spec_json_of_seq(items: Seq<JsonValue>) -> Seq<SpecJson>
    decreases items,
{
    if items.len() == 0 {
        Seq::empty()
    } else {
        seq![items[0].spec_json()] + spec_json_of_seq(items.drop_first())
    }
}

/// The abstraction of each object member in a sequence, in order.
pub open spec fn spec_json_of_members(members: Seq<(String, JsonValue)>) -> Seq<
    (Seq<char>, SpecJson),
>
    decreases members,
{
    if members.len() == 0 {
        Seq::empty()
    } else {
        seq![(members[0].0@, members[0].1.spec_json())] + spec_json_of_members(
            members.drop_first(),
        )
    }
}

impl View for JsonValue {
    type V = SpecJson;

    open spec fn view(&self) -> SpecJson {
        self.spec_json()
    }
}

/// Each abstracted element of a sequence is the abstraction of the element.
pub proof fn lemma_spec_json_of_seq(items: Seq<JsonValue>)
    ensures
        spec_json_of_seq(items).len() == items.len(),
        forall|i: int| 0 <= i < items.len() ==> spec_json_of_seq(items)[i] == items[i].spec_json(),
    decreases items,
{
    if items.len() > 0 {
        lemma_spec_json_of_seq(items.drop_first());
    }
}

/// Each abstracted member of a member sequence is the abstraction of the member.
pub proof fn lemma_spec_json_of_members(members: Seq<(String, JsonValue)>)
    ensures
        spec_json_of_members(members).len() == members.len(),
        forall|i: int| 0 <= i < members.len() ==> spec_json_of_members(members)[i] == (
            members[i].0@,
            members[i].1.spec_json(),
        ),
    decreases members,
{
    if members.len() > 0 {
        lemma_spec_json_of_members(members.drop_first());
    }
}

/// The nesting depth of a document: how many arrays and objects enclose its
/// deepest leaf.
pub open spec fn spec_json_depth(v: SpecJson) -> nat
    decreases v, 0int,
{
    match v {
        SpecJson::Array(items) => 1 + spec_json_depth_seq(items),
        SpecJson::Object(members) => 1 + spec_json_depth_members(members),
        _ => 0,
    }
}

/// The greatest nesting depth among the documents of a sequence.
pub open spec fn spec_json_depth_seq(items: Seq<SpecJson>) -> nat
    decreases items, 1int,
{
    if items.len() == 0 {
        0
    } else {
        let d0 = spec_json_depth(items[0]);
        let dr = spec_json_depth_seq(items.drop_first());
        if d0 >= dr {
            d0
        } else {
            dr
        }
    }
}

/// The greatest nesting depth among the values of a member sequence.
pub open spec fn spec_json_depth_members(members: Seq<(Seq<char>, SpecJson)>) -> nat
    decreases members, 1int,
{
    if members.len() == 0 {
        0
    } else {
        let d0 = spec_json_depth(members[0].1);
        let dr = spec_json_depth_members(members.drop_first());
        if d0 >= dr {
            d0
        } else {
            dr
        }
    }
}

/// The last member of `members` with key `key`, if any: a later duplicate
/// shadows an earlier one.
pub open spec fn spec_member_lookup(members: Seq<(Seq<char>, SpecJson)>, key: Seq<char>) -> Option<
    SpecJson,
>
    decreases members,
{
    if members.len() == 0 {
        None
    } else if members.last().0 == key {
        Some(members.last().1)
    } else {
        spec_member_lookup(members.drop_last(), key)
    }
}

/// The value at `key` in an object, if `doc` is an object with such a member.
pub open spec fn spec_get(doc: SpecJson, key: Seq<char>) -> Option<SpecJson> {
    match doc {
        SpecJson::Object(members) => spec_member_lookup(members, key),
        _ => None,
    }
}

/// The value of the last member of `members` named `key`, if any.
pub fn object_get<'a>(members: &'a Vec<(String, JsonValue)>, key: &str) -> (r: Option<
    &'a JsonValue,
>)
    ensures
        match r {
            Some(v) => spec_member_lookup(spec_json_of_members(members@), key@) == Some(v@),
            None => spec_member_lookup(spec_json_of_members(members@), key@) is None,
        },
{
    proof {
        lemma_spec_json_of_members(members@);
        assert(spec_json_of_members(members@).take(members@.len() as int) =~= spec_json_of_members(
            members@,
        ));
    }
    let mut i: usize = members.len();
    while i > 0
        invariant
            i <= members@.len(),
            spec_member_lookup(spec_json_of_members(members@), key@) == spec_member_lookup(
                spec_json_of_members(members@).take(i as int),
                key@,
            ),
            spec_json_of_members(members@).len() == members@.len(),
            forall|j: int| 0 <= j < members@.len() ==> spec_json_of_members(members@)[j] == (
                members@[j].0@,
                members@[j].1.spec_json(),
            ),
        decreases i,
    {
        i -= 1;
        let ghost abs = spec_json_of_members(members@);
        proof {
            assert(abs.take(i + 1).last() == abs[i as int]);
            assert(abs.take(i + 1).drop_last() =~= abs.take(i as int));
        }
        if crate::text::str_eq(members[i].0.as_str(), key) {
            return Some(&members[i].1);
        }
    }
    proof {
        assert(spec_json_of_members(members@).take(0) =~= Seq::<(Seq<char>, SpecJson)>::empty());
    }
    None
}

impl JsonValue {
    /// The value of this object's last member named `key`; `None` when this
    /// is not an object or no member is named `key`.
    pub fn get<'a>(&'a self, key: &str) -> (r: Option<&'a JsonValue>)
        ensures
            match r {
                Some(v) => spec_get(self@, key@) == Some(v@),
                None => spec_get(self@, key@) is None,
            },
    {
        match self {
            JsonValue::Object(members) => object_get(members, key),
            _ => None,
        }
    }
}

} // verus!
