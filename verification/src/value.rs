//! The value tree that a parse builds, and its mathematical model.
use crate::scan::is_number_literal;
use vstd::prelude::*;

verus! {

/// The model of a value tree: the same seven kinds, over sequences.
///
/// The members of an object are a sequence of pairs, in the order in which
/// they were written; a key may occur more than once.
pub enum JsonTree {
    /// The text between the quotes, escape sequences left as written.
    String(Seq<char>),
    /// The literal of the number, as written.
    Number(Seq<char>),
    Object(Seq<(Seq<char>, JsonTree)>),
    Array(Seq<JsonTree>),
    True,
    False,
    Null,
}

impl JsonTree {
    /// Whether every number in the tree is a number literal.
    pub open spec fn well_formed(self) -> bool
        decreases self,
    {
        match self {
            JsonTree::Number(literal) => is_number_literal(literal),
            JsonTree::Array(items) => forall|i: int|
                0 <= i < items.len() ==> (#[trigger] items[i]).well_formed(),
            JsonTree::Object(members) => forall|i: int|
                0 <= i < members.len() ==> (#[trigger] members[i]).1.well_formed(),
            _ => true,
        }
    }
}

/// A JSON value.
///
/// A string holds the raw text between its quotes: no escape sequence is
/// decoded. A number holds its literal, which a caller converts to the
/// numeric type it needs.
#[derive(Debug, PartialEq)]
pub enum JSONValue {
    String(String),
    Number(String),
    Object(Vec<(String, JSONValue)>),
    Array(Vec<JSONValue>),
    True,
    False,
    Null,
}

pub struct JSONBuilder {}

/// The models of a sequence of values, in order.
pub open spec fn trees_of(items: Seq<JSONValue>) -> Seq<JsonTree> {
    Seq::new(items.len(), |i: int| items[i]@)
}

/// The models of a sequence of object members, in order.
pub open spec fn members_of(pairs: Seq<(String, JSONValue)>) -> Seq<(Seq<char>, JsonTree)> {
    Seq::new(pairs.len(), |i: int| (pairs[i].0@, pairs[i].1@))
}

/// No values have no models.
pub proof fn lemma_models_of_nothing()
    ensures
        trees_of(Seq::empty()) == Seq::<JsonTree>::empty(),
        members_of(Seq::empty()) == Seq::<(Seq<char>, JsonTree)>::empty(),
{
    assert(trees_of(Seq::empty()) =~= Seq::<JsonTree>::empty());
    assert(members_of(Seq::empty()) =~= Seq::<(Seq<char>, JsonTree)>::empty());
}

/// One value more has one model more.
pub proof fn lemma_trees_of_push(items: Seq<JSONValue>, item: JSONValue)
    ensures
        trees_of(items.push(item)) == trees_of(items).push(item@),
{
    assert(trees_of(items.push(item)) =~= trees_of(items).push(item@));
}

/// One member more has one model more.
pub proof fn lemma_members_of_push(pairs: Seq<(String, JSONValue)>, pair: (String, JSONValue))
    ensures
        members_of(pairs.push(pair)) == members_of(pairs).push((pair.0@, pair.1@)),
{
    assert(members_of(pairs.push(pair)) =~= members_of(pairs).push((pair.0@, pair.1@)));
}

impl View for JSONValue {
    type V = JsonTree;

    open spec fn view(&self) -> JsonTree
        decreases self,
    {
        match self {
            JSONValue::String(text) => JsonTree::String(text@),
            JSONValue::Number(literal) => JsonTree::Number(literal@),
            JSONValue::Object(pairs) => JsonTree::Object(
                Seq::new(
                    pairs.len() as nat,
                    |i: int|
                        (
                            pairs[i].0@,
                            if 0 <= i < pairs.len() {
                                pairs[i].1.view()
                            } else {
                                JsonTree::Null
                            },
                        ),
                ),
            ),
            JSONValue::Array(items) => JsonTree::Array(
                Seq::new(
                    items.len() as nat,
                    |i: int|
                        if 0 <= i < items.len() {
                            items[i].view()
                        } else {
                            JsonTree::Null
                        },
                ),
            ),
            JSONValue::True => JsonTree::True,
            JSONValue::False => JsonTree::False,
            JSONValue::Null => JsonTree::Null,
        }
    }
}

/// An array is modelled by the models of its elements.
pub proof fn lemma_array_view(items: Vec<JSONValue>)
    ensures
        JSONValue::Array(items)@ == JsonTree::Array(trees_of(items@)),
{
    assert(JSONValue::Array(items)@->Array_0 =~= trees_of(items@));
}

/// An object is modelled by its keys and the models of their values.
pub proof fn lemma_object_view(pairs: Vec<(String, JSONValue)>)
    ensures
        JSONValue::Object(pairs)@ == JsonTree::Object(members_of(pairs@)),
{
    assert(JSONValue::Object(pairs)@->Object_0 =~= members_of(pairs@));
}

impl Clone for JSONValue {
    /// A deep copy: the copy has the model of the value it was made from.
    fn clone(&self) -> (copy: Self)
        ensures
            copy@ == self@,
        decreases self,
    {
        match self {
            JSONValue::String(text) => JSONValue::String(text.clone()),
            JSONValue::Number(literal) => JSONValue::Number(literal.clone()),
            JSONValue::Object(pairs) => {
                let mut copied: Vec<(String, JSONValue)> = Vec::new();
                let mut i: usize = 0;
                while i < pairs.len()
                    invariant
                        *self == JSONValue::Object(*pairs),
                        i <= pairs.len(),
                        copied.len() == i,
                        forall|k: int|
                            0 <= k < i ==> (#[trigger] copied@[k]).0@ == pairs@[k].0@
                                && copied@[k].1@ == pairs@[k].1@,
                    decreases pairs.len() - i,
                {
                    proof {
                        vstd::std_specs::vec::axiom_vec_index_decreases(*pairs, i as int);
                        assert(decreases_to!(*self => self->Object_0));
                    }
                    let key = pairs[i].0.clone();
                    let value = pairs[i].1.clone();
                    copied.push((key, value));
                    i += 1;
                }
                proof {
                    lemma_object_view(copied);
                    lemma_object_view(*pairs);
                    assert(members_of(copied@) =~= members_of(pairs@));
                }
                JSONValue::Object(copied)
            },
            JSONValue::Array(items) => {
                let mut copied: Vec<JSONValue> = Vec::new();
                let mut i: usize = 0;
                while i < items.len()
                    invariant
                        *self == JSONValue::Array(*items),
                        i <= items.len(),
                        copied.len() == i,
                        forall|k: int| 0 <= k < i ==> (#[trigger] copied@[k])@ == items@[k]@,
                    decreases items.len() - i,
                {
                    proof {
                        vstd::std_specs::vec::axiom_vec_index_decreases(*items, i as int);
                        assert(decreases_to!(*self => self->Array_0));
                    }
                    let item = items[i].clone();
                    copied.push(item);
                    i += 1;
                }
                proof {
                    lemma_array_view(copied);
                    lemma_array_view(*items);
                    assert(trees_of(copied@) =~= trees_of(items@));
                }
                JSONValue::Array(copied)
            },
            JSONValue::True => JSONValue::True,
            JSONValue::False => JSONValue::False,
            JSONValue::Null => JSONValue::Null,
        }
    }
}

} // verus!
