//! The tree of decoded values, and the mathematical model of it that the
//! contracts speak of.

use crate::traits::Numeric;
use vstd::prelude::*;

verus! {

/// The key of one entry of a mapping, as the contracts see it.
pub enum KeyModel {
    /// A key of the associative portion.
    Name(Seq<char>),
    /// The position of a slot of the dense portion.
    Index(usize),
}

/// A decoded value, as the contracts see it.
pub enum ValueModel {
    Absent,
    Bool(bool),
    Number(Numeric),
    String(Seq<char>),
    Sequence(Seq<ValueModel>),
    Mapping(Seq<(KeyModel, ValueModel)>),
}

/// The key of one entry of a mapping.
#[derive(PartialEq, Eq, Debug)]
pub enum Key<'de> {
    /// A key of the associative portion, borrowed from the input.
    Name(&'de str),
    /// The position of a slot of the dense portion.
    Index(usize),
}

/// A decoded value. Strings are slices of the input buffer.
#[derive(PartialEq, Eq, Debug)]
pub enum Value<'de> {
    /// What the markers undefined and null both decode to.
    Absent,
    Bool(bool),
    Number(Numeric),
    String(&'de str),
    /// A dense array: its elements in encoded order.
    Sequence(Vec<Value<'de>>),
    /// An array with an associative portion: its entries in the order in
    /// which they are handed out.
    Mapping(Vec<(Key<'de>, Value<'de>)>),
}

impl<'de> View for Key<'de> {
    type V = KeyModel;

    open spec fn view(&self) -> KeyModel {
        match self {
            Key::Name(name) => KeyModel::Name(name@),
            Key::Index(index) => KeyModel::Index(*index),
        }
    }
}

impl<'de> View for Value<'de> {
    type V = ValueModel;

    open spec fn view(&self) -> ValueModel
        decreases self,
    {
        match self {
            Value::Absent => ValueModel::Absent,
            Value::Bool(b) => ValueModel::Bool(*b),
            Value::Number(n) => ValueModel::Number(*n),
            Value::String(s) => ValueModel::String(s@),
            Value::Sequence(items) => ValueModel::Sequence(
                Seq::new(
                    items.len() as nat,
                    |i: int|
                        if 0 <= i < items.len() {
                            items[i]@
                        } else {
                            ValueModel::Absent
                        },
                ),
            ),
            Value::Mapping(entries) => ValueModel::Mapping(
                Seq::new(
                    entries.len() as nat,
                    |i: int|
                        if 0 <= i < entries.len() {
                            (entries[i].0@, entries[i].1@)
                        } else {
                            (KeyModel::Index(0), ValueModel::Absent)
                        },
                ),
            ),
        }
    }
}

/// The views of decoded values, in their order.
pub open spec fn item_views(items: Seq<Value>) -> Seq<ValueModel> {
    Seq::new(items.len(), |i: int| items[i]@)
}

/// The views of decoded entries, in their order.
pub open spec fn entry_views(entries: Seq<(Key, Value)>) -> Seq<(KeyModel, ValueModel)> {
    Seq::new(entries.len(), |i: int| (entries[i].0@, entries[i].1@))
}

/// The view of a sequence is made of the views of its elements.
pub proof fn lemma_sequence_view(items: Vec<Value>)
    ensures
        Value::Sequence(items)@ == ValueModel::Sequence(item_views(items@)),
{
    reveal_with_fuel(<Value as View>::view, 2);
    assert(Value::Sequence(items)@->Sequence_0 =~= item_views(items@));
}

/// The view of a mapping is made of the views of its entries.
pub proof fn lemma_mapping_view(entries: Vec<(Key, Value)>)
    ensures
        Value::Mapping(entries)@ == ValueModel::Mapping(entry_views(entries@)),
{
    reveal_with_fuel(<Value as View>::view, 2);
    assert(Value::Mapping(entries)@->Mapping_0 =~= entry_views(entries@));
}

} // verus!
