//! The host's values, as plain data: what serialisation is given and what
//! materialisation hands back.

use vstd::prelude::*;
use crate::bigint::big_value;
use crate::datetime::{Date, Time, Timestamp};
use crate::value::{FloatLiteral, FloatView};

verus! {

/// The time zone of a host datetime: none, UTC, a fixed offset as whole
/// days and seconds of a day, or one whose offset the host could not tell.
#[derive(Debug, Clone, Copy, PartialEq, Eq)]
pub enum HostZone {
    Naive,
    Utc,
    Offset { days: i32, seconds: i32 },
    Unknown,
}

/// A host datetime, read field by field.
#[derive(Debug, Clone, Copy, PartialEq, Eq)]
pub struct HostDateTime {
    pub date: Date,
    pub time: Time,
    pub zone: HostZone,
}

/// A host object handed to serialisation. A float comes as the host's
/// shortest decimal text of it. `Other` stands for an object of any type
/// that has no place in the tree, with the type's name and, where the host
/// could give one, the object's printable form.
#[derive(Debug, PartialEq)]
pub enum HostObject {
    Str(String),
    Null,
    Bool(bool),
    Int(i64),
    BigInt(num_bigint::BigInt),
    Float(String),
    DateTime(HostDateTime),
    Date(Date),
    Tuple(Vec<HostObject>),
    List(Vec<HostObject>),
    MutableSet(Vec<HostObject>),
    FrozenSet(Vec<HostObject>),
    Dict(Vec<(HostObject, HostObject)>),
    Other { class_name: String, repr: Option<String> },
}

/// View of a [`HostObject`].
pub enum HostObjectView {
    Str(Seq<char>),
    Null,
    Bool(bool),
    Int(i64),
    BigInt(int),
    Float(Seq<char>),
    DateTime(HostDateTime),
    Date(Date),
    Tuple(Seq<HostObjectView>),
    List(Seq<HostObjectView>),
    MutableSet(Seq<HostObjectView>),
    FrozenSet(Seq<HostObjectView>),
    Dict(Seq<(HostObjectView, HostObjectView)>),
    Other { class_name: Seq<char>, repr: Option<Seq<char>> },
}

/// The view of an optional string.
pub open spec fn optional_text(s: Option<String>) -> Option<Seq<char>> {
    match s {
        Some(t) => Some(t@),
        None => None,
    }
}

/// The views of a list of objects.
pub open spec fn object_views(items: Seq<HostObject>) -> Seq<HostObjectView>
    decreases items,
{
    Seq::new(
        items.len(),
        |i: int|
            if 0 <= i < items.len() {
                object_view(items[i])
            } else {
                HostObjectView::Null
            },
    )
}

/// The views of a list of pairs of objects.
pub open spec fn object_pair_views(pairs: Seq<(HostObject, HostObject)>) -> Seq<
    (HostObjectView, HostObjectView),
>
    decreases pairs,
{
    Seq::new(
        pairs.len(),
        |i: int|
            if 0 <= i < pairs.len() {
                (object_view(pairs[i].0), object_view(pairs[i].1))
            } else {
                (HostObjectView::Null, HostObjectView::Null)
            },
    )
}

/// The view of an object: text as characters, big integers as numbers,
/// children by their views.
pub open spec fn object_view(obj: HostObject) -> HostObjectView
    decreases obj,
{
    match obj {
        HostObject::Str(s) => HostObjectView::Str(s@),
        HostObject::Null => HostObjectView::Null,
        HostObject::Bool(b) => HostObjectView::Bool(b),
        HostObject::Int(n) => HostObjectView::Int(n),
        HostObject::BigInt(n) => HostObjectView::BigInt(big_value(n)),
        HostObject::Float(r) => HostObjectView::Float(r@),
        HostObject::DateTime(dt) => HostObjectView::DateTime(dt),
        HostObject::Date(d) => HostObjectView::Date(d),
        HostObject::Tuple(items) => HostObjectView::Tuple(object_views(items@)),
        HostObject::List(items) => HostObjectView::List(object_views(items@)),
        HostObject::MutableSet(items) => HostObjectView::MutableSet(object_views(items@)),
        HostObject::FrozenSet(items) => HostObjectView::FrozenSet(object_views(items@)),
        HostObject::Dict(pairs) => HostObjectView::Dict(object_pair_views(pairs@)),
        HostObject::Other { class_name, repr } => HostObjectView::Other {
            class_name: class_name@,
            repr: optional_text(repr),
        },
    }
}

impl View for HostObject {
    type V = HostObjectView;

    open spec fn view(&self) -> HostObjectView {
        object_view(*self)
    }
}

/// A host value that materialisation asks the host to build. A
/// `MutableSet` and a `Dict` list their members in the order of insertion;
/// a `FrozenSet` lists the pairs of a mapping used as a key, each as a
/// two-item tuple. A `Timestamp` carries the fields that were read and the
/// text they were read from: the host builds the date or datetime, or keeps
/// the text where it rejects the fields.
#[derive(Debug, PartialEq)]
pub enum HostValue {
    Null,
    Bool(bool),
    Int(i64),
    BigInt(num_bigint::BigInt),
    Float(FloatLiteral),
    Str(String),
    Timestamp { stamp: Timestamp, text: String },
    List(Vec<HostValue>),
    Tuple(Vec<HostValue>),
    MutableSet(Vec<HostValue>),
    FrozenSet(Vec<HostValue>),
    Dict(Vec<(HostValue, HostValue)>),
}

/// View of a [`HostValue`].
pub enum HostValueView {
    Null,
    Bool(bool),
    Int(i64),
    BigInt(int),
    Float(FloatView),
    Str(Seq<char>),
    Timestamp { stamp: Timestamp, text: Seq<char> },
    List(Seq<HostValueView>),
    Tuple(Seq<HostValueView>),
    MutableSet(Seq<HostValueView>),
    FrozenSet(Seq<HostValueView>),
    Dict(Seq<(HostValueView, HostValueView)>),
}

/// The views of a list of values.
pub open spec fn value_views(items: Seq<HostValue>) -> Seq<HostValueView>
    decreases items,
{
    Seq::new(
        items.len(),
        |i: int|
            if 0 <= i < items.len() {
                value_view(items[i])
            } else {
                HostValueView::Null
            },
    )
}

/// The views of a list of pairs of values.
pub open spec fn value_pair_views(pairs: Seq<(HostValue, HostValue)>) -> Seq<
    (HostValueView, HostValueView),
>
    decreases pairs,
{
    Seq::new(
        pairs.len(),
        |i: int|
            if 0 <= i < pairs.len() {
                (value_view(pairs[i].0), value_view(pairs[i].1))
            } else {
                (HostValueView::Null, HostValueView::Null)
            },
    )
}

/// The view of a value.
pub open spec fn value_view(v: HostValue) -> HostValueView
    decreases v,
{
    match v {
        HostValue::Null => HostValueView::Null,
        HostValue::Bool(b) => HostValueView::Bool(b),
        HostValue::Int(n) => HostValueView::Int(n),
        HostValue::BigInt(n) => HostValueView::BigInt(big_value(n)),
        HostValue::Float(f) => HostValueView::Float(f@),
        HostValue::Str(s) => HostValueView::Str(s@),
        HostValue::Timestamp { stamp, text } => HostValueView::Timestamp { stamp, text: text@ },
        HostValue::List(items) => HostValueView::List(value_views(items@)),
        HostValue::Tuple(items) => HostValueView::Tuple(value_views(items@)),
        HostValue::MutableSet(items) => HostValueView::MutableSet(value_views(items@)),
        HostValue::FrozenSet(items) => HostValueView::FrozenSet(value_views(items@)),
        HostValue::Dict(pairs) => HostValueView::Dict(value_pair_views(pairs@)),
    }
}

impl View for HostValue {
    type V = HostValueView;

    open spec fn view(&self) -> HostValueView {
        value_view(*self)
    }
}

} // verus!
