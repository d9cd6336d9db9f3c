//! The resolved node and its mathematical view.

use vstd::prelude::*;
use crate::bigint::big_value;

verus! {

/// Index of a node in an [`crate::arena::Arena`].
pub type NodeId = usize;

/// A number with a fractional part or an exponent, kept as the text that
/// spells it: the special values, or a decimal literal without separators.
#[derive(Debug, Clone, PartialEq, Eq)]
pub enum FloatLiteral {
    Infinity,
    NegInfinity,
    NotANumber,
    Decimal(Vec<u8>),
}

/// View of a [`FloatLiteral`].
pub enum FloatView {
    Infinity,
    NegInfinity,
    NotANumber,
    Decimal(Seq<u8>),
}

impl View for FloatLiteral {
    type V = FloatView;

    open spec fn view(&self) -> FloatView {
        match self {
            FloatLiteral::Infinity => FloatView::Infinity,
            FloatLiteral::NegInfinity => FloatView::NegInfinity,
            FloatLiteral::NotANumber => FloatView::NotANumber,
            FloatLiteral::Decimal(text) => FloatView::Decimal(text@),
        }
    }
}

/// A resolved node. Collections hold the ids of their children.
#[derive(Debug, Clone, PartialEq)]
pub enum Value {
    Null,
    Boolean(bool),
    IntegerI64(i64),
    IntegerBig(num_bigint::BigInt),
    Float(FloatLiteral),
    String(String),
    StringExplicit(String),
    Sequence(Vec<NodeId>),
    Mapping(Vec<(NodeId, NodeId)>),
}

/// View of a [`Value`]: numbers as mathematical integers, text as
/// character sequences, collections as sequences of ids.
pub enum ValueView {
    Null,
    Boolean(bool),
    Integer64(i64),
    IntegerBig(int),
    Float(FloatView),
    Text(Seq<char>),
    TextExplicit(Seq<char>),
    Sequence(Seq<NodeId>),
    Mapping(Seq<(NodeId, NodeId)>),
}

impl View for Value {
    type V = ValueView;

    open spec fn view(&self) -> ValueView {
        match self {
            Value::Null => ValueView::Null,
            Value::Boolean(b) => ValueView::Boolean(*b),
            Value::IntegerI64(n) => ValueView::Integer64(*n),
            Value::IntegerBig(b) => ValueView::IntegerBig(big_value(*b)),
            Value::Float(f) => ValueView::Float(f@),
            Value::String(s) => ValueView::Text(s@),
            Value::StringExplicit(s) => ValueView::TextExplicit(s@),
            Value::Sequence(items) => ValueView::Sequence(items@),
            Value::Mapping(pairs) => ValueView::Mapping(pairs@),
        }
    }
}

impl ValueView {
    /// Every child id that the node holds is below `bound`.
    pub open spec fn children_below(self, bound: nat) -> bool {
        match self {
            ValueView::Sequence(items) => forall|i: int|
                0 <= i < items.len() ==> (#[trigger] items[i]) < bound,
            ValueView::Mapping(pairs) => forall|i: int|
                0 <= i < pairs.len() ==> (#[trigger] pairs[i]).0 < bound && pairs[i].1 < bound,
            _ => true,
        }
    }
}

} // verus!
