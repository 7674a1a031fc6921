//! The tree that a parse produces, and its mathematical model.

use vstd::prelude::*;

verus! {

/// The mathematical model of a parsed document.
pub enum ValueView {
    Null,
    Boolean(bool),
    /// The literal text of the number, which obeys the number grammar.
    Number(Seq<char>),
    String(Seq<char>),
    Array(Seq<ValueView>),
    /// Key and value pairs in source order; keys may repeat.
    Object(Seq<(Seq<char>, ValueView)>),
}

/// A parsed JSON value.
///
/// A number is kept as the literal text that stood in the input, so that no
/// precision is lost and the caller picks the numeric type. An object keeps
/// its pairs in source order and keeps every occurrence of a repeated key.
#[derive(Debug, PartialEq, Eq)]
pub enum Value {
    Null,
    Boolean(bool),
    Number(String),
    String(String),
    Array(Vec<Value>),
    Object(Vec<(String, Value)>),
}

impl View for Value {
    type V = ValueView;

    open spec fn view(&self) -> ValueView
        decreases self,
    {
        match self {
            Value::Null => ValueView::Null,
            Value::Boolean(b) => ValueView::Boolean(*b),
            Value::Number(t) => ValueView::Number(t@),
            Value::String(s) => ValueView::String(s@),
            Value::Array(items) => ValueView::Array(
                Seq::new(
                    items@.len(),
                    |i: int|
                        if 0 <= i < items@.len() {
                            items@[i].view()
                        } else {
                            ValueView::Null
                        },
                ),
            ),
            Value::Object(pairs) => ValueView::Object(
                Seq::new(
                    pairs@.len(),
                    |i: int|
                        if 0 <= i < pairs@.len() {
                            (pairs@[i].0@, pairs@[i].1.view())
                        } else {
                            (Seq::empty(), ValueView::Null)
                        },
                ),
            ),
        }
    }
}

} // verus!
