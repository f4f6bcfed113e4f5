use crate::scalar::{ScalarV, WundergraphScalarValue};
use vstd::prelude::*;

verus! {

/// One client-supplied argument literal: a scalar, a list of literals, an
/// object of named literals, or an explicit null.
#[derive(Debug)]
pub enum InputValue {
    Scalar(WundergraphScalarValue),
    List(Vec<InputValue>),
    Object(Vec<(String, InputValue)>),
    Null,
}

/// The mathematical value of an input literal.
pub enum InputV {
    Scalar(ScalarV),
    List(Seq<InputV>),
    Object(Seq<(Seq<char>, InputV)>),
    Null,
}

impl InputValue {
    /// The mathematical value of this literal.
    pub open spec fn value(self) -> InputV
        decreases self,
    {
        match self {
            InputValue::Scalar(s) => InputV::Scalar(s@),
            InputValue::List(l) => InputV::List(
                Seq::new(l@.len(), |i: int| if 0 <= i < l@.len() {
                    l@[i].value()
                } else {
                    InputV::Null
                }),
            ),
            InputValue::Object(fields) => InputV::Object(
                Seq::new(fields@.len(), |i: int| if 0 <= i < fields@.len() {
                    (fields@[i].0@, fields@[i].1.value())
                } else {
                    (Seq::empty(), InputV::Null)
                }),
            ),
            InputValue::Null => InputV::Null,
        }
    }
}

impl View for InputValue {
    type V = InputV;

    open spec fn view(&self) -> InputV {
        self.value()
    }
}

} // verus!
