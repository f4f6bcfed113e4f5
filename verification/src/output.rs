use crate::scalar::{ScalarV, WundergraphScalarValue};
use vstd::prelude::*;

verus! {

/// One response value: a null, a scalar, a list of values, or an object of
/// named fields in response order.
#[derive(Debug, PartialEq)]
pub enum OutputValue {
    Null,
    Scalar(WundergraphScalarValue),
    List(Vec<OutputValue>),
    Object(Vec<(String, OutputValue)>),
}

/// The mathematical value of a response value.
pub enum OutputV {
    Null,
    Scalar(ScalarV),
    List(Seq<OutputV>),
    Object(Seq<(Seq<char>, OutputV)>),
}

impl OutputValue {
    /// The mathematical value of this response value.
    pub open spec fn value(self) -> OutputV
        decreases self,
    {
        match self {
            OutputValue::Null => OutputV::Null,
            OutputValue::Scalar(s) => OutputV::Scalar(s@),
            OutputValue::List(l) => OutputV::List(
                Seq::new(l@.len(), |i: int| if 0 <= i < l@.len() {
                    l@[i].value()
                } else {
                    OutputV::Null
                }),
            ),
            OutputValue::Object(fields) => OutputV::Object(
                Seq::new(fields@.len(), |i: int| if 0 <= i < fields@.len() {
                    (fields@[i].0@, fields@[i].1.value())
                } else {
                    (Seq::empty(), OutputV::Null)
                }),
            ),
        }
    }
}

impl View for OutputValue {
    type V = OutputV;

    open spec fn view(&self) -> OutputV {
        self.value()
    }
}

/// The mathematical values of a vector of response values.
pub open spec fn spec_outputs_v(vals: Seq<OutputValue>) -> Seq<OutputV> {
    Seq::new(vals.len(), |i: int| vals[i]@)
}

} // verus!
