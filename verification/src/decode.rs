use crate::convert::{i32_to_decimal, spec_i32_decimal, spec_widen_float_bits, widen_float_bits};
use crate::input::InputValue;
use crate::outside::{
    parse_date_text, parse_timestamp_text, parse_uuid_text, spec_date_of_text,
    spec_timestamp_of_text, spec_uuid_of_text,
};
use crate::scalar::{ScalarKind, ScalarV, WundergraphScalarValue};
use vstd::prelude::*;

verus! {

/// What decoding one scalar literal at a declared kind yields.
///
/// A literal of exactly the declared kind is accepted as is. `SmallInt`
/// widens into `Int` and `BigInt`, `Int` into `BigInt`, and `Float` into
/// `Double`; every other kind requires an exact match, except that an `Id`
/// also accepts an `Int` (as its decimal notation) or a `String`, and the
/// extension kinds also accept a `String` holding their text form.
pub open spec fn spec_decode_scalar(kind: ScalarKind, sv: ScalarV) -> Option<ScalarV> {
    match kind {
        ScalarKind::SmallInt => match sv {
            ScalarV::SmallInt(_) => Some(sv),
            _ => None,
        },
        ScalarKind::Int => match sv {
            ScalarV::SmallInt(i) => Some(ScalarV::Int(i as i32)),
            ScalarV::Int(_) => Some(sv),
            _ => None,
        },
        ScalarKind::BigInt => match sv {
            ScalarV::SmallInt(i) => Some(ScalarV::BigInt(i as i64)),
            ScalarV::Int(i) => Some(ScalarV::BigInt(i as i64)),
            ScalarV::BigInt(_) => Some(sv),
            _ => None,
        },
        ScalarKind::Float => match sv {
            ScalarV::Float(_) => Some(sv),
            _ => None,
        },
        ScalarKind::Double => match sv {
            ScalarV::Float(b) => Some(ScalarV::Double(spec_widen_float_bits(b))),
            ScalarV::Double(_) => Some(sv),
            _ => None,
        },
        ScalarKind::String => match sv {
            ScalarV::String(_) => Some(sv),
            _ => None,
        },
        ScalarKind::Boolean => match sv {
            ScalarV::Boolean(_) => Some(sv),
            _ => None,
        },
        ScalarKind::Id => match sv {
            ScalarV::Int(i) => Some(ScalarV::Id(spec_i32_decimal(i as int))),
            ScalarV::String(s) => Some(ScalarV::Id(s)),
            ScalarV::Id(_) => Some(sv),
            _ => None,
        },
        ScalarKind::Timestamp => match sv {
            ScalarV::Timestamp(_, _) => Some(sv),
            ScalarV::String(s) => match spec_timestamp_of_text(s) {
                Some((secs, nanos)) => Some(ScalarV::Timestamp(secs, nanos)),
                None => None,
            },
            _ => None,
        },
        ScalarKind::Date => match sv {
            ScalarV::Date(_) => Some(sv),
            ScalarV::String(s) => match spec_date_of_text(s) {
                Some(d) => Some(ScalarV::Date(d)),
                None => None,
            },
            _ => None,
        },
        ScalarKind::Uuid => match sv {
            ScalarV::Uuid(_) => Some(sv),
            ScalarV::String(s) => match spec_uuid_of_text(s) {
                Some(u) => Some(ScalarV::Uuid(u)),
                None => None,
            },
            _ => None,
        },
    }
}

/// What decoding one argument literal at a declared kind yields: scalar
/// literals decode as above, everything else fails.
pub open spec fn spec_decode(kind: ScalarKind, v: InputValue) -> Option<ScalarV> {
    match v {
        InputValue::Scalar(sv) => spec_decode_scalar(kind, sv@),
        _ => None,
    }
}

/// What decoding a list literal element-wise yields: the whole list fails as
/// soon as one element fails.
pub open spec fn spec_decode_elems(kind: ScalarKind, elems: Seq<InputValue>) -> Option<
    Seq<ScalarV>,
>
    decreases elems.len(),
{
    if elems.len() == 0 {
        Some(Seq::empty())
    } else {
        match spec_decode(kind, elems[0]) {
            None => None,
            Some(x) => match spec_decode_elems(kind, elems.drop_first()) {
                None => None,
                Some(rest) => Some(seq![x] + rest),
            },
        }
    }
}

/// What decoding a list argument yields: nothing unless the literal is a list.
pub open spec fn spec_decode_list(kind: ScalarKind, v: InputValue) -> Option<Seq<ScalarV>> {
    match v {
        InputValue::List(l) => spec_decode_elems(kind, l@),
        _ => None,
    }
}

/// The mathematical values of a vector of scalars.
pub open spec fn spec_scalars_v(vs: Seq<WundergraphScalarValue>) -> Seq<ScalarV> {
    Seq::new(vs.len(), |i: int| vs[i]@)
}

/// Decodes one scalar literal at a declared kind.
pub fn decode_scalar(kind: ScalarKind, sv: &WundergraphScalarValue) -> (r: Option<
    WundergraphScalarValue,
>)
    ensures
        crate::database::spec_cell_v(r) == spec_decode_scalar(kind, sv@),
{
    match kind {
        ScalarKind::SmallInt => match sv {
            WundergraphScalarValue::SmallInt(i) => Some(WundergraphScalarValue::SmallInt(*i)),
            _ => None,
        },
        ScalarKind::Int => match sv {
            WundergraphScalarValue::SmallInt(i) => Some(WundergraphScalarValue::Int(*i as i32)),
            WundergraphScalarValue::Int(i) => Some(WundergraphScalarValue::Int(*i)),
            _ => None,
        },
        ScalarKind::BigInt => match sv {
            WundergraphScalarValue::SmallInt(i) => Some(WundergraphScalarValue::BigInt(*i as i64)),
            WundergraphScalarValue::Int(i) => Some(WundergraphScalarValue::BigInt(*i as i64)),
            WundergraphScalarValue::BigInt(i) => Some(WundergraphScalarValue::BigInt(*i)),
            _ => None,
        },
        ScalarKind::Float => match sv {
            WundergraphScalarValue::Float(b) => Some(WundergraphScalarValue::Float(*b)),
            _ => None,
        },
        ScalarKind::Double => match sv {
            WundergraphScalarValue::Float(b) => Some(
                WundergraphScalarValue::Double(widen_float_bits(*b)),
            ),
            WundergraphScalarValue::Double(b) => Some(WundergraphScalarValue::Double(*b)),
            _ => None,
        },
        ScalarKind::String => match sv {
            WundergraphScalarValue::String(s) => Some(WundergraphScalarValue::String(s.clone())),
            _ => None,
        },
        ScalarKind::Boolean => match sv {
            WundergraphScalarValue::Boolean(b) => Some(WundergraphScalarValue::Boolean(*b)),
            _ => None,
        },
        ScalarKind::Id => match sv {
            WundergraphScalarValue::Int(i) => Some(WundergraphScalarValue::Id(i32_to_decimal(*i))),
            WundergraphScalarValue::String(s) => Some(WundergraphScalarValue::Id(s.clone())),
            WundergraphScalarValue::Id(s) => Some(WundergraphScalarValue::Id(s.clone())),
            _ => None,
        },
        ScalarKind::Timestamp => match sv {
            WundergraphScalarValue::Timestamp(s, n) => Some(
                WundergraphScalarValue::Timestamp(*s, *n),
            ),
            WundergraphScalarValue::String(s) => match parse_timestamp_text(s.as_str()) {
                Some((secs, nanos)) => Some(WundergraphScalarValue::Timestamp(secs, nanos)),
                None => None,
            },
            _ => None,
        },
        ScalarKind::Date => match sv {
            WundergraphScalarValue::Date(d) => Some(WundergraphScalarValue::Date(*d)),
            WundergraphScalarValue::String(s) => match parse_date_text(s.as_str()) {
                Some(d) => Some(WundergraphScalarValue::Date(d)),
                None => None,
            },
            _ => None,
        },
        ScalarKind::Uuid => match sv {
            WundergraphScalarValue::Uuid(u) => Some(WundergraphScalarValue::Uuid(*u)),
            WundergraphScalarValue::String(s) => match parse_uuid_text(s.as_str()) {
                Some(u) => Some(WundergraphScalarValue::Uuid(u)),
                None => None,
            },
            _ => None,
        },
    }
}

/// Decodes one argument literal at a declared kind.
pub fn decode(kind: ScalarKind, v: &InputValue) -> (r: Option<WundergraphScalarValue>)
    ensures
        crate::database::spec_cell_v(r) == spec_decode(kind, *v),
{
    match v {
        InputValue::Scalar(sv) => decode_scalar(kind, sv),
        _ => None,
    }
}

/// Decodes a list argument element-wise, failing the whole list when any
/// element fails.
pub fn decode_list(kind: ScalarKind, v: &InputValue) -> (r: Option<Vec<WundergraphScalarValue>>)
    ensures
        match r {
            Some(out) => spec_decode_list(kind, *v) == Some(spec_scalars_v(out@)),
            None => spec_decode_list(kind, *v) is None,
        },
{
    match v {
        InputValue::List(l) => {
            let mut out: Vec<WundergraphScalarValue> = Vec::new();
            let mut i: usize = 0;
            proof {
                assert(l@.skip(0) =~= l@);
                assert(spec_scalars_v(out@) + Seq::<ScalarV>::empty() =~= spec_scalars_v(out@));
            }
            while i < l.len()
                invariant
                    i <= l@.len(),
                    i == out@.len(),
                    v is List && v->List_0 == *l,
                    match spec_decode_elems(kind, l@.skip(i as int)) {
                        Some(rest) => spec_decode_elems(kind, l@) == Some(
                            spec_scalars_v(out@) + rest,
                        ),
                        None => spec_decode_elems(kind, l@) is None,
                    },
                decreases l@.len() - i,
            {
                proof {
                    assert(l@.skip(i as int)[0] == l@[i as int]);
                    assert(l@.skip(i as int).drop_first() =~= l@.skip(i + 1));
                }
                match decode(kind, &l[i]) {
                    Some(x) => {
                        let ghost old_out = out@;
                        out.push(x);
                        proof {
                            if spec_decode_elems(kind, l@.skip(i + 1)) is Some {
                                let rest = spec_decode_elems(kind, l@.skip(i + 1)).unwrap();
                                assert(spec_scalars_v(old_out) + (seq![x@] + rest)
                                    =~= spec_scalars_v(out@) + rest);
                            }
                        }
                    },
                    None => {
                        return None;
                    },
                }
                i = i + 1;
            }
            proof {
                assert(l@.skip(l@.len() as int) =~= Seq::<InputValue>::empty());
                assert(spec_scalars_v(out@) + Seq::<ScalarV>::empty() =~= spec_scalars_v(out@));
            }
            Some(out)
        },
        _ => None,
    }
}

} // verus!
