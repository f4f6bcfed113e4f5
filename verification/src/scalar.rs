use vstd::prelude::*;

verus! {

/// The scalar kinds a column can be declared with.
///
/// The last three are extension kinds; a schema may only declare them when the
/// matching capability flag is set (see `table::Capabilities`).
#[derive(Clone, Copy, Debug, PartialEq, Eq, Structural)]
pub enum ScalarKind {
    SmallInt,
    Int,
    BigInt,
    Float,
    Double,
    String,
    Boolean,
    Id,
    Timestamp,
    Date,
    Uuid,
}

/// A tagged scalar literal: the value model shared by arguments, stored cells
/// and response fields.
///
/// Floating-point kinds carry the raw IEEE 754 bit pattern (`Float` 32 bits,
/// `Double` 64 bits); the compiler never performs floating-point arithmetic,
/// it only stores, compares and widens such values bitwise.
/// `Timestamp` carries seconds since the Unix epoch and subsecond nanoseconds;
/// `Date` carries days since the common era; `Uuid` carries the 128-bit value.
#[derive(Clone, Debug, PartialEq)]
pub enum WundergraphScalarValue {
    SmallInt(i16),
    Int(i32),
    BigInt(i64),
    Float(u32),
    Double(u64),
    String(String),
    Boolean(bool),
    Id(String),
    Timestamp(i64, u32),
    Date(i32),
    Uuid(u128),
}

/// The mathematical value of a scalar: strings become character sequences.
pub enum ScalarV {
    SmallInt(i16),
    Int(i32),
    BigInt(i64),
    Float(u32),
    Double(u64),
    String(Seq<char>),
    Boolean(bool),
    Id(Seq<char>),
    Timestamp(i64, u32),
    Date(i32),
    Uuid(u128),
}

impl View for WundergraphScalarValue {
    type V = ScalarV;

    open spec fn view(&self) -> ScalarV {
        match self {
            WundergraphScalarValue::SmallInt(i) => ScalarV::SmallInt(*i),
            WundergraphScalarValue::Int(i) => ScalarV::Int(*i),
            WundergraphScalarValue::BigInt(i) => ScalarV::BigInt(*i),
            WundergraphScalarValue::Float(b) => ScalarV::Float(*b),
            WundergraphScalarValue::Double(b) => ScalarV::Double(*b),
            WundergraphScalarValue::String(s) => ScalarV::String(s@),
            WundergraphScalarValue::Boolean(b) => ScalarV::Boolean(*b),
            WundergraphScalarValue::Id(s) => ScalarV::Id(s@),
            WundergraphScalarValue::Timestamp(s, n) => ScalarV::Timestamp(*s, *n),
            WundergraphScalarValue::Date(d) => ScalarV::Date(*d),
            WundergraphScalarValue::Uuid(u) => ScalarV::Uuid(*u),
        }
    }
}

impl WundergraphScalarValue {
    /// The kind this value belongs to.
    pub open spec fn spec_kind(&self) -> ScalarKind {
        match self {
            WundergraphScalarValue::SmallInt(_) => ScalarKind::SmallInt,
            WundergraphScalarValue::Int(_) => ScalarKind::Int,
            WundergraphScalarValue::BigInt(_) => ScalarKind::BigInt,
            WundergraphScalarValue::Float(_) => ScalarKind::Float,
            WundergraphScalarValue::Double(_) => ScalarKind::Double,
            WundergraphScalarValue::String(_) => ScalarKind::String,
            WundergraphScalarValue::Boolean(_) => ScalarKind::Boolean,
            WundergraphScalarValue::Id(_) => ScalarKind::Id,
            WundergraphScalarValue::Timestamp(_, _) => ScalarKind::Timestamp,
            WundergraphScalarValue::Date(_) => ScalarKind::Date,
            WundergraphScalarValue::Uuid(_) => ScalarKind::Uuid,
        }
    }

    /// The kind, computed at run time.
    #[verifier::when_used_as_spec(spec_kind)]
    pub fn kind(&self) -> (k: ScalarKind)
        ensures
            k == self.spec_kind(),
    {
        match self {
            WundergraphScalarValue::SmallInt(_) => ScalarKind::SmallInt,
            WundergraphScalarValue::Int(_) => ScalarKind::Int,
            WundergraphScalarValue::BigInt(_) => ScalarKind::BigInt,
            WundergraphScalarValue::Float(_) => ScalarKind::Float,
            WundergraphScalarValue::Double(_) => ScalarKind::Double,
            WundergraphScalarValue::String(_) => ScalarKind::String,
            WundergraphScalarValue::Boolean(_) => ScalarKind::Boolean,
            WundergraphScalarValue::Id(_) => ScalarKind::Id,
            WundergraphScalarValue::Timestamp(_, _) => ScalarKind::Timestamp,
            WundergraphScalarValue::Date(_) => ScalarKind::Date,
            WundergraphScalarValue::Uuid(_) => ScalarKind::Uuid,
        }
    }

    /// A copy whose mathematical value equals this one's.
    pub fn duplicate(&self) -> (r: Self)
        ensures
            r@ == self@,
    {
        match self {
            WundergraphScalarValue::SmallInt(i) => WundergraphScalarValue::SmallInt(*i),
            WundergraphScalarValue::Int(i) => WundergraphScalarValue::Int(*i),
            WundergraphScalarValue::BigInt(i) => WundergraphScalarValue::BigInt(*i),
            WundergraphScalarValue::Float(b) => WundergraphScalarValue::Float(*b),
            WundergraphScalarValue::Double(b) => WundergraphScalarValue::Double(*b),
            WundergraphScalarValue::String(s) => WundergraphScalarValue::String(s.clone()),
            WundergraphScalarValue::Boolean(b) => WundergraphScalarValue::Boolean(*b),
            WundergraphScalarValue::Id(s) => WundergraphScalarValue::Id(s.clone()),
            WundergraphScalarValue::Timestamp(s, n) => WundergraphScalarValue::Timestamp(*s, *n),
            WundergraphScalarValue::Date(d) => WundergraphScalarValue::Date(*d),
            WundergraphScalarValue::Uuid(u) => WundergraphScalarValue::Uuid(*u),
        }
    }

    /// The integer seen through a 32-bit window: `SmallInt` widens, `Int` is
    /// returned as is, every other kind gives nothing.
    pub fn as_int(&self) -> (r: Option<i32>)
        ensures
            r == match self@ {
                ScalarV::SmallInt(i) => Some(i as i32),
                ScalarV::Int(i) => Some(i),
                _ => None::<i32>,
            },
    {
        match self {
            WundergraphScalarValue::SmallInt(i) => Some(*i as i32),
            WundergraphScalarValue::Int(i) => Some(*i),
            _ => None,
        }
    }

    /// The text of a `String` value; every other kind gives nothing.
    pub fn as_string(&self) -> (r: Option<String>)
        ensures
            match self@ {
                ScalarV::String(s) => r is Some && r.unwrap()@ == s,
                _ => r is None,
            },
    {
        match self {
            WundergraphScalarValue::String(s) => Some(s.clone()),
            _ => None,
        }
    }

    /// The truth value of a `Boolean`; every other kind gives nothing.
    pub fn as_boolean(&self) -> (r: Option<bool>)
        ensures
            r == match self@ {
                ScalarV::Boolean(b) => Some(b),
                _ => None::<bool>,
            },
    {
        match self {
            WundergraphScalarValue::Boolean(b) => Some(*b),
            _ => None,
        }
    }

    /// Wraps a borrowed string as a `String` scalar.
    pub fn of_str(s: &str) -> (r: Self)
        ensures
            r@ == ScalarV::String(s@),
    {
        WundergraphScalarValue::String(s.to_owned())
    }
}

/// Chooses the narrowest integer representation for deserialized numbers and
/// wraps the other primitive shapes; a deserializer's visitor delegates here.
///
/// Numbers that fit a narrower declared kind are narrowed so that later
/// widening during decode can recover the declared kind. An unsigned number
/// beyond `i64`'s range has no integer representation in the value model; the
/// caller falls back to its floating-point representation.
#[derive(Clone, Copy, Debug)]
pub struct WundergraphScalarVisitor;

impl Default for WundergraphScalarVisitor {
    fn default() -> (r: Self)
        ensures
            r == WundergraphScalarVisitor,
    {
        WundergraphScalarVisitor
    }
}

/// The value a visited 16-bit integer becomes.
pub open spec fn spec_visit_i16(v: i16) -> ScalarV {
    ScalarV::SmallInt(v)
}

/// The value a visited 32-bit integer becomes: narrowed when it fits.
pub open spec fn spec_visit_i32(v: i32) -> ScalarV {
    if i16::MIN <= v <= i16::MAX {
        ScalarV::SmallInt(v as i16)
    } else {
        ScalarV::Int(v)
    }
}

/// The value a visited 64-bit integer becomes: narrowed as far as it fits.
pub open spec fn spec_visit_i64(v: i64) -> ScalarV {
    if i32::MIN <= v <= i32::MAX {
        spec_visit_i32(v as i32)
    } else {
        ScalarV::BigInt(v)
    }
}

/// The value a visited unsigned 64-bit integer becomes, when it has one.
pub open spec fn spec_visit_u64(v: u64) -> Option<ScalarV> {
    if v <= i64::MAX as u64 {
        Some(spec_visit_i64(v as i64))
    } else {
        None
    }
}

impl WundergraphScalarVisitor {
    /// Wraps a visited boolean.
    pub fn visit_bool(&self, value: bool) -> (r: WundergraphScalarValue)
        ensures
            r@ == ScalarV::Boolean(value),
    {
        WundergraphScalarValue::Boolean(value)
    }

    /// Wraps a visited 16-bit integer.
    pub fn visit_i16(&self, value: i16) -> (r: WundergraphScalarValue)
        ensures
            r@ == spec_visit_i16(value),
    {
        WundergraphScalarValue::SmallInt(value)
    }

    /// Narrows a visited 32-bit integer when it fits 16 bits.
    pub fn visit_i32(&self, value: i32) -> (r: WundergraphScalarValue)
        ensures
            r@ == spec_visit_i32(value),
    {
        if i16::MIN as i32 <= value && value <= i16::MAX as i32 {
            self.visit_i16(value as i16)
        } else {
            WundergraphScalarValue::Int(value)
        }
    }

    /// Narrows a visited 64-bit integer as far as it fits.
    pub fn visit_i64(&self, value: i64) -> (r: WundergraphScalarValue)
        ensures
            r@ == spec_visit_i64(value),
    {
        if i32::MIN as i64 <= value && value <= i32::MAX as i64 {
            self.visit_i32(value as i32)
        } else {
            WundergraphScalarValue::BigInt(value)
        }
    }

    /// Narrows a visited unsigned 32-bit integer, which always fits 64 bits.
    pub fn visit_u32(&self, value: u32) -> (r: WundergraphScalarValue)
        ensures
            r@ == spec_visit_i64(value as i64),
    {
        self.visit_i64(value as i64)
    }

    /// Narrows a visited unsigned 64-bit integer; beyond `i64`'s range the
    /// caller must fall back to a floating-point representation.
    pub fn visit_u64(&self, value: u64) -> (r: Option<WundergraphScalarValue>)
        ensures
            match spec_visit_u64(value) {
                Some(v) => r is Some && r.unwrap()@ == v,
                None => r is None,
            },
    {
        if value <= i64::MAX as u64 {
            Some(self.visit_i64(value as i64))
        } else {
            None
        }
    }

    /// Wraps a visited 32-bit floating-point bit pattern.
    pub fn visit_float_bits(&self, bits: u32) -> (r: WundergraphScalarValue)
        ensures
            r@ == ScalarV::Float(bits),
    {
        WundergraphScalarValue::Float(bits)
    }

    /// Wraps a visited 64-bit floating-point bit pattern.
    pub fn visit_double_bits(&self, bits: u64) -> (r: WundergraphScalarValue)
        ensures
            r@ == ScalarV::Double(bits),
    {
        WundergraphScalarValue::Double(bits)
    }

    /// Wraps a visited borrowed string.
    pub fn visit_str(&self, value: &str) -> (r: WundergraphScalarValue)
        ensures
            r@ == ScalarV::String(value@),
    {
        WundergraphScalarValue::of_str(value)
    }

    /// Wraps a visited owned string.
    pub fn visit_string(&self, value: String) -> (r: WundergraphScalarValue)
        ensures
            r@ == ScalarV::String(value@),
    {
        WundergraphScalarValue::String(value)
    }
}

/// Whether two scalars carry the same mathematical value.
pub fn scalar_eq(a: &WundergraphScalarValue, b: &WundergraphScalarValue) -> (r: bool)
    ensures
        r == (a@ == b@),
{
    match (a, b) {
        (WundergraphScalarValue::SmallInt(x), WundergraphScalarValue::SmallInt(y)) => x == y,
        (WundergraphScalarValue::Int(x), WundergraphScalarValue::Int(y)) => x == y,
        (WundergraphScalarValue::BigInt(x), WundergraphScalarValue::BigInt(y)) => x == y,
        (WundergraphScalarValue::Float(x), WundergraphScalarValue::Float(y)) => x == y,
        (WundergraphScalarValue::Double(x), WundergraphScalarValue::Double(y)) => x == y,
        (WundergraphScalarValue::String(x), WundergraphScalarValue::String(y)) => x.eq(y),
        (WundergraphScalarValue::Boolean(x), WundergraphScalarValue::Boolean(y)) => x == y,
        (WundergraphScalarValue::Id(x), WundergraphScalarValue::Id(y)) => x.eq(y),
        (WundergraphScalarValue::Timestamp(xs, xn), WundergraphScalarValue::Timestamp(ys, yn)) => {
            xs == ys && xn == yn
        },
        (WundergraphScalarValue::Date(x), WundergraphScalarValue::Date(y)) => x == y,
        (WundergraphScalarValue::Uuid(x), WundergraphScalarValue::Uuid(y)) => x == y,
        _ => false,
    }
}

} // verus!
