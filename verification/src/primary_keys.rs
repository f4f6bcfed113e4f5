use crate::decode::{decode, spec_decode, spec_scalars_v};
use crate::filter::{obj_field, spec_obj_field};
use crate::input::InputValue;
use crate::scalar::{ScalarV, WundergraphScalarValue};
use crate::table::TableInfo;
use vstd::prelude::*;
use vstd::string::StringExecFns;

verus! {

/// The name under which a table's key argument object is registered: the
/// table's name followed by `Key`.
#[derive(Debug)]
pub struct PrimaryKeyInfo {
    pub name: String,
}

impl PrimaryKeyInfo {
    /// Builds the key-argument type name for one table.
    pub fn new_for(table: &TableInfo) -> (r: PrimaryKeyInfo)
        ensures
            r.name@ == table.name@ + "Key"@,
    {
        PrimaryKeyInfo { name: table.name.clone().concat("Key") }
    }
}

/// One decoded primary key: a value per key column, in declared key order.
#[derive(Debug)]
pub struct PrimaryKeyArgument {
    pub values: Vec<WundergraphScalarValue>,
}

/// What decoding the key columns from position `k` on out of a key object
/// yields: every named sub-field must be present and decode at its column's
/// kind — a partial key is rejected, never defaulted.
pub open spec fn spec_decode_key_fields(table: TableInfo, v: InputValue, k: int) -> Option<
    Seq<ScalarV>,
>
    decreases table.primary_key@.len() - k,
{
    if k < 0 || k >= table.primary_key@.len() {
        Some(Seq::empty())
    } else {
        let col = table.primary_key@[k] as int;
        match v {
            InputValue::Object(fields) => match spec_obj_field(fields@, table.columns@[col].name@) {
                Some(fv) => match spec_decode(table.columns@[col].kind, fv) {
                    Some(x) => match spec_decode_key_fields(table, v, k + 1) {
                        Some(rest) => Some(seq![x] + rest),
                        None => None,
                    },
                    None => None,
                },
                None => None,
            },
            _ => None,
        }
    }
}

/// What decoding a key argument yields: a single-column key decodes the
/// column's scalar directly, a composite key requires an object naming every
/// key column.
pub open spec fn spec_decode_key(table: TableInfo, v: InputValue) -> Option<Seq<ScalarV>> {
    if table.primary_key@.len() == 1 {
        match spec_decode(table.columns@[table.primary_key@[0] as int].kind, v) {
            Some(x) => Some(seq![x]),
            None => None,
        }
    } else {
        spec_decode_key_fields(table, v, 0)
    }
}

/// What encoding a decoded key yields: the exact inverse shape — the bare
/// scalar for a single-column key, an object naming every key column in
/// declared order for a composite key.
pub open spec fn spec_encode_key(table: TableInfo, values: Seq<ScalarV>) -> crate::input::InputV {
    if table.primary_key@.len() == 1 {
        crate::input::InputV::Scalar(values[0])
    } else {
        crate::input::InputV::Object(
            Seq::new(
                table.primary_key@.len(),
                |k: int|
                    (table.columns@[table.primary_key@[k] as int].name@, crate::input::InputV::Scalar(values[k])),
            ),
        )
    }
}

impl PrimaryKeyArgument {
    /// Decodes a `primaryKey` argument for one table: all-or-nothing.
    pub fn from_look_ahead(table: &TableInfo, v: &InputValue) -> (r: Option<PrimaryKeyArgument>)
        requires
            forall|k: int|
                0 <= k < table.primary_key@.len() ==> (#[trigger] table.primary_key@[k])
                    < table.columns@.len(),
        ensures
            match r {
                Some(arg) => spec_decode_key(*table, *v) == Some(spec_scalars_v(arg.values@))
                    && arg.values@.len() == table.primary_key@.len(),
                None => spec_decode_key(*table, *v) is None,
            },
    {
        if table.primary_key.len() == 1 {
            let col = table.primary_key[0];
            match decode(table.columns[col].kind, v) {
                Some(x) => {
                    let values = vec![x];
                    proof {
                        assert(spec_scalars_v(values@) =~= seq![values@[0]@]);
                    }
                    Some(PrimaryKeyArgument { values })
                },
                None => None,
            }
        } else {
            let mut values: Vec<WundergraphScalarValue> = Vec::new();
            let mut k: usize = 0;
            proof {
                assert(spec_scalars_v(values@) + Seq::<ScalarV>::empty() =~= spec_scalars_v(
                    values@,
                ));
            }
            while k < table.primary_key.len()
                invariant
                    k <= table.primary_key@.len(),
                    k == values@.len(),
                    table.primary_key@.len() != 1,
                    forall|k2: int|
                        0 <= k2 < table.primary_key@.len() ==> (#[trigger] table.primary_key@[k2])
                            < table.columns@.len(),
                    match spec_decode_key_fields(*table, *v, k as int) {
                        Some(rest) => spec_decode_key_fields(*table, *v, 0) == Some(
                            spec_scalars_v(values@) + rest,
                        ),
                        None => spec_decode_key_fields(*table, *v, 0) is None,
                    },
                decreases table.primary_key@.len() - k,
            {
                let col = table.primary_key[k];
                let fv = match obj_field(v, table.columns[col].name.as_str()) {
                    Some(fv) => fv,
                    None => {
                        return None;
                    },
                };
                match decode(table.columns[col].kind, fv) {
                    Some(x) => {
                        let ghost pre = values@;
                        values.push(x);
                        proof {
                            if spec_decode_key_fields(*table, *v, k + 1) is Some {
                                let rest = spec_decode_key_fields(*table, *v, k + 1).unwrap();
                                assert(spec_scalars_v(pre) + (seq![x@] + rest) =~= spec_scalars_v(
                                    values@,
                                ) + rest);
                            }
                        }
                    },
                    None => {
                        return None;
                    },
                }
                k = k + 1;
            }
            proof {
                assert(spec_scalars_v(values@) + Seq::<ScalarV>::empty() =~= spec_scalars_v(
                    values@,
                ));
            }
            Some(PrimaryKeyArgument { values })
        }
    }

    /// Encodes a decoded key back into its external argument shape.
    pub fn to_input_value(&self, table: &TableInfo) -> (r: InputValue)
        requires
            self.values@.len() == table.primary_key@.len(),
            table.primary_key@.len() >= 1,
            forall|k: int|
                0 <= k < table.primary_key@.len() ==> (#[trigger] table.primary_key@[k])
                    < table.columns@.len(),
        ensures
            r@ == spec_encode_key(*table, spec_scalars_v(self.values@)),
    {
        if table.primary_key.len() == 1 {
            InputValue::Scalar(self.values[0].duplicate())
        } else {
            let mut fields: Vec<(String, InputValue)> = Vec::new();
            let mut k: usize = 0;
            while k < table.primary_key.len()
                invariant
                    k <= table.primary_key@.len(),
                    k == fields@.len(),
                    self.values@.len() == table.primary_key@.len(),
                    forall|k2: int|
                        0 <= k2 < table.primary_key@.len() ==> (#[trigger] table.primary_key@[k2])
                            < table.columns@.len(),
                    forall|k2: int|
                        0 <= k2 < k ==> (#[trigger] fields@[k2]).0@ == table.columns@[
                        table.primary_key@[k2] as int].name@ && fields@[k2].1@
                            == crate::input::InputV::Scalar(self.values@[k2]@),
                decreases table.primary_key@.len() - k,
            {
                let col = table.primary_key[k];
                fields.push(
                    (table.columns[col].name.clone(), InputValue::Scalar(self.values[k].duplicate())),
                );
                k = k + 1;
            }
            let r = InputValue::Object(fields);
            proof {
                assert(r@->Object_0 =~= spec_encode_key(
                    *table,
                    spec_scalars_v(self.values@),
                )->Object_0);
            }
            r
        }
    }
}

/// Whether an external key literal is in canonical form for a table: the bare
/// scalar of the declared kind for a single-column key; for a composite key an
/// object naming exactly the key columns in declared order, each a scalar of
/// its declared kind.
pub open spec fn spec_canonical_key(table: TableInfo, v: InputValue) -> bool {
    if table.primary_key@.len() == 1 {
        match v {
            InputValue::Scalar(sv) => sv.spec_kind() == table.columns@[table.primary_key@[0] as int].kind,
            _ => false,
        }
    } else {
        match v {
            InputValue::Object(fields) => {
                &&& fields@.len() == table.primary_key@.len()
                &&& forall|k: int|
                    0 <= k < fields@.len() ==> (#[trigger] fields@[k]).0@ == table.columns@[
                    table.primary_key@[k] as int].name@ && fields@[k].1 is Scalar
                        && fields@[k].1->Scalar_0.spec_kind() == table.columns@[
                    table.primary_key@[k] as int].kind
            },
            _ => false,
        }
    }
}

/// Decoding a scalar at its own kind hands the scalar back unchanged.
pub proof fn lemma_decode_exact(kind: crate::scalar::ScalarKind, sv: ScalarV)
    requires
        crate::database::spec_scalar_v_kind(sv) == kind,
    ensures
        crate::decode::spec_decode_scalar(kind, sv) == Some(sv),
{
}

/// The pairwise facts a well-formed table gives about its key columns: the
/// names of distinct key columns differ.
pub open spec fn spec_pk_cols_wf(table: TableInfo) -> bool {
    &&& 1 <= table.primary_key@.len()
    &&& forall|k: int|
        0 <= k < table.primary_key@.len() ==> (#[trigger] table.primary_key@[k])
            < table.columns@.len()
    &&& forall|k1: int, k2: int|
        0 <= k1 < table.primary_key@.len() && 0 <= k2 < table.primary_key@.len() && k1 != k2
            ==> table.columns@[(#[trigger] table.primary_key@[k1]) as int].name@
            != table.columns@[(#[trigger] table.primary_key@[k2]) as int].name@
}

/// Key round-trip, decoding first: a canonical external key decodes, and
/// re-encoding the decoded key gives back the same literal.
pub proof fn lemma_key_decode_encode(table: TableInfo, v: InputValue)
    requires
        spec_pk_cols_wf(table),
        spec_canonical_key(table, v),
    ensures
        spec_decode_key(table, v) is Some,
        spec_encode_key(table, spec_decode_key(table, v).unwrap()) == v@,
{
    if table.primary_key@.len() == 1 {
        let sv = v->Scalar_0;
        lemma_decode_exact(table.columns@[table.primary_key@[0] as int].kind, sv@);
        assert(spec_decode_key(table, v) == Some(seq![sv@]));
        assert(spec_encode_key(table, seq![sv@]) == crate::input::InputV::Scalar(sv@));
    } else {
        let fields = v->Object_0;
        lemma_key_fields_decode(table, v, 0);
        let values = spec_decode_key_fields(table, v, 0).unwrap();
        assert(v@->Object_0.len() == fields@.len());
        assert forall|k: int| 0 <= k < table.primary_key@.len() implies spec_encode_key(
            table,
            values,
        )->Object_0[k] == v@->Object_0[k] by {
            assert(fields@[k].1@ == crate::input::InputV::Scalar(fields@[k].1->Scalar_0@));
            assert(values[k] == fields@[k].1->Scalar_0@);
            assert(v@->Object_0[k] == (fields@[k].0@, fields@[k].1@));
        }
        assert(spec_encode_key(table, values)->Object_0 =~= v@->Object_0);
    }
}

/// Each suffix of a canonical composite key decodes to exactly its scalars.
pub proof fn lemma_key_fields_decode(table: TableInfo, v: InputValue, k: int)
    requires
        spec_pk_cols_wf(table),
        spec_canonical_key(table, v),
        table.primary_key@.len() != 1,
        0 <= k <= table.primary_key@.len(),
    ensures
        spec_decode_key_fields(table, v, k) is Some,
        spec_decode_key_fields(table, v, k).unwrap() == Seq::new(
            (table.primary_key@.len() - k) as nat,
            |j: int| v->Object_0@[k + j].1->Scalar_0@,
        ),
    decreases table.primary_key@.len() - k,
{
    let fields = v->Object_0;
    if k < table.primary_key@.len() {
        let col = table.primary_key@[k] as int;
        assert forall|j: int|
            0 <= j < k implies (#[trigger] fields@[j]).0@ != table.columns@[col].name@ by {
            assert(fields@[j].0@ == table.columns@[table.primary_key@[j] as int].name@);
        }
        crate::filter::lemma_obj_field_of(fields@, table.columns@[col].name@, k);
        lemma_decode_exact(table.columns@[col].kind, fields@[k].1->Scalar_0@);
        lemma_key_fields_decode(table, v, k + 1);
        assert(spec_decode_key_fields(table, v, k).unwrap() =~= Seq::new(
            (table.primary_key@.len() - k) as nat,
            |j: int| fields@[k + j].1->Scalar_0@,
        ));
    } else {
        assert(spec_decode_key_fields(table, v, k).unwrap() =~= Seq::new(
            0nat,
            |j: int| fields@[k + j].1->Scalar_0@,
        ));
    }
}

/// Key round-trip, encoding first: re-decoding an encoded key of the declared
/// kinds gives back the same values.
pub proof fn lemma_key_encode_decode(table: TableInfo, values: Seq<ScalarV>, v: InputValue)
    requires
        spec_pk_cols_wf(table),
        values.len() == table.primary_key@.len(),
        forall|k: int|
            0 <= k < values.len() ==> crate::database::spec_scalar_v_kind(#[trigger] values[k])
                == table.columns@[table.primary_key@[k] as int].kind,
        v@ == spec_encode_key(table, values),
    ensures
        spec_decode_key(table, v) == Some(values),
{
    if table.primary_key@.len() == 1 {
        match v {
            InputValue::Scalar(sv) => {
                assert(sv@ == values[0]);
                lemma_decode_exact(table.columns@[table.primary_key@[0] as int].kind, sv@);
                assert(Some(seq![sv@]) == Some::<Seq<ScalarV>>(values)) by {
                    assert(seq![sv@] =~= values);
                }
            },
            _ => {
                assert(false);
            },
        }
    } else {
        match v {
            InputValue::Object(fields) => {
                assert(v@->Object_0.len() == fields@.len());
                assert(fields@.len() == table.primary_key@.len());
                assert forall|k: int| 0 <= k < fields@.len() implies (#[trigger] fields@[k]).0@
                    == table.columns@[table.primary_key@[k] as int].name@ && fields@[k].1
                    is Scalar && fields@[k].1->Scalar_0@ == values[k] by {
                    assert(v@->Object_0[k] == (
                        table.columns@[table.primary_key@[k] as int].name@,
                        crate::input::InputV::Scalar(values[k]),
                    ));
                    match fields@[k].1 {
                        InputValue::Scalar(_) => {},
                        _ => {
                            assert(fields@[k].1@ == crate::input::InputV::Scalar(values[k]));
                        },
                    }
                }
                lemma_key_fields_decode_values(table, v, values, 0);
            },
            _ => {
                assert(v@ is Object);
                assert(false);
            },
        }
    }
}

/// Each suffix of an object carrying the key columns' scalars decodes to
/// exactly those scalars.
pub proof fn lemma_key_fields_decode_values(
    table: TableInfo,
    v: InputValue,
    values: Seq<ScalarV>,
    k: int,
)
    requires
        spec_pk_cols_wf(table),
        v is Object,
        values.len() == table.primary_key@.len(),
        v->Object_0@.len() == table.primary_key@.len(),
        forall|k2: int|
            0 <= k2 < v->Object_0@.len() ==> (#[trigger] v->Object_0@[k2]).0@ == table.columns@[
            table.primary_key@[k2] as int].name@ && v->Object_0@[k2].1 is Scalar
                && v->Object_0@[k2].1->Scalar_0@ == values[k2],
        forall|k2: int|
            0 <= k2 < values.len() ==> crate::database::spec_scalar_v_kind(#[trigger] values[k2])
                == table.columns@[table.primary_key@[k2] as int].kind,
        0 <= k <= table.primary_key@.len(),
    ensures
        spec_decode_key_fields(table, v, k) == Some(values.skip(k)),
    decreases table.primary_key@.len() - k,
{
    let fields = v->Object_0;
    if k < table.primary_key@.len() {
        let col = table.primary_key@[k] as int;
        assert forall|j: int|
            0 <= j < k implies (#[trigger] fields@[j]).0@ != table.columns@[col].name@ by {
            assert(fields@[j].0@ == table.columns@[table.primary_key@[j] as int].name@);
        }
        crate::filter::lemma_obj_field_of(fields@, table.columns@[col].name@, k);
        lemma_decode_exact(table.columns@[col].kind, fields@[k].1->Scalar_0@);
        lemma_key_fields_decode_values(table, v, values, k + 1);
        assert(seq![values[k]] + values.skip(k + 1) =~= values.skip(k));
    } else {
        assert(values.skip(k) =~= Seq::<ScalarV>::empty());
    }
}

} // verus!
