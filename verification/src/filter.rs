use crate::database::{spec_cell_v, spec_row_v, spec_row_wf, Database, Row};
use crate::order::{spec_cmp_scalar, cmp_scalars, Cmp};
use crate::scalar::{scalar_eq, ScalarV, WundergraphScalarValue};
use crate::decode::{decode, decode_list, spec_decode, spec_decode_list};
use crate::error::WundergraphError;
use crate::input::InputValue;
use crate::order::str_eq;
use crate::scalar::ScalarKind;
use crate::table::{lemma_association_index_props, lemma_column_index_props, spec_association_index, spec_column_index, AssociationDirection, Schema};
use vstd::prelude::*;

verus! {

/// The operators applied to one column; every present operator constrains the
/// column, absent ones compile away. The operator set is the same for every
/// scalar kind; values of different kinds never compare equal or ordered.
#[derive(Debug)]
pub struct ColumnFilterOps {
    pub eq: Option<WundergraphScalarValue>,
    pub not_eq: Option<WundergraphScalarValue>,
    pub lt: Option<WundergraphScalarValue>,
    pub lt_eq: Option<WundergraphScalarValue>,
    pub gt: Option<WundergraphScalarValue>,
    pub gt_eq: Option<WundergraphScalarValue>,
    pub eq_any: Option<Vec<WundergraphScalarValue>>,
    pub is_null: Option<bool>,
}

/// A sub-filter on a declared association: the parent row qualifies when a
/// related row matching the nested filter exists — or, for a to-one relation
/// over a nullable foreign key, when the key is null.
#[derive(Debug)]
pub struct RelationFilter {
    pub association: usize,
    pub nested: FilterWrapper,
}

/// Builds one column's operator tuple out of its filter sub-object.
#[derive(Debug)]
pub struct ColumnFilterConverter;

/// Builds one association's relation sub-filter out of its nested filter
/// object.
#[derive(Debug)]
pub struct NonColumnFilterConveter;

/// Builds a whole table's compiled filter out of a filter argument object.
#[derive(Debug)]
pub struct FilterConverter;

/// What a converter compiles a filter fragment into.
pub trait CreateFilter {
    type Filter;
}

impl CreateFilter for ColumnFilterConverter {
    type Filter = ColumnFilterOps;
}

impl CreateFilter for NonColumnFilterConveter {
    type Filter = RelationFilter;
}

impl CreateFilter for FilterConverter {
    type Filter = FilterWrapper;
}

/// The compiled filter of one table: a fixed-order tuple with one optional
/// entry per declared column and one per declared association. The `table`
/// field restricts the predicate to its originating table.
#[derive(Debug)]
pub struct FilterWrapper {
    pub table: usize,
    pub columns: Vec<Option<ColumnFilterOps>>,
    pub relations: Vec<Option<RelationFilter>>,
}

/// Whether one cell satisfies one column's operators.
pub open spec fn spec_eval_ops(ops: ColumnFilterOps, cell: Option<ScalarV>) -> bool {
    &&& match ops.eq {
        Some(v) => cell is Some && cell.unwrap() == v@,
        None => true,
    }
    &&& match ops.not_eq {
        Some(v) => cell is Some && cell.unwrap() != v@,
        None => true,
    }
    &&& match ops.lt {
        Some(v) => cell is Some && spec_cmp_scalar(cell.unwrap(), v@) == Some(Cmp::Lt),
        None => true,
    }
    &&& match ops.lt_eq {
        Some(v) => cell is Some && (spec_cmp_scalar(cell.unwrap(), v@) == Some(Cmp::Lt)
            || spec_cmp_scalar(cell.unwrap(), v@) == Some(Cmp::Eq)),
        None => true,
    }
    &&& match ops.gt {
        Some(v) => cell is Some && spec_cmp_scalar(cell.unwrap(), v@) == Some(Cmp::Gt),
        None => true,
    }
    &&& match ops.gt_eq {
        Some(v) => cell is Some && (spec_cmp_scalar(cell.unwrap(), v@) == Some(Cmp::Gt)
            || spec_cmp_scalar(cell.unwrap(), v@) == Some(Cmp::Eq)),
        None => true,
    }
    &&& match ops.eq_any {
        Some(list) => cell is Some && exists|i: int|
            0 <= i < list@.len() && (#[trigger] list@[i])@ == cell.unwrap(),
        None => true,
    }
    &&& match ops.is_null {
        Some(b) => (cell is None) == b,
        None => true,
    }
}

/// Whether a row satisfies every present column sub-filter.
pub open spec fn spec_eval_columns(
    cols: Seq<Option<ColumnFilterOps>>,
    row: Seq<Option<ScalarV>>,
) -> bool {
    forall|c: int|
        0 <= c < cols.len() ==> match #[trigger] cols[c] {
            Some(ops) => spec_eval_ops(ops, row[c]),
            None => true,
        }
}

/// Whether a row satisfies a compiled filter: every present column sub-filter
/// and every present relation sub-filter hold.
pub open spec fn spec_eval_filter(
    db: Database,
    schema: Schema,
    f: FilterWrapper,
    row: Seq<Option<ScalarV>>,
) -> bool
    decreases f, f.relations@.len() + 1, 0int,
{
    &&& spec_eval_columns(f.columns@, row)
    &&& spec_eval_relations(db, schema, f, 0, row)
}

/// Whether a row satisfies the relation sub-filters from position `i` on.
pub open spec fn spec_eval_relations(
    db: Database,
    schema: Schema,
    f: FilterWrapper,
    i: int,
    row: Seq<Option<ScalarV>>,
) -> bool
    decreases f, f.relations@.len() - i, 0int,
{
    if i < 0 || i >= f.relations@.len() {
        true
    } else {
        &&& match f.relations@[i] {
            Some(rf) => spec_eval_relation(db, schema, f.table as int, rf.association as int, rf.nested, row),
            None => true,
        }
        &&& spec_eval_relations(db, schema, f, i + 1, row)
    }
}

/// Whether the `j`-th row of the target table joins on `key` at column `col`
/// and satisfies the nested filter.
pub open spec fn spec_child_match(
    db: Database,
    schema: Schema,
    nested: FilterWrapper,
    target: int,
    col: int,
    key: Option<ScalarV>,
    j: int,
) -> bool
    decreases nested, nested.relations@.len() + 2, 0int,
{
    let child = spec_row_v(db.tables@[target]@[j]);
    child[col] == key && spec_eval_filter(db, schema, nested, child)
}

/// Whether a row satisfies one relation sub-filter: a related row matching the
/// nested filter is reachable from the row's join key, or — for a to-one
/// relation over a nullable foreign key — the key is null.
pub open spec fn spec_any_child_match(
    db: Database,
    schema: Schema,
    nested: FilterWrapper,
    target: int,
    col: int,
    key: Option<ScalarV>,
    j: int,
) -> bool
    decreases nested, nested.relations@.len() + 3, db.tables@[target]@.len() - j,
{
    if j < 0 || j >= db.tables@[target]@.len() {
        false
    } else {
        spec_child_match(db, schema, nested, target, col, key, j) || spec_any_child_match(
            db,
            schema,
            nested,
            target,
            col,
            key,
            j + 1,
        )
    }
}

/// Whether a row satisfies one relation sub-filter: a related row matching the
/// nested filter is reachable from the row's join key, or — for a to-one
/// relation over a nullable foreign key — the key is null.
pub open spec fn spec_eval_relation(
    db: Database,
    schema: Schema,
    t: int,
    assoc: int,
    nested: FilterWrapper,
    row: Seq<Option<ScalarV>>,
) -> bool
    decreases nested, nested.relations@.len() + 4, 0int,
{
    if schema.tables@[t].associations@[assoc].direction is ToMany {
        row[schema.tables@[t].primary_key@[0] as int] is Some && spec_any_child_match(
            db,
            schema,
            nested,
            schema.tables@[t].associations@[assoc].target_table as int,
            schema.tables@[t].associations@[assoc].foreign_key as int,
            row[schema.tables@[t].primary_key@[0] as int],
            0,
        )
    } else {
        (row[schema.tables@[t].associations@[assoc].foreign_key as int] is None
            && schema.tables@[t].columns@[schema.tables@[t].associations@[assoc].foreign_key
            as int].nullable) || (row[schema.tables@[t].associations@[assoc].foreign_key as int]
            is Some && spec_any_child_match(
            db,
            schema,
            nested,
            schema.tables@[t].associations@[assoc].target_table as int,
            schema.tables@[schema.tables@[t].associations@[assoc].target_table
                as int].primary_key@[0] as int,
            row[schema.tables@[t].associations@[assoc].foreign_key as int],
            0,
        ))
    }
}

/// Well-formedness of a compiled filter over its table: full declared arity
/// for both tuples, each relation entry at its own association's position,
/// nested filters well formed over the association's target table.
pub open spec fn spec_filter_wf(schema: Schema, t: int, f: FilterWrapper) -> bool
    decreases f, f.relations@.len() + 1,
{
    &&& f.table == t
    &&& 0 <= t < schema.tables@.len()
    &&& f.columns@.len() == schema.tables@[t].columns@.len()
    &&& f.relations@.len() == schema.tables@[t].associations@.len()
    &&& spec_filter_wf_relations(schema, t, f, 0)
}

/// Well-formedness of the relation entries from position `i` on.
pub open spec fn spec_filter_wf_relations(schema: Schema, t: int, f: FilterWrapper, i: int) -> bool
    decreases f, f.relations@.len() - i,
{
    if i < 0 || i >= f.relations@.len() {
        true
    } else {
        &&& match f.relations@[i] {
            Some(rf) => rf.association == i && spec_filter_wf(
                schema,
                schema.tables@[t].associations@[i].target_table as int,
                rf.nested,
            ),
            None => true,
        }
        &&& spec_filter_wf_relations(schema, t, f, i + 1)
    }
}

/// What the relation entries of a well-formed filter hold at one position.
pub proof fn lemma_filter_wf_relations_at(schema: Schema, t: int, f: FilterWrapper, lo: int, i: int)
    requires
        spec_filter_wf_relations(schema, t, f, lo),
        0 <= lo <= i < f.relations@.len(),
    ensures
        match f.relations@[i] {
            Some(rf) => rf.association == i && spec_filter_wf(
                schema,
                schema.tables@[t].associations@[i].target_table as int,
                rf.nested,
            ),
            None => true,
        },
    decreases i - lo,
{
    if lo < i {
        lemma_filter_wf_relations_at(schema, t, f, lo + 1, i);
    }
}

/// Whether two cells carry the same mathematical value.
pub fn cells_eq(a: &Option<WundergraphScalarValue>, b: &Option<WundergraphScalarValue>) -> (r: bool)
    ensures
        r == (spec_cell_v(*a) == spec_cell_v(*b)),
{
    match (a, b) {
        (None, None) => true,
        (Some(x), Some(y)) => scalar_eq(x, y),
        _ => false,
    }
}

/// Evaluates one column's operators against one cell.
pub fn eval_ops(ops: &ColumnFilterOps, cell: &Option<WundergraphScalarValue>) -> (r: bool)
    ensures
        r == spec_eval_ops(*ops, spec_cell_v(*cell)),
{
    let mut ok = true;
    match &ops.eq {
        Some(v) => {
            ok = ok && match cell {
                Some(cv) => scalar_eq(cv, v),
                None => false,
            };
        },
        None => {},
    }
    match &ops.not_eq {
        Some(v) => {
            ok = ok && match cell {
                Some(cv) => !scalar_eq(cv, v),
                None => false,
            };
        },
        None => {},
    }
    match &ops.lt {
        Some(v) => {
            ok = ok && match cell {
                Some(cv) => matches!(cmp_scalars(cv, v), Some(Cmp::Lt)),
                None => false,
            };
        },
        None => {},
    }
    match &ops.lt_eq {
        Some(v) => {
            ok = ok && match cell {
                Some(cv) => matches!(cmp_scalars(cv, v), Some(Cmp::Lt) | Some(Cmp::Eq)),
                None => false,
            };
        },
        None => {},
    }
    match &ops.gt {
        Some(v) => {
            ok = ok && match cell {
                Some(cv) => matches!(cmp_scalars(cv, v), Some(Cmp::Gt)),
                None => false,
            };
        },
        None => {},
    }
    match &ops.gt_eq {
        Some(v) => {
            ok = ok && match cell {
                Some(cv) => matches!(cmp_scalars(cv, v), Some(Cmp::Gt) | Some(Cmp::Eq)),
                None => false,
            };
        },
        None => {},
    }
    match &ops.eq_any {
        Some(list) => {
            match cell {
                Some(cv) => {
                    let mut found = false;
                    let mut i: usize = 0;
                    while i < list.len()
                        invariant
                            i <= list@.len(),
                            found == exists|j: int|
                                0 <= j < i && (#[trigger] list@[j])@ == cv@,
                        decreases list@.len() - i,
                    {
                        if scalar_eq(&list[i], cv) {
                            found = true;
                        }
                        i = i + 1;
                    }
                    ok = ok && found;
                },
                None => {
                    ok = false;
                },
            }
        },
        None => {},
    }
    match &ops.is_null {
        Some(b) => {
            ok = ok && (cell.is_none() == *b);
        },
        None => {},
    }
    ok
}

/// Evaluates one relation sub-filter against one row, scanning the target
/// table for a matching related row.
#[verifier::rlimit(50)]
#[verifier::spinoff_prover]
pub fn eval_relation(
    db: &Database,
    schema: &Schema,
    t: usize,
    rf: &RelationFilter,
    row: &Row,
) -> (r: bool)
    requires
        schema.spec_wf(),
        db.spec_wf(*schema),
        t < schema.tables@.len(),
        rf.association < schema.tables@[t as int].associations@.len(),
        spec_filter_wf(
            *schema,
            schema.tables@[t as int].associations@[rf.association as int].target_table as int,
            rf.nested,
        ),
        row@.len() == schema.tables@[t as int].columns@.len(),
    ensures
        r == spec_eval_relation(
            *db,
            *schema,
            t as int,
            rf.association as int,
            rf.nested,
            spec_row_v(*row),
        ),
    decreases *rf, 1int,
{
    let ghost rowv = spec_row_v(*row);
    let a = &schema.tables[t].associations[rf.association];
    proof {
        assert(schema.tables@[t as int].spec_wf_local(schema.capabilities));
        assert(schema.spec_wf_association(t as int, *a));
    }
    let target = a.target_table;
    proof {
        assert(schema.tables@[target as int].spec_wf_local(schema.capabilities));
    }
    let to_many = matches!(a.direction, AssociationDirection::ToMany);
    let keycol: usize = if to_many {
        schema.tables[t].primary_key[0]
    } else {
        a.foreign_key
    };
    let col: usize = if to_many {
        a.foreign_key
    } else {
        schema.tables[target].primary_key[0]
    };
    let key = &row[keycol];
    if key.is_none() {
        if to_many {
            return false;
        } else {
            return schema.tables[t].columns[keycol].nullable;
        }
    }
    let ghost keyv = spec_cell_v(*key);
    proof {
        assert(keyv == spec_row_v(*row)[keycol as int]);
        assert(keyv is Some);
        assert(to_many ==> keycol as int == schema.tables@[t as int].primary_key@[0] as int);
        assert(!to_many ==> keycol as int == a.foreign_key as int);
        assert(to_many == (a.direction is ToMany));
    }
    let rows = &db.tables[target];
    let mut j: usize = 0;
    while j < rows.len()
        invariant
            schema.spec_wf(),
            db.spec_wf(*schema),
            t < schema.tables@.len(),
            rf.association < schema.tables@[t as int].associations@.len(),
            target == schema.tables@[t as int].associations@[rf.association as int].target_table,
            to_many == (
            schema.tables@[t as int].associations@[rf.association as int].direction
                is ToMany),
            !to_many ==> schema.tables@[t as int].associations@[rf.association as int].direction
                is ToOne,
            to_many ==> keycol == schema.tables@[t as int].primary_key@[0] && col
                == schema.tables@[t as int].associations@[rf.association as int].foreign_key,
            !to_many ==> keycol == schema.tables@[t as int].associations@[rf.association
                as int].foreign_key && col == schema.tables@[target as int].primary_key@[0],
            target < schema.tables@.len(),
            col < schema.tables@[target as int].columns@.len(),
            rows == &db.tables@[target as int],
            spec_filter_wf(*schema, target as int, rf.nested),
            j <= rows@.len(),
            row@.len() == schema.tables@[t as int].columns@.len(),
            keycol < row@.len(),
            keyv == spec_cell_v(*key),
            keyv == spec_row_v(*row)[keycol as int],
            keyv is Some,
            spec_any_child_match(*db, *schema, rf.nested, target as int, col as int, keyv, 0)
                == spec_any_child_match(
                *db,
                *schema,
                rf.nested,
                target as int,
                col as int,
                keyv,
                j as int,
            ),
        decreases rows@.len() - j,
    {
        let child = &rows[j];
        proof {
            assert(spec_row_wf(schema.tables@[target as int], spec_row_v(*child)));
        }
        if cells_eq(&child[col], key) && eval_filter(db, schema, &rf.nested, child) {
            proof {
                assert(spec_child_match(
                    *db,
                    *schema,
                    rf.nested,
                    target as int,
                    col as int,
                    keyv,
                    j as int,
                ));
                assert(spec_any_child_match(
                    *db,
                    *schema,
                    rf.nested,
                    target as int,
                    col as int,
                    keyv,
                    j as int,
                ));
                assert(spec_eval_relation(
                    *db,
                    *schema,
                    t as int,
                    rf.association as int,
                    rf.nested,
                    spec_row_v(*row),
                ));
            }
            return true;
        }
        proof {
            assert(!spec_child_match(
                *db,
                *schema,
                rf.nested,
                target as int,
                col as int,
                keyv,
                j as int,
            ));
            assert(spec_any_child_match(
                *db,
                *schema,
                rf.nested,
                target as int,
                col as int,
                keyv,
                j as int,
            ) == spec_any_child_match(
                *db,
                *schema,
                rf.nested,
                target as int,
                col as int,
                keyv,
                j + 1,
            ));
        }
        j = j + 1;
    }
    proof {
        assert(!spec_eval_relation(
            *db,
            *schema,
            t as int,
            rf.association as int,
            rf.nested,
            spec_row_v(*row),
        ));
    }
    false
}

/// Evaluates a compiled filter against one row of its table.
pub fn eval_filter(db: &Database, schema: &Schema, f: &FilterWrapper, row: &Row) -> (r: bool)
    requires
        schema.spec_wf(),
        db.spec_wf(*schema),
        spec_filter_wf(*schema, f.table as int, *f),
        row@.len() == f.columns@.len(),
    ensures
        r == spec_eval_filter(*db, *schema, *f, spec_row_v(*row)),
    decreases *f, 2int,
{
    let ghost rowv = spec_row_v(*row);
    let mut c: usize = 0;
    while c < f.columns.len()
        invariant
            c <= f.columns@.len(),
            row@.len() == f.columns@.len(),
            rowv == spec_row_v(*row),
            forall|c2: int|
                0 <= c2 < c ==> match #[trigger] f.columns@[c2] {
                    Some(ops) => spec_eval_ops(ops, rowv[c2]),
                    None => true,
                },
        decreases f.columns@.len() - c,
    {
        match &f.columns[c] {
            Some(ops) => {
                if !eval_ops(ops, &row[c]) {
                    proof {
                        assert(!spec_eval_columns(f.columns@, rowv));
                    }
                    return false;
                }
            },
            None => {},
        }
        c = c + 1;
    }
    proof {
        assert(spec_eval_columns(f.columns@, rowv));
    }
    let t = f.table;
    let mut i: usize = 0;
    while i < f.relations.len()
        invariant
            schema.spec_wf(),
            db.spec_wf(*schema),
            spec_filter_wf(*schema, f.table as int, *f),
            row@.len() == f.columns@.len(),
            rowv == spec_row_v(*row),
            t == f.table,
            i <= f.relations@.len(),
            spec_eval_columns(f.columns@, rowv),
            spec_eval_relations(*db, *schema, *f, 0, rowv) == spec_eval_relations(
                *db,
                *schema,
                *f,
                i as int,
                rowv,
            ),
        decreases f.relations@.len() - i,
    {
        match &f.relations[i] {
            Some(rf) => {
                proof {
                    lemma_filter_wf_relations_at(*schema, t as int, *f, 0, i as int);
                    assert(schema.tables@[t as int].spec_wf_local(schema.capabilities));
                }
                if !eval_relation(db, schema, t, rf, row) {
                    return false;
                }
            },
            None => {},
        }
        i = i + 1;
    }
    true
}








/// The first field of an object literal's field list carrying `name`.
pub open spec fn spec_obj_field(
    fields: Seq<(String, InputValue)>,
    name: Seq<char>,
) -> Option<InputValue>
    decreases fields.len(),
{
    if fields.len() == 0 {
        None
    } else if fields[0].0@ == name {
        Some(fields[0].1)
    } else {
        spec_obj_field(fields.drop_first(), name)
    }
}

/// Appending a field leaves earlier lookups in place and answers lookups the
/// earlier fields missed.
pub proof fn lemma_obj_field_push(
    fields: Seq<(String, InputValue)>,
    x: (String, InputValue),
    name: Seq<char>,
)
    ensures
        spec_obj_field(fields.push(x), name) == match spec_obj_field(fields, name) {
            Some(v) => Some(v),
            None => if x.0@ == name {
                Some(x.1)
            } else {
                None::<InputValue>
            },
        },
    decreases fields.len(),
{
    reveal_with_fuel(spec_obj_field, 3);
    if fields.len() == 0 {
        assert(fields.push(x)[0] == x);
        assert(fields.push(x).drop_first() =~= Seq::<(String, InputValue)>::empty());
    } else {
        assert(fields.push(x)[0] == fields[0]);
        assert(fields.push(x).drop_first() =~= fields.drop_first().push(x));
        lemma_obj_field_push(fields.drop_first(), x, name);
    }
}

/// The boolean a literal carries, when it is a boolean scalar.
pub open spec fn spec_decode_bool(v: InputValue) -> Option<bool> {
    match v {
        InputValue::Scalar(sv) => match sv@ {
            ScalarV::Boolean(b) => Some(b),
            _ => None,
        },
        _ => None,
    }
}

/// What decoding one operator object at a column kind reports, walking its
/// fields in order: the first unknown operator name or undecodable operand
/// decides; a literal that is not an object is malformed.
pub open spec fn spec_ops_outcome(kind: ScalarKind, v: InputValue) -> Result<
    (),
    WundergraphError,
> {
    match v {
        InputValue::Object(_) => spec_ops_fields_outcome(kind, v, 0),
        _ => Err(WundergraphError::MalformedArgument),
    }
}

/// The outcome of decoding the operator fields from position `i` on.
pub open spec fn spec_ops_fields_outcome(kind: ScalarKind, v: InputValue, i: int) -> Result<
    (),
    WundergraphError,
>
    decreases v->Object_0@.len() - i,
{
    let fields = v->Object_0@;
    if i < 0 || i >= fields.len() {
        Ok(())
    } else {
        let name = fields[i].0@;
        let fv = fields[i].1;
        let step = if name == "eq"@ || name == "not_eq"@ || name == "lt"@ || name == "lt_eq"@
            || name == "gt"@ || name == "gt_eq"@ {
            if spec_decode(kind, fv) is Some {
                Ok(())
            } else {
                Err(WundergraphError::MalformedArgument)
            }
        } else if name == "eq_any"@ {
            if spec_decode_list(kind, fv) is Some {
                Ok(())
            } else {
                Err(WundergraphError::MalformedArgument)
            }
        } else if name == "is_null"@ {
            if spec_decode_bool(fv) is Some {
                Ok(())
            } else {
                Err(WundergraphError::MalformedArgument)
            }
        } else {
            Err(WundergraphError::MalformedArgument)
        };
        match step {
            Err(e) => Err(e),
            Ok(_) => spec_ops_fields_outcome(kind, v, i + 1),
        }
    }
}

/// Whether a built operator tuple holds exactly what the operator object's
/// first occurrence of each operator decodes to, absent operators staying
/// unconstrained.
pub open spec fn spec_ops_match(kind: ScalarKind, v: InputValue, ops: ColumnFilterOps) -> bool {
    let fields = v->Object_0@;
    &&& v is Object
    &&& spec_cell_v(ops.eq) == match spec_obj_field(fields, "eq"@) {
        Some(fv) => spec_decode(kind, fv),
        None => None,
    }
    &&& spec_cell_v(ops.not_eq) == match spec_obj_field(fields, "not_eq"@) {
        Some(fv) => spec_decode(kind, fv),
        None => None,
    }
    &&& spec_cell_v(ops.lt) == match spec_obj_field(fields, "lt"@) {
        Some(fv) => spec_decode(kind, fv),
        None => None,
    }
    &&& spec_cell_v(ops.lt_eq) == match spec_obj_field(fields, "lt_eq"@) {
        Some(fv) => spec_decode(kind, fv),
        None => None,
    }
    &&& spec_cell_v(ops.gt) == match spec_obj_field(fields, "gt"@) {
        Some(fv) => spec_decode(kind, fv),
        None => None,
    }
    &&& spec_cell_v(ops.gt_eq) == match spec_obj_field(fields, "gt_eq"@) {
        Some(fv) => spec_decode(kind, fv),
        None => None,
    }
    &&& (match ops.eq_any {
        Some(list) => Some(crate::decode::spec_scalars_v(list@)),
        None => None,
    }) == (match spec_obj_field(fields, "eq_any"@) {
        Some(fv) => spec_decode_list(kind, fv),
        None => None,
    })
    &&& ops.is_null == match spec_obj_field(fields, "is_null"@) {
        Some(fv) => spec_decode_bool(fv),
        None => None,
    }
}


/// What decoding a filter argument for table `t` reports: the literal must be
/// an object; its fields are walked in order, each being a declared column's
/// operator object, a declared association's nested filter object, or —
/// deciding the outcome — an unknown field.
pub open spec fn spec_filter_outcome(schema: Schema, t: int, v: InputValue) -> Result<
    (),
    WundergraphError,
>
    decreases v, v->Object_0@.len() + 1,
{
    match v {
        InputValue::Object(_) => spec_filter_fields_outcome(schema, t, v, 0),
        _ => Err(WundergraphError::MalformedArgument),
    }
}

/// The outcome of decoding the filter object fields from position `i` on.
pub open spec fn spec_filter_fields_outcome(schema: Schema, t: int, v: InputValue, i: int) -> Result<
    (),
    WundergraphError,
>
    decreases v, v->Object_0@.len() - i,
{
    match v {
        InputValue::Object(fields) => {
            if i < 0 || i >= fields@.len() {
                Ok(())
            } else {
                let step: Result<(), WundergraphError> = if spec_column_index(
                    schema.tables@[t].columns@,
                    fields@[i].0@,
                ) is Some {
                    spec_ops_outcome(
                        schema.tables@[t].columns@[spec_column_index(
                            schema.tables@[t].columns@,
                            fields@[i].0@,
                        ).unwrap()].kind,
                        fields@[i].1,
                    )
                } else if spec_association_index(
                    schema.tables@[t].associations@,
                    fields@[i].0@,
                ) is Some {
                    spec_filter_outcome(
                        schema,
                        schema.tables@[t].associations@[spec_association_index(
                            schema.tables@[t].associations@,
                            fields@[i].0@,
                        ).unwrap()].target_table as int,
                        fields@[i].1,
                    )
                } else {
                    Err(WundergraphError::UnknownField)
                };
                if step is Err {
                    step
                } else {
                    spec_filter_fields_outcome(schema, t, v, i + 1)
                }
            }
        },
        _ => Ok(()),
    }
}

/// Whether a built filter holds exactly what the filter object decodes to:
/// per declared column the operators of the column's first field occurrence,
/// per declared association the nested filter of its first field occurrence,
/// and nothing where the object has no field.
pub open spec fn spec_filter_matches(schema: Schema, t: int, v: InputValue, f: FilterWrapper) -> bool
    decreases v, f.relations@.len() + 1,
{
    &&& v is Object
    &&& f.table == t
    &&& f.columns@.len() == schema.tables@[t].columns@.len()
    &&& f.relations@.len() == schema.tables@[t].associations@.len()
    &&& (forall|c: int|
        0 <= c < f.columns@.len() ==> match spec_obj_field(
            v->Object_0@,
            schema.tables@[t].columns@[c].name@,
        ) {
            Some(fv) => (#[trigger] f.columns@[c]) is Some && spec_ops_match(
                schema.tables@[t].columns@[c].kind,
                fv,
                f.columns@[c].unwrap(),
            ),
            None => f.columns@[c] is None,
        })
    &&& spec_filter_matches_rels(schema, t, v, f, 0)
}

/// Whether the relation entries from position `a` on hold exactly what the
/// filter object decodes to.
pub open spec fn spec_filter_matches_rels(
    schema: Schema,
    t: int,
    v: InputValue,
    f: FilterWrapper,
    a: int,
) -> bool
    decreases v, f.relations@.len() - a,
    via spec_filter_matches_rels_decreases
{
    match v {
        InputValue::Object(fields) => {
            if a < 0 || a >= f.relations@.len() {
                true
            } else {
                &&& match spec_obj_field(fields@, schema.tables@[t].associations@[a].field_name@) {
                    Some(fv) => f.relations@[a] is Some && f.relations@[a].unwrap().association
                        == a && spec_filter_matches(
                        schema,
                        schema.tables@[t].associations@[a].target_table as int,
                        fv,
                        f.relations@[a].unwrap().nested,
                    ),
                    None => f.relations@[a] is None,
                }
                &&& spec_filter_matches_rels(schema, t, v, f, a + 1)
            }
        },
        _ => true,
    }
}

/// A field lookup hands back one of the listed fields.
pub proof fn lemma_obj_field_is_element(fields: Seq<(String, InputValue)>, name: Seq<char>)
    ensures
        match spec_obj_field(fields, name) {
            Some(fv) => exists|i: int| 0 <= i < fields.len() && #[trigger] fields[i].1 == fv,
            None => true,
        },
    decreases fields.len(),
{
    if fields.len() != 0 {
        if fields[0].0@ == name {
            assert(fields[0].1 == spec_obj_field(fields, name).unwrap());
        } else {
            lemma_obj_field_is_element(fields.drop_first(), name);
            match spec_obj_field(fields, name) {
                Some(fv) => {
                    let i = choose|i: int|
                        0 <= i < fields.drop_first().len() && #[trigger] fields.drop_first()[i].1
                            == fv;
                    assert(fields[i + 1].1 == fv);
                },
                None => {},
            }
        }
    }
}

#[via_fn]
proof fn spec_filter_matches_rels_decreases(
    schema: Schema,
    t: int,
    v: InputValue,
    f: FilterWrapper,
    a: int,
) {
    match v {
        InputValue::Object(fields) => {
            if 0 <= a < f.relations@.len() {
                let name = schema.tables@[t].associations@[a].field_name@;
                lemma_obj_field_is_element(fields@, name);
                match spec_obj_field(fields@, name) {
                    Some(fv) => {
                        let i = choose|i: int|
                            0 <= i < fields@.len() && #[trigger] fields@[i].1 == fv;
                        assert(decreases_to!(v => fields@[i].1));
                    },
                    None => {},
                }
            }
        },
        _ => {},
    }
}

/// Decodes a boolean operand.
pub fn decode_bool(v: &InputValue) -> (r: Option<bool>)
    ensures
        r == spec_decode_bool(*v),
{
    match v {
        InputValue::Scalar(WundergraphScalarValue::Boolean(b)) => Some(*b),
        _ => None,
    }
}

/// The eight operator names are pairwise distinct.
pub proof fn lemma_op_names_distinct()
    ensures
        "eq"@ != "not_eq"@ && "eq"@ != "lt"@ && "eq"@ != "lt_eq"@ && "eq"@ != "gt"@ && "eq"@
            != "gt_eq"@ && "eq"@ != "eq_any"@ && "eq"@ != "is_null"@,
        "not_eq"@ != "lt"@ && "not_eq"@ != "lt_eq"@ && "not_eq"@ != "gt"@ && "not_eq"@
            != "gt_eq"@ && "not_eq"@ != "eq_any"@ && "not_eq"@ != "is_null"@,
        "lt"@ != "lt_eq"@ && "lt"@ != "gt"@ && "lt"@ != "gt_eq"@ && "lt"@ != "eq_any"@ && "lt"@
            != "is_null"@,
        "lt_eq"@ != "gt"@ && "lt_eq"@ != "gt_eq"@ && "lt_eq"@ != "eq_any"@ && "lt_eq"@
            != "is_null"@,
        "gt"@ != "gt_eq"@ && "gt"@ != "eq_any"@ && "gt"@ != "is_null"@,
        "gt_eq"@ != "eq_any"@ && "gt_eq"@ != "is_null"@,
        "eq_any"@ != "is_null"@,
{
    reveal_strlit("eq");
    reveal_strlit("not_eq");
    reveal_strlit("lt");
    reveal_strlit("lt_eq");
    reveal_strlit("gt");
    reveal_strlit("gt_eq");
    reveal_strlit("eq_any");
    reveal_strlit("is_null");
    assert("eq"@.len() == 2);
    assert("not_eq"@.len() == 6);
    assert("lt"@.len() == 2);
    assert("lt_eq"@.len() == 5);
    assert("gt"@.len() == 2);
    assert("gt_eq"@.len() == 5);
    assert("eq_any"@.len() == 6);
    assert("is_null"@.len() == 7);
    assert("eq"@[0] != "lt"@[0]);
    assert("eq"@[0] != "gt"@[0]);
    assert("lt"@[0] != "gt"@[0]);
    assert("lt_eq"@[0] != "gt_eq"@[0]);
    assert("not_eq"@[0] != "eq_any"@[0]);
}

impl ColumnFilterConverter {
    /// Decodes one operator object at a column kind, keeping the first
    /// occurrence of each operator; any occurrence that fails to decode, and
    /// any unknown operator name, is malformed.
    #[verifier::rlimit(100)]
    pub fn create_filter(kind: ScalarKind, v: &InputValue) -> (r: Result<
        ColumnFilterOps,
        WundergraphError,
    >)
    ensures
        match r {
            Ok(ops) => spec_ops_outcome(kind, *v) is Ok && spec_ops_match(kind, *v, ops),
            Err(e) => spec_ops_outcome(kind, *v) == Err::<(), WundergraphError>(e),
        },
{
    match v {
        InputValue::Object(fields) => {
            let mut eq_v: Option<WundergraphScalarValue> = None;
            let mut not_eq_v: Option<WundergraphScalarValue> = None;
            let mut lt_v: Option<WundergraphScalarValue> = None;
            let mut lt_eq_v: Option<WundergraphScalarValue> = None;
            let mut gt_v: Option<WundergraphScalarValue> = None;
            let mut gt_eq_v: Option<WundergraphScalarValue> = None;
            let mut eq_any_v: Option<Vec<WundergraphScalarValue>> = None;
            let mut is_null_v: Option<bool> = None;
            let mut j: usize = 0;
            proof {
                assert(fields@.take(0) =~= Seq::<(String, InputValue)>::empty());
            }
            while j < fields.len()
                invariant
                    j <= fields@.len(),
                    *v is Object,
                    v->Object_0 == *fields,
                    spec_ops_fields_outcome(kind, *v, 0) == spec_ops_fields_outcome(
                        kind,
                        *v,
                        j as int,
                    ),
                    match spec_obj_field(fields@.take(j as int), "eq"@) {
                        Some(fv) => eq_v is Some && spec_cell_v(eq_v) == spec_decode(kind, fv),
                        None => eq_v is None,
                    },
                    match spec_obj_field(fields@.take(j as int), "not_eq"@) {
                        Some(fv) => not_eq_v is Some && spec_cell_v(not_eq_v) == spec_decode(
                            kind,
                            fv,
                        ),
                        None => not_eq_v is None,
                    },
                    match spec_obj_field(fields@.take(j as int), "lt"@) {
                        Some(fv) => lt_v is Some && spec_cell_v(lt_v) == spec_decode(kind, fv),
                        None => lt_v is None,
                    },
                    match spec_obj_field(fields@.take(j as int), "lt_eq"@) {
                        Some(fv) => lt_eq_v is Some && spec_cell_v(lt_eq_v) == spec_decode(
                            kind,
                            fv,
                        ),
                        None => lt_eq_v is None,
                    },
                    match spec_obj_field(fields@.take(j as int), "gt"@) {
                        Some(fv) => gt_v is Some && spec_cell_v(gt_v) == spec_decode(kind, fv),
                        None => gt_v is None,
                    },
                    match spec_obj_field(fields@.take(j as int), "gt_eq"@) {
                        Some(fv) => gt_eq_v is Some && spec_cell_v(gt_eq_v) == spec_decode(
                            kind,
                            fv,
                        ),
                        None => gt_eq_v is None,
                    },
                    match spec_obj_field(fields@.take(j as int), "eq_any"@) {
                        Some(fv) => eq_any_v is Some && spec_decode_list(kind, fv) == Some(
                            crate::decode::spec_scalars_v(eq_any_v.unwrap()@),
                        ),
                        None => eq_any_v is None,
                    },
                    match spec_obj_field(fields@.take(j as int), "is_null"@) {
                        Some(fv) => is_null_v == spec_decode_bool(fv) && is_null_v is Some,
                        None => is_null_v is None,
                    },
                decreases fields@.len() - j,
            {
                proof {
                    lemma_op_names_distinct();
                    assert(fields@.take(j + 1) =~= fields@.take(j as int).push(
                        fields@[j as int],
                    ));
                    lemma_obj_field_push(fields@.take(j as int), fields@[j as int], "eq"@);
                    lemma_obj_field_push(fields@.take(j as int), fields@[j as int], "not_eq"@);
                    lemma_obj_field_push(fields@.take(j as int), fields@[j as int], "lt"@);
                    lemma_obj_field_push(fields@.take(j as int), fields@[j as int], "lt_eq"@);
                    lemma_obj_field_push(fields@.take(j as int), fields@[j as int], "gt"@);
                    lemma_obj_field_push(fields@.take(j as int), fields@[j as int], "gt_eq"@);
                    lemma_obj_field_push(fields@.take(j as int), fields@[j as int], "eq_any"@);
                    lemma_obj_field_push(fields@.take(j as int), fields@[j as int], "is_null"@);
                }
                let name = &fields[j].0;
                let fv = &fields[j].1;
                if str_eq(name.as_str(), "eq") {
                    match decode(kind, fv) {
                        Some(x) => {
                            if eq_v.is_none() {
                                eq_v = Some(x);
                            }
                        },
                        None => {
                            return Err(WundergraphError::MalformedArgument);
                        },
                    }
                } else if str_eq(name.as_str(), "not_eq") {
                    match decode(kind, fv) {
                        Some(x) => {
                            if not_eq_v.is_none() {
                                not_eq_v = Some(x);
                            }
                        },
                        None => {
                            return Err(WundergraphError::MalformedArgument);
                        },
                    }
                } else if str_eq(name.as_str(), "lt") {
                    match decode(kind, fv) {
                        Some(x) => {
                            if lt_v.is_none() {
                                lt_v = Some(x);
                            }
                        },
                        None => {
                            return Err(WundergraphError::MalformedArgument);
                        },
                    }
                } else if str_eq(name.as_str(), "lt_eq") {
                    match decode(kind, fv) {
                        Some(x) => {
                            if lt_eq_v.is_none() {
                                lt_eq_v = Some(x);
                            }
                        },
                        None => {
                            return Err(WundergraphError::MalformedArgument);
                        },
                    }
                } else if str_eq(name.as_str(), "gt") {
                    match decode(kind, fv) {
                        Some(x) => {
                            if gt_v.is_none() {
                                gt_v = Some(x);
                            }
                        },
                        None => {
                            return Err(WundergraphError::MalformedArgument);
                        },
                    }
                } else if str_eq(name.as_str(), "gt_eq") {
                    match decode(kind, fv) {
                        Some(x) => {
                            if gt_eq_v.is_none() {
                                gt_eq_v = Some(x);
                            }
                        },
                        None => {
                            return Err(WundergraphError::MalformedArgument);
                        },
                    }
                } else if str_eq(name.as_str(), "eq_any") {
                    match decode_list(kind, fv) {
                        Some(l) => {
                            if eq_any_v.is_none() {
                                eq_any_v = Some(l);
                            }
                        },
                        None => {
                            return Err(WundergraphError::MalformedArgument);
                        },
                    }
                } else if str_eq(name.as_str(), "is_null") {
                    match decode_bool(fv) {
                        Some(b) => {
                            if is_null_v.is_none() {
                                is_null_v = Some(b);
                            }
                        },
                        None => {
                            return Err(WundergraphError::MalformedArgument);
                        },
                    }
                } else {
                    return Err(WundergraphError::MalformedArgument);
                }
                j = j + 1;
            }
            proof {
                assert(fields@.take(fields@.len() as int) =~= fields@);
            }
            Ok(
                ColumnFilterOps {
                    eq: eq_v,
                    not_eq: not_eq_v,
                    lt: lt_v,
                    lt_eq: lt_eq_v,
                    gt: gt_v,
                    gt_eq: gt_eq_v,
                    eq_any: eq_any_v,
                    is_null: is_null_v,
                },
            )
        },
        _ => Err(WundergraphError::MalformedArgument),
    }
}
}

/// Per-position facts about the relation entries yield the recursive
/// statement.
pub proof fn lemma_filter_matches_rels_intro(
    schema: Schema,
    t: int,
    v: InputValue,
    f: FilterWrapper,
    a: int,
)
    requires
        v is Object,
        0 <= a <= f.relations@.len(),
        forall|a2: int|
            a <= a2 < f.relations@.len() ==> (match spec_obj_field(
                v->Object_0@,
                schema.tables@[t].associations@[a2].field_name@,
            ) {
                Some(fv) => (#[trigger] f.relations@[a2]) is Some
                    && f.relations@[a2].unwrap().association == a2 && spec_filter_matches(
                    schema,
                    schema.tables@[t].associations@[a2].target_table as int,
                    fv,
                    f.relations@[a2].unwrap().nested,
                ),
                None => f.relations@[a2] is None,
            }),
    ensures
        spec_filter_matches_rels(schema, t, v, f, a),
    decreases f.relations@.len() - a,
{
    if a < f.relations@.len() {
        lemma_filter_matches_rels_intro(schema, t, v, f, a + 1);
    }
}

/// Per-position well-formedness of the relation entries yields the recursive
/// statement.
pub proof fn lemma_filter_wf_rels_intro(schema: Schema, t: int, f: FilterWrapper, a: int)
    requires
        0 <= a <= f.relations@.len(),
        forall|a2: int|
            a <= a2 < f.relations@.len() ==> (match #[trigger] f.relations@[a2] {
                Some(rf) => rf.association == a2 && spec_filter_wf(
                    schema,
                    schema.tables@[t].associations@[a2].target_table as int,
                    rf.nested,
                ),
                None => true,
            }),
    ensures
        spec_filter_wf_relations(schema, t, f, a),
    decreases f.relations@.len() - a,
{
    if a < f.relations@.len() {
        lemma_filter_wf_rels_intro(schema, t, f, a + 1);
    }
}

impl FilterConverter {
    /// Compiles the filter argument of one request level into the owning
    /// table's compiled filter: one optional entry per declared column and
    /// association, keeping the first occurrence of each field, walking the
    /// argument object in order and reporting its first ill-formed or unknown
    /// field.
    #[verifier::rlimit(100)]
    #[verifier::spinoff_prover]
    pub fn create_filter(schema: &Schema, t: usize, v: &InputValue) -> (r: Result<
        FilterWrapper,
        WundergraphError,
    >)
    requires
        schema.spec_wf(),
        t < schema.tables@.len(),
    ensures
        match r {
            Ok(f) => spec_filter_outcome(*schema, t as int, *v) is Ok && spec_filter_matches(
                *schema,
                t as int,
                *v,
                f,
            ) && spec_filter_wf(*schema, t as int, f),
            Err(e) => spec_filter_outcome(*schema, t as int, *v) == Err::<(), WundergraphError>(e),
        },
    decreases *v, 0int,
{
    match v {
        InputValue::Object(fields) => {
            let table = &schema.tables[t];
            let ncols = table.columns.len();
            let nassocs = table.associations.len();
            let mut columns: Vec<Option<ColumnFilterOps>> = Vec::new();
            while columns.len() < ncols
                invariant
                    columns@.len() <= ncols,
                    forall|c: int| 0 <= c < columns@.len() ==> (#[trigger] columns@[c]) is None,
                decreases ncols - columns@.len(),
            {
                columns.push(None);
            }
            let mut relations: Vec<Option<RelationFilter>> = Vec::new();
            while relations.len() < nassocs
                invariant
                    relations@.len() <= nassocs,
                    forall|a: int|
                        0 <= a < relations@.len() ==> (#[trigger] relations@[a]) is None,
                decreases nassocs - relations@.len(),
            {
                relations.push(None);
            }
            let mut i: usize = 0;
            proof {
                assert(fields@.take(0) =~= Seq::<(String, InputValue)>::empty());
            }
            while i < fields.len()
                invariant
                    schema.spec_wf(),
                    t < schema.tables@.len(),
                    table == &schema.tables@[t as int],
                    *v is Object,
                    v->Object_0 == *fields,
                    i <= fields@.len(),
                    columns@.len() == schema.tables@[t as int].columns@.len(),
                    relations@.len() == schema.tables@[t as int].associations@.len(),
                    spec_filter_fields_outcome(*schema, t as int, *v, 0)
                        == spec_filter_fields_outcome(*schema, t as int, *v, i as int),
                    forall|c: int|
                        0 <= c < columns@.len() ==> (match spec_obj_field(
                            fields@.take(i as int),
                            schema.tables@[t as int].columns@[c].name@,
                        ) {
                            Some(fv) => (#[trigger] columns@[c]) is Some && spec_ops_match(
                                schema.tables@[t as int].columns@[c].kind,
                                fv,
                                columns@[c].unwrap(),
                            ),
                            None => columns@[c] is None,
                        }),
                    forall|a: int|
                        0 <= a < relations@.len() ==> (match spec_obj_field(
                            fields@.take(i as int),
                            schema.tables@[t as int].associations@[a].field_name@,
                        ) {
                            Some(fv) => (#[trigger] relations@[a]) is Some
                                && relations@[a].unwrap().association == a && spec_filter_matches(
                                *schema,
                                schema.tables@[t as int].associations@[a].target_table as int,
                                fv,
                                relations@[a].unwrap().nested,
                            ) && spec_filter_wf(
                                *schema,
                                schema.tables@[t as int].associations@[a].target_table as int,
                                relations@[a].unwrap().nested,
                            ),
                            None => relations@[a] is None,
                        }),
                decreases fields@.len() - i,
            {
                let field_entry = &fields[i];
                let name = &field_entry.0;
                let fv = &field_entry.1;
                proof {
                    assert(*field_entry == fields@[i as int]);
                    assert((*name)@ == fields@[i as int].0@);
                    assert(*fv == fields@[i as int].1);
                    assert(schema.tables@[t as int].spec_wf_local(schema.capabilities));
                    assert(fields@.take(i + 1) =~= fields@.take(i as int).push(
                        fields@[i as int],
                    ));
                    lemma_column_index_props(schema.tables@[t as int].columns@, name@);
                    lemma_association_index_props(
                        schema.tables@[t as int].associations@,
                        name@,
                    );
                }
                let ci = table.column_index(name.as_str());
                let ai = if ci.is_some() {
                    None
                } else {
                    table.association_index(name.as_str())
                };
                if ci.is_some() {
                    let c = ci.unwrap();
                    {
                        let ghost cols_before = columns@;
                        match ColumnFilterConverter::create_filter(table.columns[c].kind, fv) {
                            Ok(ops) => {
                                if columns[c].is_none() {
                                    columns[c] = Some(ops);
                                }
                            },
                            Err(e) => {
                                proof {
                                    assert(table.columns@ == schema.tables@[t as int].columns@);
                                    assert(name@ == fields@[i as int].0@);
                                    assert(spec_column_index(table.columns@, name@) is Some);
                                    assert(0 <= spec_column_index(table.columns@, name@).unwrap()
                                        < table.columns@.len());
                                    assert(table.columns@.len() == table.columns.len());
                                    assert(spec_column_index(table.columns@, name@).unwrap()
                                        == c as int);
                                    assert(spec_column_index(
                                        schema.tables@[t as int].columns@,
                                        fields@[i as int].0@,
                                    ) == Some(c as int));
                                    assert(spec_ops_outcome(
                                        schema.tables@[t as int].columns@[c as int].kind,
                                        fields@[i as int].1,
                                    ) == Err::<(), WundergraphError>(e));
                                    assert(spec_filter_fields_outcome(*schema, t as int, *v, i as int)
                                        == Err::<(), WundergraphError>(e));
                                }
                                return Err(e);
                            },
                        }
                        proof {
                            assert forall|c2: int| 0 <= c2 < columns@.len() implies (match
                                spec_obj_field(
                                fields@.take(i + 1),
                                schema.tables@[t as int].columns@[c2].name@,
                            ) {
                                Some(fv2) => (#[trigger] columns@[c2]) is Some && spec_ops_match(
                                    schema.tables@[t as int].columns@[c2].kind,
                                    fv2,
                                    columns@[c2].unwrap(),
                                ),
                                None => columns@[c2] is None,
                            }) by {
                                lemma_obj_field_push(
                                    fields@.take(i as int),
                                    fields@[i as int],
                                    schema.tables@[t as int].columns@[c2].name@,
                                );
                                if c2 != c as int {
                                    assert(columns@[c2] == cols_before[c2]);
                                    if c2 < c as int {
                                        assert(schema.tables@[t as int].columns@[c2].name@
                                            != schema.tables@[t as int].columns@[c as int].name@);
                                    } else {
                                        assert(schema.tables@[t as int].columns@[c as int].name@
                                            != schema.tables@[t as int].columns@[c2].name@);
                                    }
                                }
                            }
                            assert forall|a2: int| 0 <= a2 < relations@.len() implies (match
                                spec_obj_field(
                                fields@.take(i + 1),
                                schema.tables@[t as int].associations@[a2].field_name@,
                            ) {
                                Some(fv2) => (#[trigger] relations@[a2]) is Some
                                    && relations@[a2].unwrap().association == a2
                                    && spec_filter_matches(
                                    *schema,
                                    schema.tables@[t as int].associations@[a2].target_table
                                        as int,
                                    fv2,
                                    relations@[a2].unwrap().nested,
                                ) && spec_filter_wf(
                                    *schema,
                                    schema.tables@[t as int].associations@[a2].target_table
                                        as int,
                                    relations@[a2].unwrap().nested,
                                ),
                                None => relations@[a2] is None,
                            }) by {
                                lemma_obj_field_push(
                                    fields@.take(i as int),
                                    fields@[i as int],
                                    schema.tables@[t as int].associations@[a2].field_name@,
                                );
                            }
                        }
                    }
                } else {
                    if ai.is_some() {
                        let a = ai.unwrap();
                        {
                            {
                                let target = table.associations[a].target_table;
                                let ghost rels_before = relations@;
                                proof {
                                    assert(schema.spec_wf_association(
                                        t as int,
                                        schema.tables@[t as int].associations@[a as int],
                                    ));
                                    assert(decreases_to!(*v => fields@[i as int].1));
                                }
                                match NonColumnFilterConveter::create_filter(schema, t, a, fv) {
                                    Ok(rf) => {
                                        if relations[a].is_none() {
                                            relations[a] = Some(rf);
                                        }
                                    },
                                    Err(e) => {
                                        proof {
                                            assert(table.associations@
                                                == schema.tables@[t as int].associations@);
                                            assert(table.associations@.len()
                                                == table.associations.len());
                                            assert(spec_column_index(
                                                schema.tables@[t as int].columns@,
                                                fields@[i as int].0@,
                                            ) is None);
                                            assert(spec_association_index(
                                                table.associations@,
                                                name@,
                                            ).unwrap() == a as int);
                                            assert(spec_filter_outcome(
                                                *schema,
                                                schema.tables@[t as int].associations@[a
                                                    as int].target_table as int,
                                                fields@[i as int].1,
                                            ) == Err::<(), WundergraphError>(e));
                                            assert(spec_filter_fields_outcome(
                                                *schema,
                                                t as int,
                                                *v,
                                                i as int,
                                            ) == Err::<(), WundergraphError>(e));
                                        }
                                        return Err(e);
                                    },
                                }
                                proof {
                                    assert forall|c2: int| 0 <= c2 < columns@.len() implies (match
                                        spec_obj_field(
                                        fields@.take(i + 1),
                                        schema.tables@[t as int].columns@[c2].name@,
                                    ) {
                                        Some(fv2) => (#[trigger] columns@[c2]) is Some
                                            && spec_ops_match(
                                            schema.tables@[t as int].columns@[c2].kind,
                                            fv2,
                                            columns@[c2].unwrap(),
                                        ),
                                        None => columns@[c2] is None,
                                    }) by {
                                        lemma_obj_field_push(
                                            fields@.take(i as int),
                                            fields@[i as int],
                                            schema.tables@[t as int].columns@[c2].name@,
                                        );
                                    }
                                    assert forall|a2: int| 0 <= a2 < relations@.len() implies (
                                    match spec_obj_field(
                                        fields@.take(i + 1),
                                        schema.tables@[t as int].associations@[a2].field_name@,
                                    ) {
                                        Some(fv2) => (#[trigger] relations@[a2]) is Some
                                            && relations@[a2].unwrap().association == a2
                                            && spec_filter_matches(
                                            *schema,
                                            schema.tables@[t as int].associations@[
                                            a2].target_table as int,
                                            fv2,
                                            relations@[a2].unwrap().nested,
                                        ) && spec_filter_wf(
                                            *schema,
                                            schema.tables@[t as int].associations@[
                                            a2].target_table as int,
                                            relations@[a2].unwrap().nested,
                                        ),
                                        None => relations@[a2] is None,
                                    }) by {
                                        lemma_obj_field_push(
                                            fields@.take(i as int),
                                            fields@[i as int],
                                            schema.tables@[t as int].associations@[
                                            a2].field_name@,
                                        );
                                        if a2 != a as int {
                                            assert(relations@[a2] == rels_before[a2]);
                                            if a2 < a as int {
                                                assert(schema.tables@[t as int].associations@[
                                                a2].field_name@ != schema.tables@[t
                                                    as int].associations@[a as int].field_name@);
                                            } else {
                                                assert(schema.tables@[t as int].associations@[a
                                                    as int].field_name@ != schema.tables@[t
                                                    as int].associations@[a2].field_name@);
                                            }
                                        }
                                    }
                                }
                            }
                        }
                    } else {
                        proof {
                            assert(spec_filter_fields_outcome(*schema, t as int, *v, i as int)
                                == Err::<(), WundergraphError>(WundergraphError::UnknownField));
                        }
                        return Err(WundergraphError::UnknownField);
                    }
                }
                i = i + 1;
            }
            proof {
                assert(fields@.take(fields@.len() as int) =~= fields@);
            }
            let f = FilterWrapper { table: t, columns, relations };
            proof {
                lemma_filter_matches_rels_intro(*schema, t as int, *v, f, 0);
                lemma_filter_wf_rels_intro(*schema, t as int, f, 0);
            }
            Ok(f)
        },
        _ => Err(WundergraphError::MalformedArgument),
    }
}
}

impl NonColumnFilterConveter {
    /// Compiles one association field of a filter object: the nested filter is
    /// compiled over the association's target table and pinned to its own
    /// association slot.
    pub fn create_filter(schema: &Schema, t: usize, a: usize, v: &InputValue) -> (r: Result<
        RelationFilter,
        WundergraphError,
    >)
        requires
            schema.spec_wf(),
            t < schema.tables@.len(),
            a < schema.tables@[t as int].associations@.len(),
        ensures
            match r {
                Ok(rf) => {
                    &&& rf.association == a
                    &&& spec_filter_outcome(
                        *schema,
                        schema.tables@[t as int].associations@[a as int].target_table as int,
                        *v,
                    ) is Ok
                    &&& spec_filter_matches(
                        *schema,
                        schema.tables@[t as int].associations@[a as int].target_table as int,
                        *v,
                        rf.nested,
                    )
                    &&& spec_filter_wf(
                        *schema,
                        schema.tables@[t as int].associations@[a as int].target_table as int,
                        rf.nested,
                    )
                },
                Err(e) => spec_filter_outcome(
                    *schema,
                    schema.tables@[t as int].associations@[a as int].target_table as int,
                    *v,
                ) == Err::<(), WundergraphError>(e),
            },
        decreases *v, 1int,
    {
        proof {
            assert(schema.spec_wf_association(
                t as int,
                schema.tables@[t as int].associations@[a as int],
            ));
        }
        let target = schema.tables[t].associations[a].target_table;
        match FilterConverter::create_filter(schema, target, v) {
            Ok(nested) => Ok(RelationFilter { association: a, nested }),
            Err(e) => Err(e),
        }
    }
}

/// What `spec_obj_field` finds: the first field carrying the name.
pub proof fn lemma_obj_field_props(fields: Seq<(String, InputValue)>, name: Seq<char>)
    ensures
        match spec_obj_field(fields, name) {
            Some(fv) => exists|k: int|
                0 <= k < fields.len() && (#[trigger] fields[k]).0@ == name && fields[k].1 == fv
                    && (forall|j: int| 0 <= j < k ==> (#[trigger] fields[j]).0@ != name),
            None => forall|j: int| 0 <= j < fields.len() ==> (#[trigger] fields[j]).0@ != name,
        },
    decreases fields.len(),
{
    if fields.len() != 0 && fields[0].0@ != name {
        lemma_obj_field_props(fields.drop_first(), name);
        match spec_obj_field(fields, name) {
            Some(fv) => {
                let k0 = choose|k: int|
                    0 <= k < fields.drop_first().len() && (#[trigger] fields.drop_first()[k]).0@
                        == name && fields.drop_first()[k].1 == fv && (forall|j: int|
                        0 <= j < k ==> (#[trigger] fields.drop_first()[j]).0@ != name);
                assert(fields.drop_first()[k0] == fields[k0 + 1]);
                assert forall|j: int| 0 <= j < k0 + 1 implies (#[trigger] fields[j]).0@ != name by {
                    if j > 0 {
                        assert(fields.drop_first()[j - 1] == fields[j]);
                    }
                }
                assert((fields[k0 + 1]).0@ == name && fields[k0 + 1].1 == fv);
            },
            None => {
                assert forall|j: int| 0 <= j < fields.len() implies (#[trigger] fields[j]).0@
                    != name by {
                    if j > 0 {
                        assert(fields.drop_first()[j - 1] == fields[j]);
                    }
                }
            },
        }
    }
}

/// The first field carrying the name is the lookup's answer.
pub proof fn lemma_obj_field_of(fields: Seq<(String, InputValue)>, name: Seq<char>, k: int)
    requires
        0 <= k < fields.len(),
        fields[k].0@ == name,
        forall|j: int| 0 <= j < k ==> (#[trigger] fields[j]).0@ != name,
    ensures
        spec_obj_field(fields, name) == Some(fields[k].1),
    decreases k,
{
    if k > 0 {
        assert(fields.drop_first()[k - 1] == fields[k]);
        assert forall|j: int|
            0 <= j < k - 1 implies (#[trigger] fields.drop_first()[j]).0@ != name by {
            assert(fields.drop_first()[j] == fields[j + 1]);
        }
        lemma_obj_field_of(fields.drop_first(), name, k - 1);
    }
}

/// Looks up the first field of an object literal carrying `name`; nothing when
/// the literal is not an object or no field carries the name.
pub fn obj_field<'a>(v: &'a InputValue, name: &str) -> (r: Option<&'a InputValue>)
    ensures
        match *v {
            InputValue::Object(fields) => match spec_obj_field(fields@, name@) {
                Some(fv) => r is Some && *r.unwrap() == fv,
                None => r is None,
            },
            _ => r is None,
        },
{
    match v {
        InputValue::Object(fields) => {
            let mut i: usize = 0;
            while i < fields.len()
                invariant
                    i <= fields@.len(),
                    *v is Object,
                    v->Object_0 == *fields,
                    forall|j: int| 0 <= j < i ==> (#[trigger] fields@[j]).0@ != name@,
                decreases fields@.len() - i,
            {
                let entry = &fields[i];
                if str_eq(entry.0.as_str(), name) {
                    proof {
                        lemma_obj_field_of(fields@, name@, i as int);
                    }
                    return Some(&entry.1);
                }
                i = i + 1;
            }
            proof {
                lemma_obj_field_props(fields@, name@);
            }
            None
        },
        _ => None,
    }
}

/// Whether a compiled filter constrains nothing: every entry is absent. Such
/// a filter accepts every row, as if the filter argument had been omitted.
pub open spec fn spec_filter_unconstrained(f: FilterWrapper) -> bool {
    &&& forall|c: int| 0 <= c < f.columns@.len() ==> (#[trigger] f.columns@[c]) is None
    &&& forall|a: int| 0 <= a < f.relations@.len() ==> (#[trigger] f.relations@[a]) is None
}

impl FilterWrapper {
    /// Hands the filter back unless it constrains nothing, in which case the
    /// query stays unfiltered.
    pub fn into_filter(self) -> (r: Option<FilterWrapper>)
        ensures
            match r {
                Some(f) => f == self && !spec_filter_unconstrained(self),
                None => spec_filter_unconstrained(self),
            },
    {
        let mut c: usize = 0;
        let mut all_absent = true;
        while c < self.columns.len()
            invariant
                c <= self.columns@.len(),
                all_absent == (forall|c2: int|
                    0 <= c2 < c ==> (#[trigger] self.columns@[c2]) is None),
            decreases self.columns@.len() - c,
        {
            if self.columns[c].is_some() {
                all_absent = false;
            }
            c = c + 1;
        }
        let mut a: usize = 0;
        while a < self.relations.len()
            invariant
                a <= self.relations@.len(),
                all_absent == ((forall|c2: int|
                    0 <= c2 < self.columns@.len() ==> (#[trigger] self.columns@[c2]) is None)
                    && (forall|a2: int|
                    0 <= a2 < a ==> (#[trigger] self.relations@[a2]) is None)),
            decreases self.relations@.len() - a,
        {
            if self.relations[a].is_some() {
                all_absent = false;
            }
            a = a + 1;
        }
        if all_absent {
            None
        } else {
            Some(self)
        }
    }
}

} // verus!
