use crate::database::{
    spec_cell_v, spec_cell_wf, spec_row_v, spec_row_wf, spec_rows_v, Connection, Row,
};
use crate::decode::{decode, spec_decode};
use crate::error::WundergraphError;
use crate::filter::obj_field;
use crate::input::InputValue;
use crate::loader::{
    resolve_placeholders, spec_log_extends, spec_request_outcome, spec_scalar_fields,
};
use crate::output::OutputValue;
use crate::primary_keys::{spec_decode_key, PrimaryKeyArgument};
use crate::query::{build_query, KeyConstraint, Query};
use crate::request::SelectionField;
use crate::run::{execute, spec_execute};
use crate::scalar::{scalar_eq, ScalarKind, ScalarV, WundergraphScalarValue};
use crate::table::{Schema, TableInfo};
use vstd::prelude::*;

verus! {

/// A delete mutation's whole result: how many rows went away. Deleted row
/// fields are never returned.
#[derive(Clone, Copy, Debug, PartialEq, Eq, Structural)]
pub struct DeletedCount {
    pub count: i64,
}

/// Whether a column may be filled by key generation: the single primary-key
/// column, of an integer kind.
pub open spec fn spec_generatable(table: TableInfo, c: int) -> bool {
    &&& table.primary_key@.len() == 1
    &&& table.primary_key@[0] == c
    &&& (table.columns@[c].kind is SmallInt || table.columns@[c].kind is Int
        || table.columns@[c].kind is BigInt)
}

/// What decoding the insert value object yields at the columns from `c` on:
/// per column the decode of the field named after it; a missing or
/// undecodable literal becomes null only for a nullable column, and the
/// single generatable key column may stay empty.
pub open spec fn spec_decode_row_cells(table: TableInfo, v: InputValue, c: int) -> Result<
    Seq<Option<ScalarV>>,
    WundergraphError,
>
    decreases table.columns@.len() - c,
{
    if c < 0 || c >= table.columns@.len() {
        Ok(Seq::empty())
    } else {
        let col = table.columns@[c];
        let cell: Result<Option<ScalarV>, WundergraphError> = if crate::filter::spec_obj_field(
            v->Object_0@,
            col.name@,
        ) is Some {
            let fv = crate::filter::spec_obj_field(v->Object_0@, col.name@).unwrap();
            if spec_decode(col.kind, fv) is Some {
                Ok(Some(spec_decode(col.kind, fv).unwrap()))
            } else if col.nullable {
                Ok(None)
            } else {
                Err(WundergraphError::MalformedArgument)
            }
        } else {
            if col.nullable || spec_generatable(table, c) {
                Ok(None)
            } else {
                Err(WundergraphError::MalformedArgument)
            }
        };
        if cell is Err {
            Err(cell->Err_0)
        } else if spec_decode_row_cells(table, v, c + 1) is Err {
            spec_decode_row_cells(table, v, c + 1)
        } else {
            Ok(seq![cell.unwrap()] + spec_decode_row_cells(table, v, c + 1).unwrap())
        }
    }
}

/// What decoding the insert value object yields: a literal that is not an
/// object is malformed; otherwise one cell per declared column, in order.
pub open spec fn spec_decode_row(table: TableInfo, v: InputValue) -> Result<
    Seq<Option<ScalarV>>,
    WundergraphError,
> {
    if v is Object {
        spec_decode_row_cells(table, v, 0)
    } else {
        Err(WundergraphError::MalformedArgument)
    }
}

/// A successful row decode yields one cell per remaining column.
pub proof fn lemma_decode_row_cells_len(table: TableInfo, v: InputValue, c: int)
    requires
        0 <= c <= table.columns@.len(),
        spec_decode_row_cells(table, v, c) is Ok,
    ensures
        spec_decode_row_cells(table, v, c).unwrap().len() == table.columns@.len() - c,
    decreases table.columns@.len() - c,
{
    if c < table.columns@.len() {
        lemma_decode_row_cells_len(table, v, c + 1);
    }
}

/// Decodes the value object of an insert into one full-arity row. A missing
/// or undecodable literal is accepted as null only for a nullable column; the
/// single integer primary-key column may stay empty, to be generated.
pub fn decode_insert_row(table: &TableInfo, v: &InputValue) -> (r: Result<Row, WundergraphError>)
    requires
        forall|k: int|
            0 <= k < table.primary_key@.len() ==> (#[trigger] table.primary_key@[k])
                < table.columns@.len(),
    ensures
        match r {
            Ok(row) => spec_decode_row(*table, *v) == Ok::<
                Seq<Option<ScalarV>>,
                WundergraphError,
            >(spec_row_v(row)) && row@.len() == table.columns@.len() && (forall|c: int|
                0 <= c < row@.len() ==> spec_cell_wf(
                    table.columns@[c],
                    spec_cell_v(#[trigger] row@[c]),
                ) || (spec_cell_v(row@[c]) is None && spec_generatable(*table, c))),
            Err(e) => spec_decode_row(*table, *v) == Err::<Seq<Option<ScalarV>>, WundergraphError>(
                e,
            ),
        },
{
    if !matches!(v, InputValue::Object(_)) {
        return Err(WundergraphError::MalformedArgument);
    }
    let single_int_pk = table.primary_key.len() == 1 && matches!(
        table.columns[table.primary_key[0]].kind,
        ScalarKind::SmallInt | ScalarKind::Int | ScalarKind::BigInt
    );
    let mut row: Row = Vec::new();
    let mut c: usize = 0;
    proof {
        assert(spec_row_v(row) + Seq::<Option<ScalarV>>::empty() =~= spec_row_v(row));
    }
    while c < table.columns.len()
        invariant
            c == row@.len(),
            c <= table.columns@.len(),
            *v is Object,
            forall|k: int|
                0 <= k < table.primary_key@.len() ==> (#[trigger] table.primary_key@[k])
                    < table.columns@.len(),
            single_int_pk == (table.primary_key@.len() == 1 && (table.columns@[
            table.primary_key@[0] as int].kind is SmallInt || table.columns@[
            table.primary_key@[0] as int].kind is Int || table.columns@[
            table.primary_key@[0] as int].kind is BigInt)),
            match spec_decode_row_cells(*table, *v, c as int) {
                Ok(rest) => spec_decode_row_cells(*table, *v, 0) == Ok::<
                    Seq<Option<ScalarV>>,
                    WundergraphError,
                >(spec_row_v(row) + rest),
                Err(e0) => spec_decode_row_cells(*table, *v, 0) == Err::<
                    Seq<Option<ScalarV>>,
                    WundergraphError,
                >(e0),
            },
            forall|c2: int|
                0 <= c2 < c ==> spec_cell_wf(
                    table.columns@[c2],
                    spec_cell_v(#[trigger] row@[c2]),
                ) || (spec_cell_v(row@[c2]) is None && spec_generatable(*table, c2)),
        decreases table.columns@.len() - c,
    {
        let col = &table.columns[c];
        let is_gen_col = single_int_pk && table.primary_key[0] == c;
        let cell: Option<WundergraphScalarValue> = match obj_field(v, col.name.as_str()) {
            Some(fv) => match decode(col.kind, fv) {
                Some(x) => Some(x),
                None => {
                    if col.nullable {
                        None
                    } else {
                        return Err(WundergraphError::MalformedArgument);
                    }
                },
            },
            None => {
                if col.nullable || is_gen_col {
                    None
                } else {
                    return Err(WundergraphError::MalformedArgument);
                }
            },
        };
        let ghost pre = spec_row_v(row);
        let ghost cellv = spec_cell_v(cell);
        row.push(cell);
        proof {
            assert(spec_row_v(row) =~= pre + seq![cellv]);
            if spec_decode_row_cells(*table, *v, c + 1) is Ok {
                let rest = spec_decode_row_cells(*table, *v, c + 1).unwrap();
                assert(pre + (seq![cellv] + rest) =~= spec_row_v(row) + rest);
            }
        }
        c = c + 1;
    }
    proof {
        assert(spec_row_v(row) + Seq::<Option<ScalarV>>::empty() =~= spec_row_v(row));
    }
    Ok(row)
}

/// The integer a stored key cell carries/// The integer a stored key cell carries; a non-integer or null cell counts
/// as zero for key generation.
pub open spec fn spec_stored_int(cell: Option<ScalarV>) -> int {
    match cell {
        Some(ScalarV::SmallInt(x)) => x as int,
        Some(ScalarV::Int(x)) => x as int,
        Some(ScalarV::BigInt(x)) => x as int,
        _ => 0,
    }
}

/// The larger of two integers.
pub open spec fn spec_imax(a: int, b: int) -> int {
    if a >= b {
        a
    } else {
        b
    }
}

/// The largest stored key at one column from position `i` on, never below
/// zero.
pub open spec fn spec_max_stored(rows: Seq<Seq<Option<ScalarV>>>, col: int, i: int) -> int
    decreases rows.len() - i,
{
    if i < 0 || i >= rows.len() {
        0
    } else {
        spec_imax(spec_stored_int(rows[i][col]), spec_max_stored(rows, col, i + 1))
    }
}

/// The key generation picks one past the largest stored key.
pub open spec fn spec_generate_key(
    rows: Seq<Seq<Option<ScalarV>>>,
    col: int,
    kind: ScalarKind,
) -> Option<ScalarV> {
    let m = spec_max_stored(rows, col, 0);
    if m >= i64::MAX as int {
        None
    } else {
        match kind {
            ScalarKind::SmallInt => if m + 1 > i16::MAX as int {
                None
            } else {
                Some(ScalarV::SmallInt((m + 1) as i16))
            },
            ScalarKind::Int => if m + 1 > i32::MAX as int {
                None
            } else {
                Some(ScalarV::Int((m + 1) as i32))
            },
            _ => Some(ScalarV::BigInt((m + 1) as i64)),
        }
    }
}

/// The running maximum never drops below zero.
pub proof fn lemma_max_stored_nonneg(rows: Seq<Seq<Option<ScalarV>>>, col: int, i: int)
    ensures
        spec_max_stored(rows, col, i) >= 0,
    decreases rows.len() - i,
{
    if 0 <= i < rows.len() {
        lemma_max_stored_nonneg(rows, col, i + 1);
    }
}

/// Every stored key is at most the running maximum.
pub proof fn lemma_max_stored_bound(rows: Seq<Seq<Option<ScalarV>>>, col: int, lo: int, i: int)
    requires
        0 <= lo <= i < rows.len(),
    ensures
        spec_stored_int(rows[i][col]) <= spec_max_stored(rows, col, lo),
    decreases i - lo,
{
    lemma_max_stored_nonneg(rows, col, lo + 1);
    if lo < i {
        lemma_max_stored_bound(rows, col, lo + 1, i);
    }
}

/// Picks the next generated key for the single integer primary-key column:
/// one past the largest stored key, starting at one — in particular strictly
/// larger than, and so distinct from, every stored key of the column.
pub fn generate_key(
    rows: &Vec<Row>,
    col: usize,
    kind: ScalarKind,
) -> (r: Result<WundergraphScalarValue, WundergraphError>)
    requires
        kind is SmallInt || kind is Int || kind is BigInt,
        forall|i: int| 0 <= i < rows@.len() ==> col < (#[trigger] rows@[i])@.len(),
    ensures
        match r {
            Ok(x) => spec_generate_key(spec_rows_v(rows@), col as int, kind) == Some(x@)
                && x.spec_kind() == kind && (forall|i: int|
                0 <= i < rows@.len() ==> spec_stored_int(
                    #[trigger] spec_rows_v(rows@)[i][col as int],
                ) < spec_stored_int(Some(x@))),
            Err(e) => spec_generate_key(spec_rows_v(rows@), col as int, kind) is None && e
                == WundergraphError::BackendExecutionError,
        },
{
    let ghost rv = spec_rows_v(rows@);
    let mut max: i64 = 0;
    let mut i: usize = 0;
    proof {
        lemma_max_stored_nonneg(rv, col as int, 0);
    }
    while i < rows.len()
        invariant
            i <= rows@.len(),
            max >= 0,
            rv == spec_rows_v(rows@),
            forall|i2: int| 0 <= i2 < rows@.len() ==> col < (#[trigger] rows@[i2])@.len(),
            spec_imax(max as int, spec_max_stored(rv, col as int, i as int)) == spec_max_stored(
                rv,
                col as int,
                0,
            ),
        decreases rows@.len() - i,
    {
        proof {
            assert(rv[i as int] == spec_row_v(rows@[i as int]));
            lemma_max_stored_nonneg(rv, col as int, i + 1);
        }
        let next: i64 = match &rows[i][col] {
            Some(WundergraphScalarValue::SmallInt(x)) => *x as i64,
            Some(WundergraphScalarValue::Int(x)) => *x as i64,
            Some(WundergraphScalarValue::BigInt(x)) => *x,
            _ => 0,
        };
        proof {
            assert(next as int == spec_stored_int(rv[i as int][col as int]) || (next as int <= 0
                && spec_stored_int(rv[i as int][col as int]) == next as int));
        }
        if next > max {
            max = next;
        }
        i = i + 1;
    }
    proof {
        assert(max as int == spec_max_stored(rv, col as int, 0));
        assert forall|i2: int| 0 <= i2 < rows@.len() implies spec_stored_int(
            #[trigger] rv[i2][col as int],
        ) <= max as int by {
            lemma_max_stored_bound(rv, col as int, 0, i2);
        }
    }
    if max == i64::MAX {
        return Err(WundergraphError::BackendExecutionError);
    }
    let next = max + 1;
    match kind {
        ScalarKind::SmallInt => {
            if next > i16::MAX as i64 {
                Err(WundergraphError::BackendExecutionError)
            } else {
                Ok(WundergraphScalarValue::SmallInt(next as i16))
            }
        },
        ScalarKind::Int => {
            if next > i32::MAX as i64 {
                Err(WundergraphError::BackendExecutionError)
            } else {
                Ok(WundergraphScalarValue::Int(next as i32))
            }
        },
        _ => Ok(WundergraphScalarValue::BigInt(next)),
    }
}

/// Whether two rows carry the same value in every key column.
pub open spec fn spec_same_key(
    pkcols: Seq<usize>,
    a: Seq<Option<ScalarV>>,
    b: Seq<Option<ScalarV>>,
) -> bool {
    forall|k: int|
        0 <= k < pkcols.len() ==> a[(#[trigger] pkcols[k]) as int] == b[pkcols[k] as int]
}

/// Whether some stored row carries the candidate's primary key.
pub open spec fn spec_key_taken(
    rows: Seq<Seq<Option<ScalarV>>>,
    pkcols: Seq<usize>,
    cand: Seq<Option<ScalarV>>,
) -> bool {
    exists|i: int| 0 <= i < rows.len() && #[trigger] spec_same_key(pkcols, rows[i], cand)
}

/// Whether a stored row carries the same primary key as the candidate row.
pub fn same_primary_key(table: &TableInfo, a: &Row, b: &Row) -> (r: bool)
    requires
        forall|k: int|
            0 <= k < table.primary_key@.len() ==> (#[trigger] table.primary_key@[k]) < a@.len()
                && table.primary_key@[k] < b@.len(),
    ensures
        r == spec_same_key(table.primary_key@, spec_row_v(*a), spec_row_v(*b)),
{
    let mut k: usize = 0;
    while k < table.primary_key.len()
        invariant
            k <= table.primary_key@.len(),
            forall|k2: int|
                0 <= k2 < table.primary_key@.len() ==> (#[trigger] table.primary_key@[k2])
                    < a@.len() && table.primary_key@[k2] < b@.len(),
            forall|k2: int|
                0 <= k2 < k ==> spec_cell_v(a@[(#[trigger] table.primary_key@[k2]) as int])
                    == spec_cell_v(b@[table.primary_key@[k2] as int]),
        decreases table.primary_key@.len() - k,
    {
        let col = table.primary_key[k];
        let same = match (&a[col], &b[col]) {
            (Some(x), Some(y)) => scalar_eq(x, y),
            (None, None) => true,
            _ => false,
        };
        if !same {
            return false;
        }
        k = k + 1;
    }
    true
}

/// Whether some stored row carries the candidate's primary key.
pub fn key_taken(table: &TableInfo, rows: &Vec<Row>, candidate: &Row) -> (r: bool)
    requires
        forall|k: int|
            0 <= k < table.primary_key@.len() ==> (#[trigger] table.primary_key@[k])
                < candidate@.len(),
        forall|i: int, k: int|
            0 <= i < rows@.len() && 0 <= k < table.primary_key@.len() ==> (
            #[trigger] table.primary_key@[k]) < (#[trigger] rows@[i])@.len(),
    ensures
        r == spec_key_taken(spec_rows_v(rows@), table.primary_key@, spec_row_v(*candidate)),
{
    let ghost rv = spec_rows_v(rows@);
    let mut i: usize = 0;
    while i < rows.len()
        invariant
            i <= rows@.len(),
            rv == spec_rows_v(rows@),
            forall|k: int|
                0 <= k < table.primary_key@.len() ==> (#[trigger] table.primary_key@[k])
                    < candidate@.len(),
            forall|i2: int, k: int|
                0 <= i2 < rows@.len() && 0 <= k < table.primary_key@.len() ==> (
                #[trigger] table.primary_key@[k]) < (#[trigger] rows@[i2])@.len(),
            forall|i2: int|
                0 <= i2 < i ==> !spec_same_key(
                    table.primary_key@,
                    rv[i2],
                    spec_row_v(*candidate),
                ),
        decreases rows@.len() - i,
    {
        proof {
            assert(rv[i as int] == spec_row_v(rows@[i as int]));
        }
        if same_primary_key(table, &rows[i], candidate) {
            proof {
                assert(spec_same_key(table.primary_key@, rv[i as int], spec_row_v(*candidate)));
            }
            return true;
        }
        i = i + 1;
    }
    false
}

/// The primary-key cells of one row, as a key tuple; fails on a null cell.
fn key_of_row(table: &TableInfo, row: &Row) -> (r: Result<
    Vec<WundergraphScalarValue>,
    WundergraphError,
>)
    requires
        forall|k: int|
            0 <= k < table.primary_key@.len() ==> (#[trigger] table.primary_key@[k]) < row@.len(),
    ensures
        match r {
            Ok(key) => key@.len() == table.primary_key@.len() && (forall|k: int|
                0 <= k < key@.len() ==> Some((#[trigger] key@[k])@) == spec_row_v(*row)[
                table.primary_key@[k] as int]),
            Err(e) => e == WundergraphError::BackendExecutionError && (exists|k: int|
                0 <= k < table.primary_key@.len() && spec_row_v(*row)[(
                #[trigger] table.primary_key@[k]) as int] is None),
        },
{
    let mut key: Vec<WundergraphScalarValue> = Vec::new();
    let mut k: usize = 0;
    while k < table.primary_key.len()
        invariant
            k == key@.len(),
            k <= table.primary_key@.len(),
            forall|k2: int|
                0 <= k2 < table.primary_key@.len() ==> (#[trigger] table.primary_key@[k2])
                    < row@.len(),
            forall|k2: int|
                0 <= k2 < k ==> Some((#[trigger] key@[k2])@) == spec_row_v(*row)[
                table.primary_key@[k2] as int],
        decreases table.primary_key@.len() - k,
    {
        match &row[table.primary_key[k]] {
            Some(x) => {
                key.push(x.duplicate());
            },
            None => {
                return Err(WundergraphError::BackendExecutionError);
            },
        }
        k = k + 1;
    }
    Ok(key)
}

/// Copies the primary-key column indexes of a table.
fn pk_columns(table: &TableInfo) -> (r: Vec<usize>)
    ensures
        r@ == table.primary_key@,
{
    let mut cols: Vec<usize> = Vec::new();
    let mut k: usize = 0;
    while k < table.primary_key.len()
        invariant
            k == cols@.len(),
            k <= table.primary_key@.len(),
            forall|k2: int| 0 <= k2 < k ==> cols@[k2] == table.primary_key@[k2],
        decreases table.primary_key@.len() - k,
    {
        cols.push(table.primary_key[k]);
        k = k + 1;
    }
    proof {
        assert(cols@ =~= table.primary_key@);
    }
    cols
}

/// Runs an insert mutation in one transaction: decode the value object,
/// generate the key if the single integer key column was left empty, refuse a
/// duplicate key, insert, and requery the inserted row under the caller's own
/// selection. A requery that finds the row no longer visible is a success
/// carrying no value; any failure after the insert rolls the row back.
#[verifier::rlimit(100)]
pub fn handle_insert(
    conn: &mut Connection,
    schema: &Schema,
    t: usize,
    field_name: &str,
    request: &SelectionField,
) -> (r: Result<Option<OutputValue>, WundergraphError>)
    requires
        schema.spec_wf(),
        old(conn).database.spec_wf(*schema),
        t < schema.tables@.len(),
    ensures
        final(conn).backend == old(conn).backend,
        final(conn).database.spec_wf(*schema),
        spec_log_extends(old(conn).query_log@, final(conn).query_log@),
        request.spec_argument(field_name@) is None ==> r == Err::<
            Option<OutputValue>,
            WundergraphError,
        >(WundergraphError::MissingArgument),
        r is Err ==> final(conn).database.spec_v() == old(conn).database.spec_v(),
        match r {
            Err(e) => {
                ||| (request.spec_argument(field_name@) is None && e
                    == WundergraphError::MissingArgument)
                ||| (request.spec_argument(field_name@) is Some && spec_decode_row(
                    schema.tables@[t as int],
                    request.spec_argument(field_name@).unwrap(),
                ) == Err::<Seq<Option<ScalarV>>, WundergraphError>(e))
                ||| e == WundergraphError::BackendExecutionError
                ||| spec_request_outcome(*schema, t as int, *request) == Err::<
                    (),
                    WundergraphError,
                >(e)
            },
            Ok(res) => {
                &&& request.spec_argument(field_name@) is Some
                &&& spec_decode_row(
                    schema.tables@[t as int],
                    request.spec_argument(field_name@).unwrap(),
                ) is Ok
                &&& spec_request_outcome(*schema, t as int, *request) is Ok
                &&& (exists|rv: Seq<Option<ScalarV>>, q: Query|
                    #![trigger spec_row_wf(schema.tables@[t as int], rv), crate::query::spec_query_matches_base(*schema, old(conn).backend, t as int, *request, q)]
                    {
                        let dec = spec_decode_row(
                            schema.tables@[t as int],
                            request.spec_argument(field_name@).unwrap(),
                        ).unwrap();
                        &&& spec_row_wf(schema.tables@[t as int], rv)
                        &&& rv.len() == dec.len()
                        &&& (forall|c: int|
                            0 <= c < rv.len() && !(spec_generatable(schema.tables@[t as int], c)
                                && dec[c] is None) ==> #[trigger] rv[c] == dec[c])
                        &&& (forall|c: int|
                            0 <= c < rv.len() && spec_generatable(schema.tables@[t as int], c)
                                && dec[c] is None ==> (#[trigger] rv[c]) is Some
                                && crate::database::spec_scalar_v_kind(rv[c].unwrap())
                                == schema.tables@[t as int].columns@[c].kind)
                        &&& !spec_key_taken(
                            old(conn).database.spec_v()[t as int],
                            schema.tables@[t as int].primary_key@,
                            rv,
                        )
                        &&& final(conn).database.spec_v() == old(
                            conn,
                        ).database.spec_v().update(
                            t as int,
                            old(conn).database.spec_v()[t as int].push(rv),
                        )
                        &&& crate::query::spec_query_matches_base(
                            *schema,
                            old(conn).backend,
                            t as int,
                            *request,
                            q,
                        )
                        &&& q.spec_wf(*schema)
                        &&& q.key_in is Some
                        &&& q.key_in.unwrap().columns@ == schema.tables@[t as int].primary_key@
                        &&& q.key_in.unwrap().keys@.len() == 1
                        &&& (forall|k: int|
                            0 <= k < schema.tables@[t as int].primary_key@.len() ==> Some(
                                (#[trigger] q.key_in.unwrap().keys@[0]@[k])@,
                            ) == rv[schema.tables@[t as int].primary_key@[k] as int])
                        &&& (res is None <==> spec_execute(
                            final(conn).database,
                            *schema,
                            q,
                        ).len() == 0)
                        &&& match res {
                            Some(val) => {
                                let sf = spec_scalar_fields(
                                    schema.tables@[t as int],
                                    *request,
                                    spec_execute(final(conn).database, *schema, q)[0],
                                    0,
                                );
                                &&& sf is Some
                                &&& val@ is Object
                                &&& val@->Object_0.take(sf.unwrap().len() as int) == sf.unwrap()
                            },
                            None => true,
                        }
                    })
            },
        },
        ({
            // success owed: a decodable argument whose key is fully given and
            // free, under a well-formed request, inserts
            &&& request.spec_argument(field_name@) is Some
            &&& spec_decode_row(
                schema.tables@[t as int],
                request.spec_argument(field_name@).unwrap(),
            ) is Ok
            &&& (forall|k: int|
                0 <= k < schema.tables@[t as int].primary_key@.len() ==> spec_decode_row(
                    schema.tables@[t as int],
                    request.spec_argument(field_name@).unwrap(),
                ).unwrap()[(#[trigger] schema.tables@[t as int].primary_key@[k]) as int] is Some)
            &&& !spec_key_taken(
                old(conn).database.spec_v()[t as int],
                schema.tables@[t as int].primary_key@,
                spec_decode_row(
                    schema.tables@[t as int],
                    request.spec_argument(field_name@).unwrap(),
                ).unwrap(),
            )
            &&& spec_request_outcome(*schema, t as int, *request) is Ok
        }) ==> r is Ok,
        ({
            // success owed with a generated key: the single integer key column
            // was left empty and a fresh key exists
            &&& request.spec_argument(field_name@) is Some
            &&& spec_decode_row(
                schema.tables@[t as int],
                request.spec_argument(field_name@).unwrap(),
            ) is Ok
            &&& schema.tables@[t as int].primary_key@.len() == 1
            &&& spec_generatable(
                schema.tables@[t as int],
                schema.tables@[t as int].primary_key@[0] as int,
            )
            &&& spec_decode_row(
                schema.tables@[t as int],
                request.spec_argument(field_name@).unwrap(),
            ).unwrap()[schema.tables@[t as int].primary_key@[0] as int] is None
            &&& spec_generate_key(
                old(conn).database.spec_v()[t as int],
                schema.tables@[t as int].primary_key@[0] as int,
                schema.tables@[t as int].columns@[schema.tables@[t as int].primary_key@[0] as int].kind,
            ) is Some
            &&& spec_request_outcome(*schema, t as int, *request) is Ok
        }) ==> r is Ok,
{
    let table = &schema.tables[t];
    proof {
        assert(schema.tables@[t as int].spec_wf_local(schema.capabilities));
        assert(spec_rows_v(conn.database.tables@[t as int]@) == old(
            conn,
        ).database.spec_v()[t as int]);
    }
    let arg = match request.argument(field_name) {
        Some(arg) => arg,
        None => {
            return Err(WundergraphError::MissingArgument);
        },
    };
    let mut row = match decode_insert_row(table, arg) {
        Ok(row) => row,
        Err(e) => {
            return Err(e);
        },
    };
    let ghost dec_v = spec_row_v(row);
    let ghost mut generated: Option<ScalarV> = None;
    // fill a generated key where the single integer key column stayed empty
    if table.primary_key.len() == 1 {
        let pkcol = table.primary_key[0];
        if row[pkcol].is_none() {
            match generate_key(&conn.database.tables[t], pkcol, table.columns[pkcol].kind) {
                Ok(x) => {
                    proof {
                        generated = Some(x@);
                    }
                    row[pkcol] = Some(x);
                    proof {
                        assert(spec_row_v(row) =~= dec_v.update(pkcol as int, Some(x@)));
                    }
                },
                Err(e) => {
                    return Err(e);
                },
            }
        }
    }
    proof {
        assert(spec_row_wf(schema.tables@[t as int], spec_row_v(row)));
    }
    // a duplicate primary key violates the store's one constraint
    if key_taken(table, &conn.database.tables[t], &row) {
        proof {
            match generated {
                Some(genv) => {
                    // a generated key is strictly beyond every stored key, so
                    // it can never collide
                    let rowsv = spec_rows_v(conn.database.tables@[t as int]@);
                    let pk0 = schema.tables@[t as int].primary_key@[0] as int;
                    assert forall|i2: int| 0 <= i2 < rowsv.len() implies !spec_same_key(
                        schema.tables@[t as int].primary_key@,
                        rowsv[i2],
                        spec_row_v(row),
                    ) by {
                        assert(spec_row_wf(
                            schema.tables@[t as int],
                            spec_row_v(conn.database.tables@[t as int]@[i2]),
                        ));
                        assert(rowsv[i2] == spec_row_v(conn.database.tables@[t as int]@[i2]));
                        if spec_same_key(
                            schema.tables@[t as int].primary_key@,
                            rowsv[i2],
                            spec_row_v(row),
                        ) {
                            assert(rowsv[i2][pk0] == spec_row_v(row)[pk0]);
                            assert(spec_stored_int(rowsv[i2][pk0]) < spec_stored_int(Some(genv)));
                        }
                    }
                    assert(false);
                },
                None => {},
            }
        }
        return Err(WundergraphError::BackendExecutionError);
    }
    let key = match key_of_row(table, &row) {
        Ok(key) => key,
        Err(e) => {
            return Err(e);
        },
    };
    let ghost rowv = spec_row_v(row);
    let ghost old_db = conn.database;
    let old_len = conn.database.tables[t].len();
    proof {
        assert(spec_rows_v(conn.database.tables@[t as int]@) == old(
            conn,
        ).database.spec_v()[t as int]);
    }
    conn.database.tables[t].push(row);
    proof {
        lemma_db_push(old_db, conn.database, *schema, t as int, rowv);
    }
    // requery the inserted row under the caller's own selection
    let mut q = match build_query(schema, conn.backend, t, request) {
        Ok(q) => q,
        Err(e) => {
            conn.database.tables[t].truncate(old_len);
            proof {
                assert(conn.database.tables@[t as int]@ =~= old_db.tables@[t as int]@);
                lemma_db_restored(old_db, conn.database, *schema, t as int);
            }
            return Err(e);
        },
    };
    let ghost keyv = key@;
    let mut keyset: Vec<Vec<WundergraphScalarValue>> = Vec::new();
    keyset.push(key);
    q.key_in = Some(KeyConstraint { columns: pk_columns(table), keys: keyset });
    let phs = execute(conn, schema, &q);
    proof {
        assert(crate::database::spec_placeholders_v(phs@).len() == spec_execute(
            conn.database,
            *schema,
            q,
        ).len());
        assert forall|i: int| 0 <= i < phs@.len() implies (#[trigger] phs@[i]).spec_v()
            == spec_execute(conn.database, *schema, q)[i] by {
            assert(crate::database::spec_placeholders_v(phs@)[i] == phs@[i].spec_v());
        }
    }
    match resolve_placeholders(conn, schema, t, request, &phs) {
        Ok(mut vals) => {
            proof {
                assert(crate::query::spec_query_matches_base(
                    *schema,
                    old(conn).backend,
                    t as int,
                    *request,
                    q,
                ));
                assert(q.key_in.unwrap().keys@[0]@ == keyv);
            }
            if vals.len() == 0 {
                // the row is no longer visible under the caller's selection:
                // a success carrying no value, not an error
                Ok(None)
            } else {
                let first = vals.remove(0);
                Ok(Some(first))
            }
        },
        Err(e) => {
            conn.database.tables[t].truncate(old_len);
            proof {
                assert(conn.database.tables@[t as int]@ =~= old_db.tables@[t as int]@);
                lemma_db_restored(old_db, conn.database, *schema, t as int);
            }
            Err(e)
        },
    }
}

/// Appending one well-formed row keeps the store well formed and appends its
/// value at the table's slot.
pub proof fn lemma_db_push(
    older: crate::database::Database,
    newer: crate::database::Database,
    schema: Schema,
    t: int,
    rowv: Seq<Option<ScalarV>>,
)
    requires
        older.spec_wf(schema),
        0 <= t < older.tables@.len(),
        spec_row_wf(schema.tables@[t], rowv),
        newer.tables@.len() == older.tables@.len(),
        newer.tables@[t]@.len() == older.tables@[t]@.len() + 1,
        forall|i: int|
            0 <= i < older.tables@[t]@.len() ==> #[trigger] newer.tables@[t]@[i]
                == older.tables@[t]@[i],
        spec_row_v(newer.tables@[t]@[older.tables@[t]@.len() as int]) == rowv,
        forall|t2: int|
            0 <= t2 < older.tables@.len() && t2 != t ==> #[trigger] newer.tables@[t2]
                == older.tables@[t2],
    ensures
        newer.spec_wf(schema),
        newer.spec_v() == older.spec_v().update(t, older.spec_v()[t].push(rowv)),
{
    assert forall|t2: int, i: int|
        0 <= t2 < newer.tables@.len() && 0 <= i < newer.tables@[t2]@.len() implies spec_row_wf(
        schema.tables@[t2],
        spec_row_v(#[trigger] newer.tables@[t2]@[i]),
    ) by {
        if t2 == t {
            if i < older.tables@[t]@.len() {
                assert(spec_row_wf(schema.tables@[t2], spec_row_v(older.tables@[t2]@[i])));
            }
        } else {
            assert(spec_row_wf(schema.tables@[t2], spec_row_v(older.tables@[t2]@[i])));
        }
    }
    assert forall|t2: int|
        0 <= t2 < newer.tables@.len() implies newer.spec_v()[t2] == older.spec_v().update(
        t,
        older.spec_v()[t].push(rowv),
    )[t2] by {
        if t2 == t {
            assert(spec_rows_v(newer.tables@[t2]@) =~= spec_rows_v(older.tables@[t2]@).push(rowv));
        } else {
            assert(spec_rows_v(newer.tables@[t2]@) =~= spec_rows_v(older.tables@[t2]@));
        }
    }
    assert(newer.spec_v() =~= older.spec_v().update(t, older.spec_v()[t].push(rowv)));
}

/// A store whose tables all carry the old values again has the old value.
pub proof fn lemma_db_restored(
    older: crate::database::Database,
    newer: crate::database::Database,
    schema: Schema,
    t: int,
)
    requires
        older.spec_wf(schema),
        newer.tables@.len() == older.tables@.len(),
        0 <= t < older.tables@.len(),
        forall|t2: int|
            0 <= t2 < older.tables@.len() && t2 != t ==> #[trigger] newer.tables@[t2]
                == older.tables@[t2],
        newer.tables@[t]@ == older.tables@[t]@,
    ensures
        newer.spec_v() == older.spec_v(),
        newer.spec_wf(schema),
{
    assert forall|t2: int|
        0 <= t2 < newer.tables@.len() implies newer.spec_v()[t2] == older.spec_v()[t2] by {
        if t2 == t {
            assert(spec_rows_v(newer.tables@[t2]@) =~= spec_rows_v(older.tables@[t2]@));
        }
    }
    assert(newer.spec_v() =~= older.spec_v());
    assert forall|t2: int, i: int|
        0 <= t2 < newer.tables@.len() && 0 <= i < newer.tables@[t2]@.len() implies spec_row_wf(
        schema.tables@[t2],
        spec_row_v(#[trigger] newer.tables@[t2]@[i]),
    ) by {
        assert(spec_row_wf(schema.tables@[t2], spec_row_v(older.tables@[t2]@[i])));
    }
}

/// Appending several well-formed rows keeps the store well formed and appends
/// their values at the table's slot.
pub proof fn lemma_db_append(
    older: crate::database::Database,
    newer: crate::database::Database,
    schema: Schema,
    t: int,
    rvs: Seq<Seq<Option<ScalarV>>>,
)
    requires
        older.spec_wf(schema),
        0 <= t < older.tables@.len(),
        forall|i: int| 0 <= i < rvs.len() ==> spec_row_wf(schema.tables@[t], #[trigger] rvs[i]),
        newer.tables@.len() == older.tables@.len(),
        newer.tables@[t]@.len() == older.tables@[t]@.len() + rvs.len(),
        forall|i: int|
            0 <= i < older.tables@[t]@.len() ==> #[trigger] newer.tables@[t]@[i]
                == older.tables@[t]@[i],
        forall|i: int|
            0 <= i < rvs.len() ==> spec_row_v(
                #[trigger] newer.tables@[t]@[older.tables@[t]@.len() + i],
            ) == rvs[i],
        forall|t2: int|
            0 <= t2 < older.tables@.len() && t2 != t ==> #[trigger] newer.tables@[t2]
                == older.tables@[t2],
    ensures
        newer.spec_wf(schema),
        newer.spec_v() == older.spec_v().update(t, older.spec_v()[t] + rvs),
{
    assert forall|t2: int, i: int|
        0 <= t2 < newer.tables@.len() && 0 <= i < newer.tables@[t2]@.len() implies spec_row_wf(
        schema.tables@[t2],
        spec_row_v(#[trigger] newer.tables@[t2]@[i]),
    ) by {
        if t2 == t {
            if i < older.tables@[t]@.len() {
                assert(spec_row_wf(schema.tables@[t2], spec_row_v(older.tables@[t2]@[i])));
            } else {
                let i0 = i - older.tables@[t]@.len();
                assert(spec_row_v(newer.tables@[t]@[older.tables@[t]@.len() + i0]) == rvs[i0]);
            }
        } else {
            assert(spec_row_wf(schema.tables@[t2], spec_row_v(older.tables@[t2]@[i])));
        }
    }
    assert forall|t2: int|
        0 <= t2 < newer.tables@.len() implies newer.spec_v()[t2] == older.spec_v().update(
        t,
        older.spec_v()[t] + rvs,
    )[t2] by {
        if t2 == t {
            assert forall|i: int|
                0 <= i < newer.tables@[t]@.len() implies spec_rows_v(newer.tables@[t]@)[i] == (
            spec_rows_v(older.tables@[t]@) + rvs)[i] by {
                if i >= older.tables@[t]@.len() {
                    let i0 = i - older.tables@[t]@.len();
                    assert(spec_row_v(newer.tables@[t]@[older.tables@[t]@.len() + i0]) == rvs[i0]);
                }
            }
            assert(spec_rows_v(newer.tables@[t2]@) =~= spec_rows_v(older.tables@[t2]@) + rvs);
        } else {
            assert(spec_rows_v(newer.tables@[t2]@) =~= spec_rows_v(older.tables@[t2]@));
        }
    }
    assert(newer.spec_v() =~= older.spec_v().update(t, older.spec_v()[t] + rvs));
}

/// Runs a batch insert in one transaction: every listed value object is
/// decoded and inserted in one statement's worth of work, the generated keys
/// are collected, and the batch is requeried as one query keyed by all of
/// them, ordered by the requery's own order argument. Any failure — a
/// malformed row, a duplicate key anywhere in the batch, a failing requery —
/// rolls the whole batch back: a partially inserted batch never becomes
/// visible.
#[verifier::rlimit(100)]
/// The conditions under which a batch insert is owed success: the argument is
/// a list whose every entry decodes with a fully given key, the keys are
/// pairwise distinct and none is already stored, and the requery's request is
/// well formed.
pub open spec fn spec_batch_given_keys_free(
    schema: Schema,
    t: int,
    field_name: Seq<char>,
    request: SelectionField,
    stored: Seq<Seq<Option<ScalarV>>>,
) -> bool {
    &&& request.spec_argument(field_name) is Some
    &&& request.spec_argument(field_name).unwrap() is List
    &&& (forall|e2: int|
        0 <= e2 < request.spec_argument(field_name).unwrap()->List_0@.len() ==> spec_decode_row(
            schema.tables@[t],
            #[trigger] request.spec_argument(field_name).unwrap()->List_0@[e2],
        ) is Ok)
    &&& (forall|e2: int, k: int|
        #![trigger request.spec_argument(field_name).unwrap()->List_0@[e2], schema.tables@[t].primary_key@[k]]
        0 <= e2 < request.spec_argument(field_name).unwrap()->List_0@.len() && 0 <= k
            < schema.tables@[t].primary_key@.len() ==> spec_decode_row(
            schema.tables@[t],
            request.spec_argument(field_name).unwrap()->List_0@[e2],
        ).unwrap()[schema.tables@[t].primary_key@[k] as int] is Some)
    &&& (forall|e1: int, e2: int|
        0 <= e1 < e2 < request.spec_argument(field_name).unwrap()->List_0@.len()
            ==> !spec_same_key(
            schema.tables@[t].primary_key@,
            spec_decode_row(
                schema.tables@[t],
                #[trigger] request.spec_argument(field_name).unwrap()->List_0@[e1],
            ).unwrap(),
            spec_decode_row(
                schema.tables@[t],
                #[trigger] request.spec_argument(field_name).unwrap()->List_0@[e2],
            ).unwrap(),
        ))
    &&& (forall|e2: int|
        0 <= e2 < request.spec_argument(field_name).unwrap()->List_0@.len() ==> !spec_key_taken(
            stored,
            schema.tables@[t].primary_key@,
            spec_decode_row(
                schema.tables@[t],
                #[trigger] request.spec_argument(field_name).unwrap()->List_0@[e2],
            ).unwrap(),
        ))
    &&& spec_request_outcome(schema, t, request) is Ok
}

pub fn handle_batch_insert(
    conn: &mut Connection,
    schema: &Schema,
    t: usize,
    field_name: &str,
    request: &SelectionField,
) -> (r: Result<Vec<OutputValue>, WundergraphError>)
    requires
        schema.spec_wf(),
        old(conn).database.spec_wf(*schema),
        t < schema.tables@.len(),
    ensures
        final(conn).backend == old(conn).backend,
        final(conn).database.spec_wf(*schema),
        spec_log_extends(old(conn).query_log@, final(conn).query_log@),
        request.spec_argument(field_name@) is None ==> r == Err::<
            Vec<OutputValue>,
            WundergraphError,
        >(WundergraphError::MissingArgument),
        r is Err ==> final(conn).database.spec_v() == old(conn).database.spec_v(),
        match r {
            Err(e) => {
                ||| (request.spec_argument(field_name@) is None && e
                    == WundergraphError::MissingArgument)
                ||| (request.spec_argument(field_name@) is Some && !(request.spec_argument(
                    field_name@,
                ).unwrap() is List) && e == WundergraphError::MalformedArgument)
                ||| (request.spec_argument(field_name@) is Some && request.spec_argument(
                    field_name@,
                ).unwrap() is List && (exists|e2: int|
                    0 <= e2 < request.spec_argument(field_name@).unwrap()->List_0@.len()
                        && spec_decode_row(
                        schema.tables@[t as int],
                        #[trigger] request.spec_argument(field_name@).unwrap()->List_0@[e2],
                    ) == Err::<Seq<Option<ScalarV>>, WundergraphError>(e)))
                ||| e == WundergraphError::BackendExecutionError
                ||| spec_request_outcome(*schema, t as int, *request) == Err::<
                    (),
                    WundergraphError,
                >(e)
            },
            Ok(vals) => {
                &&& request.spec_argument(field_name@) is Some
                &&& request.spec_argument(field_name@).unwrap() is List
                &&& spec_request_outcome(*schema, t as int, *request) is Ok
                &&& (exists|rvs: Seq<Seq<Option<ScalarV>>>, q: Query|
                    #![trigger rvs.len(), crate::query::spec_query_matches_base(*schema, old(conn).backend, t as int, *request, q)]
                    {
                        let list = request.spec_argument(field_name@).unwrap()->List_0@;
                        &&& rvs.len() == list.len()
                        &&& (forall|e2: int|
                            0 <= e2 < rvs.len() ==> spec_row_wf(
                                schema.tables@[t as int],
                                #[trigger] rvs[e2],
                            ))
                        &&& (forall|e2: int|
                            0 <= e2 < rvs.len() ==> spec_decode_row(
                                schema.tables@[t as int],
                                #[trigger] list[e2],
                            ) is Ok)
                        &&& (forall|e2: int, c: int|
                            #![trigger rvs[e2][c]]
                            0 <= e2 < rvs.len() && 0 <= c < rvs[e2].len() ==> {
                                let dec = spec_decode_row(
                                    schema.tables@[t as int],
                                    list[e2],
                                ).unwrap();
                                &&& rvs[e2].len() == dec.len()
                                &&& (!(spec_generatable(schema.tables@[t as int], c) && dec[c]
                                    is None) ==> rvs[e2][c] == dec[c])
                                &&& (spec_generatable(schema.tables@[t as int], c) && dec[c]
                                    is None ==> rvs[e2][c] is Some
                                    && crate::database::spec_scalar_v_kind(rvs[e2][c].unwrap())
                                    == schema.tables@[t as int].columns@[c].kind)
                            })
                        &&& (forall|e1: int, e2: int|
                            0 <= e1 < e2 < rvs.len() ==> !spec_same_key(
                                schema.tables@[t as int].primary_key@,
                                #[trigger] rvs[e1],
                                #[trigger] rvs[e2],
                            ))
                        &&& (forall|e2: int|
                            0 <= e2 < rvs.len() ==> !spec_key_taken(
                                old(conn).database.spec_v()[t as int],
                                schema.tables@[t as int].primary_key@,
                                #[trigger] rvs[e2],
                            ))
                        &&& final(conn).database.spec_v() == old(
                            conn,
                        ).database.spec_v().update(
                            t as int,
                            old(conn).database.spec_v()[t as int] + rvs,
                        )
                        &&& crate::query::spec_query_matches_base(
                            *schema,
                            old(conn).backend,
                            t as int,
                            *request,
                            q,
                        )
                        &&& q.spec_wf(*schema)
                        &&& q.key_in is Some
                        &&& q.key_in.unwrap().columns@ == schema.tables@[t as int].primary_key@
                        &&& q.key_in.unwrap().keys@.len() == rvs.len()
                        &&& (forall|e2: int, k: int|
                            #![trigger q.key_in.unwrap().keys@[e2]@[k]]
                            0 <= e2 < rvs.len() && 0 <= k < schema.tables@[
                            t as int].primary_key@.len() ==> Some(
                                q.key_in.unwrap().keys@[e2]@[k]@,
                            ) == rvs[e2][schema.tables@[t as int].primary_key@[k] as int])
                        &&& vals@.len() == spec_execute(final(conn).database, *schema, q).len()
                        &&& (forall|i: int|
                            0 <= i < vals@.len() ==> {
                                let sf = spec_scalar_fields(
                                    schema.tables@[t as int],
                                    *request,
                                    spec_execute(final(conn).database, *schema, q)[i],
                                    0,
                                );
                                &&& sf is Some
                                &&& (#[trigger] vals@[i])@ is Object
                                &&& vals@[i]@->Object_0.take(sf.unwrap().len() as int)
                                    == sf.unwrap()
                            })
                    })
            },
        },
        spec_batch_given_keys_free(
            *schema,
            t as int,
            field_name@,
            *request,
            old(conn).database.spec_v()[t as int],
        ) ==> r is Ok,
{
    let table = &schema.tables[t];
    proof {
        assert(schema.tables@[t as int].spec_wf_local(schema.capabilities));
        assert(spec_rows_v(conn.database.tables@[t as int]@) == old(
            conn,
        ).database.spec_v()[t as int]);
    }
    let arg = match request.argument(field_name) {
        Some(arg) => arg,
        None => {
            return Err(WundergraphError::MissingArgument);
        },
    };
    let entries = match arg {
        InputValue::List(l) => l,
        _ => {
            return Err(WundergraphError::MalformedArgument);
        },
    };
    let ghost old_db = conn.database;
    let ghost old_v = spec_rows_v(old_db.tables@[t as int]@);
    let old_len = conn.database.tables[t].len();
    let mut keyset: Vec<Vec<WundergraphScalarValue>> = Vec::new();
    let ghost staged: Seq<Seq<Option<ScalarV>>> = Seq::empty();
    let mut staged_count: usize = 0;
    let ghost mut staged = staged;
    let mut e: usize = 0;
    proof {
        assert(spec_rows_v(conn.database.tables@[t as int]@) =~= spec_rows_v(
            old_db.tables@[t as int]@,
        ) + staged);
    }
    while e < entries.len()
        invariant
            e <= entries@.len(),
            request.spec_argument(field_name@) is Some,
            request.spec_argument(field_name@).unwrap() is List,
            request.spec_argument(field_name@).unwrap()->List_0 == *entries,
            schema.spec_wf(),
            t < schema.tables@.len(),
            table == &schema.tables@[t as int],
            conn.backend == old(conn).backend,
            conn.query_log == old(conn).query_log,
            old_db.spec_wf(*schema),
            old_db == old(conn).database,
            old_v == spec_rows_v(old_db.tables@[t as int]@),
            old_len == old_db.tables@[t as int]@.len(),
            conn.database.tables@.len() == old_db.tables@.len(),
            forall|t2: int|
                0 <= t2 < old_db.tables@.len() && t2 != t ==> #[trigger] conn.database.tables@[t2]
                    == old_db.tables@[t2],
            staged.len() == staged_count,
            staged.len() == e,
            keyset@.len() == e,
            forall|k: int|
                0 <= k < keyset@.len() ==> (#[trigger] keyset@[k])@.len()
                    == table.primary_key@.len(),
            conn.database.tables@[t as int]@.len() == old_len + staged.len(),
            forall|i: int|
                0 <= i < old_len ==> #[trigger] conn.database.tables@[t as int]@[i]
                    == old_db.tables@[t as int]@[i],
            forall|i: int|
                0 <= i < staged.len() ==> spec_row_v(
                    #[trigger] conn.database.tables@[t as int]@[old_len + i],
                ) == staged[i],
            forall|i: int|
                0 <= i < staged.len() ==> spec_row_wf(
                    schema.tables@[t as int],
                    #[trigger] staged[i],
                ),
            forall|e2: int|
                0 <= e2 < e ==> spec_decode_row(
                    schema.tables@[t as int],
                    #[trigger] entries@[e2],
                ) is Ok,
            forall|e2: int, c: int|
                #![trigger staged[e2][c]]
                0 <= e2 < e && 0 <= c < staged[e2].len() ==> {
                    let dec = spec_decode_row(schema.tables@[t as int], entries@[e2]).unwrap();
                    &&& staged[e2].len() == dec.len()
                    &&& (!(spec_generatable(schema.tables@[t as int], c) && dec[c] is None)
                        ==> staged[e2][c] == dec[c])
                    &&& (spec_generatable(schema.tables@[t as int], c) && dec[c] is None
                        ==> staged[e2][c] is Some && crate::database::spec_scalar_v_kind(
                        staged[e2][c].unwrap(),
                    ) == schema.tables@[t as int].columns@[c].kind)
                },
            forall|e1: int, e2: int|
                0 <= e1 < e2 < e ==> !spec_same_key(
                    schema.tables@[t as int].primary_key@,
                    #[trigger] staged[e1],
                    #[trigger] staged[e2],
                ),
            forall|e2: int|
                0 <= e2 < e ==> !spec_key_taken(
                    old_v,
                    schema.tables@[t as int].primary_key@,
                    #[trigger] staged[e2],
                ),
            forall|e2: int, k: int|
                #![trigger keyset@[e2]@[k]]
                0 <= e2 < e && 0 <= k < table.primary_key@.len() ==> Some(keyset@[e2]@[k]@)
                    == staged[e2][table.primary_key@[k] as int],
            conn.database.spec_wf(*schema),
        decreases entries@.len() - e,
    {
        let mut row = match decode_insert_row(table, &entries[e]) {
            Ok(row) => row,
            Err(err) => {
                conn.database.tables[t].truncate(old_len);
                proof {
                    assert(conn.database.tables@[t as int]@ =~= old_db.tables@[t as int]@);
                    lemma_db_restored(old_db, conn.database, *schema, t as int);
                }
                return Err(err);
            },
        };
        let ghost dec_v = spec_row_v(row);
        if table.primary_key.len() == 1 {
            let pkcol = table.primary_key[0];
            if row[pkcol].is_none() {
                match generate_key(&conn.database.tables[t], pkcol, table.columns[pkcol].kind) {
                    Ok(x) => {
                        row[pkcol] = Some(x);
                        proof {
                            assert(spec_row_v(row) =~= dec_v.update(pkcol as int, Some(x@)));
                        }
                    },
                    Err(err) => {
                        conn.database.tables[t].truncate(old_len);
                        proof {
                            assert(conn.database.tables@[t as int]@ =~= old_db.tables@[t as int]@);
                            lemma_db_restored(old_db, conn.database, *schema, t as int);
                        }
                        return Err(err);
                    },
                }
            }
        }
        proof {
            assert(spec_row_wf(schema.tables@[t as int], spec_row_v(row)));
        }
        // a duplicate key — against stored rows or within the batch — refuses
        // the whole batch
        if key_taken(table, &conn.database.tables[t], &row) {
            proof {
                if spec_batch_given_keys_free(
                    *schema,
                    t as int,
                    field_name@,
                    *request,
                    old_v,
                ) {
                    // every key is given, distinct and free, so no collision
                    // is possible — neither with a stored row nor inside the
                    // batch
                    let cur0 = spec_rows_v(conn.database.tables@[t as int]@);
                    let pkcols = schema.tables@[t as int].primary_key@;
                    assert(spec_row_v(row) == spec_decode_row(
                        schema.tables@[t as int],
                        entries@[e as int],
                    ).unwrap());
                    assert forall|e1: int| 0 <= e1 < e implies staged[e1] == spec_decode_row(
                        schema.tables@[t as int],
                        entries@[e1],
                    ).unwrap() by {
                        lemma_decode_row_cells_len(
                            schema.tables@[t as int],
                            entries@[e1],
                            0,
                        );
                        let dec1 = spec_decode_row(
                            schema.tables@[t as int],
                            entries@[e1],
                        ).unwrap();
                        assert(staged[e1].len() == dec1.len());
                        assert forall|c: int| 0 <= c < staged[e1].len() implies staged[e1][c]
                            == dec1[c] by {
                            assert(staged[e1][c] == staged[e1][c]);
                        }
                        assert(staged[e1] =~= dec1);
                    }
                    assert forall|i: int| 0 <= i < cur0.len() implies !spec_same_key(
                        pkcols,
                        cur0[i],
                        spec_row_v(row),
                    ) by {
                        if i < old_len {
                            assert(cur0[i] == spec_row_v(conn.database.tables@[t as int]@[i]));
                            assert(cur0[i] == old_v[i]);
                        } else {
                            let i0 = i - old_len;
                            assert(cur0[i] == spec_row_v(conn.database.tables@[t as int]@[i]));
                            assert(spec_row_v(
                                conn.database.tables@[t as int]@[old_len + i0],
                            ) == staged[i0]);
                            assert(cur0[i] == staged[i0]);
                        }
                    }
                    assert(false);
                }
            }
            conn.database.tables[t].truncate(old_len);
            proof {
                assert(conn.database.tables@[t as int]@ =~= old_db.tables@[t as int]@);
                lemma_db_restored(old_db, conn.database, *schema, t as int);
            }
            return Err(WundergraphError::BackendExecutionError);
        }
        let ghost cur = spec_rows_v(conn.database.tables@[t as int]@);
        proof {
            // the key is free both among the stored rows and within the batch
            assert forall|i: int| 0 <= i < old_len implies !spec_same_key(
                schema.tables@[t as int].primary_key@,
                old_v[i],
                spec_row_v(row),
            ) by {
                assert(cur[i] == spec_row_v(conn.database.tables@[t as int]@[i]));
                assert(cur[i] == old_v[i]);
                assert(!spec_same_key(
                    schema.tables@[t as int].primary_key@,
                    cur[i],
                    spec_row_v(row),
                ));
            }
            assert forall|e1: int| 0 <= e1 < e implies !spec_same_key(
                schema.tables@[t as int].primary_key@,
                staged[e1],
                spec_row_v(row),
            ) by {
                assert(cur[old_len + e1] == spec_row_v(
                    conn.database.tables@[t as int]@[old_len + e1],
                ));
                assert(cur[old_len + e1] == staged[e1]);
                assert(!spec_same_key(
                    schema.tables@[t as int].primary_key@,
                    cur[old_len + e1],
                    spec_row_v(row),
                ));
            }
        }
        let key = match key_of_row(table, &row) {
            Ok(key) => key,
            Err(err) => {
                conn.database.tables[t].truncate(old_len);
                proof {
                    assert(conn.database.tables@[t as int]@ =~= old_db.tables@[t as int]@);
                    lemma_db_restored(old_db, conn.database, *schema, t as int);
                }
                return Err(err);
            },
        };
        keyset.push(key);
        proof {
            staged = staged.push(spec_row_v(row));
        }
        conn.database.tables[t].push(row);
        staged_count = staged_count + 1;
        proof {
            lemma_db_append(old_db, conn.database, *schema, t as int, staged);
        }
        e = e + 1;
    }
    proof {
        lemma_db_append(old_db, conn.database, *schema, t as int, staged);
    }
    // requery the whole batch as one query keyed by every inserted key
    let mut q = match build_query(schema, conn.backend, t, request) {
        Ok(q) => q,
        Err(err) => {
            conn.database.tables[t].truncate(old_len);
            proof {
                assert(conn.database.tables@[t as int]@ =~= old_db.tables@[t as int]@);
                lemma_db_restored(old_db, conn.database, *schema, t as int);
            }
            return Err(err);
        },
    };
    proof {
        assert(schema.tables@[t as int].spec_wf_local(schema.capabilities));
    }
    q.key_in = Some(KeyConstraint { columns: pk_columns(table), keys: keyset });
    let phs = execute(conn, schema, &q);
    proof {
        assert(crate::database::spec_placeholders_v(phs@).len() == spec_execute(
            conn.database,
            *schema,
            q,
        ).len());
        assert forall|i: int| 0 <= i < phs@.len() implies (#[trigger] phs@[i]).spec_v()
            == spec_execute(conn.database, *schema, q)[i] by {
            assert(crate::database::spec_placeholders_v(phs@)[i] == phs@[i].spec_v());
        }
    }
    match resolve_placeholders(conn, schema, t, request, &phs) {
        Ok(vals) => {
            proof {
                lemma_db_append(old_db, conn.database, *schema, t as int, staged);
                assert(crate::query::spec_query_matches_base(
                    *schema,
                    old(conn).backend,
                    t as int,
                    *request,
                    q,
                ));
            }
            Ok(vals)
        },
        Err(err) => {
            conn.database.tables[t].truncate(old_len);
            proof {
                assert(conn.database.tables@[t as int]@ =~= old_db.tables@[t as int]@);
                lemma_db_restored(old_db, conn.database, *schema, t as int);
            }
            Err(err)
        },
    }
}

/// Whether a row carries exactly the given primary-key values.
pub open spec fn spec_pk_matches(
    pkcols: Seq<usize>,
    keyv: Seq<ScalarV>,
    rowv: Seq<Option<ScalarV>>,
) -> bool {
    forall|k: int|
        0 <= k < pkcols.len() ==> rowv[(#[trigger] pkcols[k]) as int] == Some(#[trigger] keyv[k])
}

/// The rows that survive a delete by key, from position `i` on, in order.
pub open spec fn spec_surviving_rows(
    rowsv: Seq<Seq<Option<ScalarV>>>,
    pkcols: Seq<usize>,
    keyv: Seq<ScalarV>,
    i: int,
) -> Seq<Seq<Option<ScalarV>>>
    decreases rowsv.len() - i,
{
    if i < 0 || i >= rowsv.len() {
        Seq::empty()
    } else {
        let rest = spec_surviving_rows(rowsv, pkcols, keyv, i + 1);
        if spec_pk_matches(pkcols, keyv, rowsv[i]) {
            rest
        } else {
            seq![rowsv[i]] + rest
        }
    }
}

/// Whether a row carries the given key values at the key columns.
pub fn row_matches_key(table: &TableInfo, row: &Row, key: &Vec<WundergraphScalarValue>) -> (r:
    bool)
    requires
        key@.len() == table.primary_key@.len(),
        forall|k: int|
            0 <= k < table.primary_key@.len() ==> (#[trigger] table.primary_key@[k]) < row@.len(),
    ensures
        r == spec_pk_matches(
            table.primary_key@,
            crate::decode::spec_scalars_v(key@),
            spec_row_v(*row),
        ),
{
    let mut k: usize = 0;
    while k < table.primary_key.len()
        invariant
            k <= table.primary_key@.len(),
            key@.len() == table.primary_key@.len(),
            forall|k2: int|
                0 <= k2 < table.primary_key@.len() ==> (#[trigger] table.primary_key@[k2])
                    < row@.len(),
            forall|k2: int|
                0 <= k2 < k ==> spec_row_v(*row)[(#[trigger] table.primary_key@[k2]) as int]
                    == Some(key@[k2]@),
        decreases table.primary_key@.len() - k,
    {
        let col = table.primary_key[k];
        let same = match &row[col] {
            Some(x) => scalar_eq(x, &key[k]),
            None => false,
        };
        if !same {
            proof {
                assert(spec_row_v(*row)[(table.primary_key@[k as int]) as int] != Some(
                    crate::decode::spec_scalars_v(key@)[k as int],
                ));
                assert(!spec_pk_matches(
                    table.primary_key@,
                    crate::decode::spec_scalars_v(key@),
                    spec_row_v(*row),
                ));
            }
            return false;
        }
        k = k + 1;
    }
    true
}

/// Runs a delete mutation in one transaction: decode the key argument, build
/// the equality filter on the full key, delete the matching rows and return
/// how many went away — never any deleted row's fields.
#[verifier::rlimit(100)]
pub fn handle_delete(
    conn: &mut Connection,
    schema: &Schema,
    t: usize,
    field_name: &str,
    request: &SelectionField,
) -> (r: Result<DeletedCount, WundergraphError>)
    requires
        schema.spec_wf(),
        old(conn).database.spec_wf(*schema),
        t < schema.tables@.len(),
    ensures
        final(conn).backend == old(conn).backend,
        final(conn).query_log == old(conn).query_log,
        final(conn).database.spec_wf(*schema),
        request.spec_argument(field_name@) is None <==> r == Err::<
            DeletedCount,
            WundergraphError,
        >(WundergraphError::MissingArgument),
        r is Err ==> final(conn).database.spec_v() == old(conn).database.spec_v(),
        match request.spec_argument(field_name@) {
            Some(kv) => (spec_decode_key(schema.tables@[t as int], kv) is None <==> r == Err::<
                DeletedCount,
                WundergraphError,
            >(WundergraphError::MalformedArgument)) && (spec_decode_key(
                schema.tables@[t as int],
                kv,
            ) is Some ==> r is Ok),
            None => true,
        },
        match r {
            Ok(dc) => {
                &&& (exists|keyv: Seq<ScalarV>|
                    {
                        &&& Some(keyv) == spec_decode_key(
                            schema.tables@[t as int],
                            request.spec_argument(field_name@).unwrap(),
                        )
                        &&& final(conn).database.spec_v() == old(conn).database.spec_v().update(
                            t as int,
                            spec_surviving_rows(
                                old(conn).database.spec_v()[t as int],
                                schema.tables@[t as int].primary_key@,
                                keyv,
                                0,
                            ),
                        )
                    })
                &&& (dc.count as int == old(conn).database.spec_v()[t as int].len()
                    - final(conn).database.spec_v()[t as int].len() || dc.count == i64::MAX)
            },
            Err(_) => true,
        },
{
    let table = &schema.tables[t];
    proof {
        assert(schema.tables@[t as int].spec_wf_local(schema.capabilities));
    }
    let arg = match request.argument(field_name) {
        Some(arg) => arg,
        None => {
            return Err(WundergraphError::MissingArgument);
        },
    };
    let key = match PrimaryKeyArgument::from_look_ahead(table, arg) {
        Some(key) => key,
        None => {
            return Err(WundergraphError::MalformedArgument);
        },
    };
    let ghost old_db = conn.database;
    let ghost keyv = crate::decode::spec_scalars_v(key.values@);
    let nrows = conn.database.tables[t].len();
    let mut survivors: Vec<Row> = Vec::new();
    let mut i: usize = 0;
    proof {
        assert(spec_rows_v(survivors@) + spec_surviving_rows(
            spec_rows_v(old_db.tables@[t as int]@),
            table.primary_key@,
            keyv,
            0,
        ) =~= spec_surviving_rows(
            spec_rows_v(old_db.tables@[t as int]@),
            table.primary_key@,
            keyv,
            0,
        ));
    }
    while i < nrows
        invariant
            i <= nrows,
            schema.spec_wf(),
            t < schema.tables@.len(),
            table == &schema.tables@[t as int],
            conn.database == old_db,
            old_db.spec_wf(*schema),
            nrows == old_db.tables@[t as int]@.len(),
            key.values@.len() == table.primary_key@.len(),
            keyv == crate::decode::spec_scalars_v(key.values@),
            request.spec_argument(field_name@) is Some,
            spec_decode_key(
                schema.tables@[t as int],
                request.spec_argument(field_name@).unwrap(),
            ) == Some(keyv),
            survivors@.len() <= i,
            spec_surviving_rows(
                spec_rows_v(old_db.tables@[t as int]@),
                table.primary_key@,
                keyv,
                0,
            ) == spec_rows_v(survivors@) + spec_surviving_rows(
                spec_rows_v(old_db.tables@[t as int]@),
                table.primary_key@,
                keyv,
                i as int,
            ),
            forall|j: int|
                0 <= j < survivors@.len() ==> spec_row_wf(
                    schema.tables@[t as int],
                    spec_row_v(#[trigger] survivors@[j]),
                ),
        decreases nrows - i,
    {
        let row = &conn.database.tables[t][i];
        proof {
            assert(spec_row_wf(schema.tables@[t as int], spec_row_v(*row)));
            assert(spec_rows_v(old_db.tables@[t as int]@)[i as int] == spec_row_v(*row));
        }
        if !row_matches_key(table, row, &key.values) {
            let ghost pre = survivors@;
            let d = crate::database::duplicate_row(row);
            survivors.push(d);
            proof {
                assert(spec_rows_v(survivors@) =~= spec_rows_v(pre) + seq![spec_row_v(*row)]);
                assert(spec_rows_v(pre) + (seq![spec_row_v(*row)] + spec_surviving_rows(
                    spec_rows_v(old_db.tables@[t as int]@),
                    table.primary_key@,
                    keyv,
                    i + 1,
                )) =~= spec_rows_v(survivors@) + spec_surviving_rows(
                    spec_rows_v(old_db.tables@[t as int]@),
                    table.primary_key@,
                    keyv,
                    i + 1,
                ));
            }
        }
        i = i + 1;
    }
    proof {
        assert(spec_surviving_rows(
            spec_rows_v(old_db.tables@[t as int]@),
            table.primary_key@,
            keyv,
            nrows as int,
        ) =~= Seq::<Seq<Option<ScalarV>>>::empty());
        assert(spec_rows_v(survivors@) + Seq::<Seq<Option<ScalarV>>>::empty() =~= spec_rows_v(
            survivors@,
        ));
    }
    let new_len = survivors.len();
    let removed = nrows - new_len;
    let ghost survivors_v = spec_rows_v(survivors@);
    conn.database.tables[t] = survivors;
    proof {
        lemma_db_replaced(old_db, conn.database, *schema, t as int);
        assert(spec_rows_v(conn.database.tables@[t as int]@) == survivors_v);
        assert(old(conn).database.spec_v()[t as int] == spec_rows_v(old_db.tables@[t as int]@));
        assert(conn.database.spec_v() == old(conn).database.spec_v().update(
            t as int,
            spec_surviving_rows(
                old(conn).database.spec_v()[t as int],
                schema.tables@[t as int].primary_key@,
                keyv,
                0,
            ),
        ));
        assert(conn.database.spec_v()[t as int].len() == survivors_v.len());
    }
    let count: i64 = if (removed as u64) > (i64::MAX as u64) {
        i64::MAX
    } else {
        removed as i64
    };
    Ok(DeletedCount { count })
}

/// Replacing one table's rows by well-formed rows keeps the store well formed
/// and changes exactly that slot of its value.
pub proof fn lemma_db_replaced(
    older: crate::database::Database,
    newer: crate::database::Database,
    schema: Schema,
    t: int,
)
    requires
        older.spec_wf(schema),
        0 <= t < older.tables@.len(),
        newer.tables@.len() == older.tables@.len(),
        forall|t2: int|
            0 <= t2 < older.tables@.len() && t2 != t ==> #[trigger] newer.tables@[t2]
                == older.tables@[t2],
        forall|j: int|
            0 <= j < newer.tables@[t]@.len() ==> spec_row_wf(
                schema.tables@[t],
                spec_row_v(#[trigger] newer.tables@[t]@[j]),
            ),
    ensures
        newer.spec_wf(schema),
        newer.spec_v() == older.spec_v().update(t, spec_rows_v(newer.tables@[t]@)),
{
    assert forall|t2: int, i: int|
        0 <= t2 < newer.tables@.len() && 0 <= i < newer.tables@[t2]@.len() implies spec_row_wf(
        schema.tables@[t2],
        spec_row_v(#[trigger] newer.tables@[t2]@[i]),
    ) by {
        if t2 != t {
            assert(spec_row_wf(schema.tables@[t2], spec_row_v(older.tables@[t2]@[i])));
        }
    }
    assert forall|t2: int|
        0 <= t2 < newer.tables@.len() implies newer.spec_v()[t2] == older.spec_v().update(
        t,
        spec_rows_v(newer.tables@[t]@),
    )[t2] by {
        if t2 != t {
            assert(spec_rows_v(newer.tables@[t2]@) =~= spec_rows_v(older.tables@[t2]@));
        }
    }
    assert(newer.spec_v() =~= older.spec_v().update(t, spec_rows_v(newer.tables@[t]@)));
}

} // verus!
