use crate::scalar::{ScalarKind, ScalarV, WundergraphScalarValue};
use crate::table::{ColumnInfo, Schema, TableInfo};
use vstd::prelude::*;

verus! {

/// One stored row: a cell per declared column, `None` standing for SQL null.
pub type Row = Vec<Option<WundergraphScalarValue>>;

/// The mathematical value of one cell.
pub open spec fn spec_cell_v(c: Option<WundergraphScalarValue>) -> Option<ScalarV> {
    match c {
        Some(v) => Some(v@),
        None => None,
    }
}

/// The mathematical value of one row.
pub open spec fn spec_row_v(r: Row) -> Seq<Option<ScalarV>> {
    Seq::new(r@.len(), |i: int| spec_cell_v(r@[i]))
}

/// The mathematical value of a sequence of rows.
pub open spec fn spec_rows_v(rows: Seq<Row>) -> Seq<Seq<Option<ScalarV>>> {
    Seq::new(rows.len(), |i: int| spec_row_v(rows[i]))
}

/// The kind a cell value belongs to, at the view level.
pub open spec fn spec_scalar_v_kind(v: ScalarV) -> ScalarKind {
    match v {
        ScalarV::SmallInt(_) => ScalarKind::SmallInt,
        ScalarV::Int(_) => ScalarKind::Int,
        ScalarV::BigInt(_) => ScalarKind::BigInt,
        ScalarV::Float(_) => ScalarKind::Float,
        ScalarV::Double(_) => ScalarKind::Double,
        ScalarV::String(_) => ScalarKind::String,
        ScalarV::Boolean(_) => ScalarKind::Boolean,
        ScalarV::Id(_) => ScalarKind::Id,
        ScalarV::Timestamp(_, _) => ScalarKind::Timestamp,
        ScalarV::Date(_) => ScalarKind::Date,
        ScalarV::Uuid(_) => ScalarKind::Uuid,
    }
}

/// A cell fits its column: null only when the column is nullable, otherwise a
/// value of the declared kind.
pub open spec fn spec_cell_wf(col: ColumnInfo, c: Option<ScalarV>) -> bool {
    match c {
        None => col.nullable,
        Some(v) => spec_scalar_v_kind(v) == col.kind,
    }
}

/// A row fits its table: full declared arity, each cell fitting its column.
pub open spec fn spec_row_wf(t: TableInfo, r: Seq<Option<ScalarV>>) -> bool {
    &&& r.len() == t.columns@.len()
    &&& forall|i: int| 0 <= i < r.len() ==> spec_cell_wf(t.columns@[i], #[trigger] r[i])
}

/// The stored relational data: one row list per table of the schema, in the
/// table's natural (insertion) order.
#[derive(Debug)]
pub struct Database {
    pub tables: Vec<Vec<Row>>,
}

impl Database {
    /// The mathematical value of the whole store.
    pub open spec fn spec_v(self) -> Seq<Seq<Seq<Option<ScalarV>>>> {
        Seq::new(self.tables@.len(), |t: int| spec_rows_v(self.tables@[t]@))
    }

    /// The store fits the schema: one row list per table, every row well formed.
    pub open spec fn spec_wf(self, schema: Schema) -> bool {
        &&& self.tables@.len() == schema.tables@.len()
        &&& forall|t: int, i: int|
            0 <= t < self.tables@.len() && 0 <= i < self.tables@[t]@.len() ==> spec_row_wf(
                schema.tables@[t],
                spec_row_v(#[trigger] self.tables@[t]@[i]),
            )
    }

    /// An empty store for the given schema.
    pub fn new_for(schema: &Schema) -> (db: Database)
        ensures
            db.spec_wf(*schema),
            forall|t: int| 0 <= t < db.tables@.len() ==> (#[trigger] db.tables@[t])@.len() == 0,
    {
        let mut tables: Vec<Vec<Row>> = Vec::new();
        let mut t: usize = 0;
        while t < schema.tables.len()
            invariant
                t == tables@.len(),
                t <= schema.tables@.len(),
                forall|i: int| 0 <= i < t ==> (#[trigger] tables@[i])@.len() == 0,
            decreases schema.tables@.len() - t,
        {
            tables.push(Vec::new());
            t = t + 1;
        }
        Database { tables }
    }
}

/// What the executing backend demands of generated queries.
#[derive(Clone, Copy, Debug, PartialEq, Eq, Structural)]
pub struct Backend {
    /// Some backends refuse an offset without an explicit limit; when set, the
    /// query assembler adds a maximal limit before applying an offset.
    pub offset_requires_limit: bool,
}

/// The connection a top-level operation owns for its whole resolution: the
/// stored data, the backend description, and a log of the tables queried, in
/// execution order.
#[derive(Debug)]
pub struct Connection {
    pub database: Database,
    pub backend: Backend,
    pub query_log: Vec<usize>,
}

impl Connection {
    /// A connection over an empty store.
    pub fn new_for(schema: &Schema, backend: Backend) -> (conn: Connection)
        ensures
            conn.database.spec_wf(*schema),
            conn.query_log@.len() == 0,
            conn.backend == backend,
            forall|t: int|
                0 <= t < conn.database.tables@.len() ==> (
                #[trigger] conn.database.tables@[t])@.len() == 0,
    {
        Connection { database: Database::new_for(schema), backend, query_log: Vec::new() }
    }
}

/// One response slot of a fetched row: either the column was not selected, or
/// its cell value.
#[derive(Debug)]
pub enum PlaceholderSlot {
    Absent,
    Value(Option<WundergraphScalarValue>),
}

/// The mathematical value of a slot: `None` for an absent marker.
pub open spec fn spec_slot_v(s: PlaceholderSlot) -> Option<Option<ScalarV>> {
    match s {
        PlaceholderSlot::Absent => None,
        PlaceholderSlot::Value(c) => Some(spec_cell_v(c)),
    }
}

/// One fetched row: exactly one slot per declared column of its table,
/// whether or not the column was selected.
#[derive(Debug)]
pub struct RowPlaceholder {
    pub slots: Vec<PlaceholderSlot>,
}

impl RowPlaceholder {
    /// The mathematical value of the whole row.
    pub open spec fn spec_v(self) -> Seq<Option<Option<ScalarV>>> {
        Seq::new(self.slots@.len(), |i: int| spec_slot_v(self.slots@[i]))
    }
}

/// The mathematical value of a sequence of fetched rows.
pub open spec fn spec_placeholders_v(ps: Seq<RowPlaceholder>) -> Seq<Seq<Option<Option<ScalarV>>>> {
    Seq::new(ps.len(), |i: int| ps[i].spec_v())
}

/// Copies one cell.
pub fn duplicate_cell(c: &Option<WundergraphScalarValue>) -> (r: Option<WundergraphScalarValue>)
    ensures
        spec_cell_v(r) == spec_cell_v(*c),
{
    match c {
        Some(v) => Some(v.duplicate()),
        None => None,
    }
}

/// Copies one row.
pub fn duplicate_row(r: &Row) -> (d: Row)
    ensures
        spec_row_v(d) == spec_row_v(*r),
{
    let mut d: Row = Vec::new();
    let mut i: usize = 0;
    while i < r.len()
        invariant
            i == d@.len(),
            i <= r@.len(),
            forall|j: int| 0 <= j < i ==> spec_cell_v(#[trigger] d@[j]) == spec_cell_v(r@[j]),
        decreases r@.len() - i,
    {
        d.push(duplicate_cell(&r[i]));
        i = i + 1;
    }
    proof {
        assert(spec_row_v(d) =~= spec_row_v(*r));
    }
    d
}

} // verus!
