use crate::database::{
    duplicate_cell, spec_cell_v, Connection, PlaceholderSlot, RowPlaceholder,
};
use crate::error::WundergraphError;
use crate::output::{spec_outputs_v, OutputV, OutputValue};
use crate::primary_keys::{spec_decode_key, PrimaryKeyArgument};
use crate::query::{build_query, spec_query_matches, spec_query_outcome, KeyConstraint, Query};
use crate::request::SelectionField;
use crate::run::{execute, spec_execute};
use crate::scalar::{scalar_eq, ScalarV, WundergraphScalarValue};
use crate::table::{AssociationDirection, Schema};
use vstd::prelude::*;

verus! {

/// Whether a query log is an extension of an earlier one: the earlier entries
/// stand unchanged at the front.
pub open spec fn spec_log_extends(older: Seq<usize>, newer: Seq<usize>) -> bool {
    older.len() <= newer.len() && (forall|i: int| 0 <= i < older.len() ==> older[i] == newer[i])
}

/// The cell a fetched slot carries: nothing for an absent marker.
pub open spec fn spec_slot_cell(s: Option<Option<ScalarV>>) -> Option<ScalarV> {
    match s {
        Some(c) => c,
        None => None,
    }
}

/// Reads the cell of one fetched row at one column.
pub fn placeholder_cell(ph: &RowPlaceholder, col: usize) -> (r: Option<WundergraphScalarValue>)
    requires
        col < ph.slots@.len(),
    ensures
        spec_cell_v(r) == spec_slot_cell(ph.spec_v()[col as int]),
{
    match &ph.slots[col] {
        PlaceholderSlot::Value(c) => duplicate_cell(c),
        PlaceholderSlot::Absent => None,
    }
}

/// Deep copy of a response value.
pub fn duplicate_output(v: &OutputValue) -> (r: OutputValue)
    ensures
        r@ == v@,
    decreases *v,
{
    match v {
        OutputValue::Null => OutputValue::Null,
        OutputValue::Scalar(s) => OutputValue::Scalar(s.duplicate()),
        OutputValue::List(l) => {
            let mut out: Vec<OutputValue> = Vec::new();
            let mut i: usize = 0;
            while i < l.len()
                invariant
                    i == out@.len(),
                    i <= l@.len(),
                    *v is List,
                    v->List_0 == *l,
                    forall|j: int| 0 <= j < i ==> (#[trigger] out@[j])@ == l@[j]@,
                decreases l@.len() - i,
            {
                proof {
                    assert(decreases_to!(*v => l@[i as int]));
                }
                let d = duplicate_output(&l[i]);
                out.push(d);
                i = i + 1;
            }
            let r = OutputValue::List(out);
            proof {
                assert(r@->List_0 =~= v@->List_0);
            }
            r
        },
        OutputValue::Object(fields) => {
            let mut out: Vec<(String, OutputValue)> = Vec::new();
            let mut i: usize = 0;
            while i < fields.len()
                invariant
                    i == out@.len(),
                    i <= fields@.len(),
                    *v is Object,
                    v->Object_0 == *fields,
                    forall|j: int|
                        0 <= j < i ==> (#[trigger] out@[j]).0@ == fields@[j].0@ && out@[j].1@
                            == fields@[j].1@,
                decreases fields@.len() - i,
            {
                proof {
                    assert(decreases_to!(*v => fields@[i as int].1));
                }
                let entry = &fields[i];
                let d = duplicate_output(&entry.1);
                out.push((entry.0.clone(), d));
                i = i + 1;
            }
            let r = OutputValue::Object(out);
            proof {
                assert(r@->Object_0 =~= v@->Object_0);
            }
            r
        },
    }
}

/// The children belonging to one parent key, from child position `j` on: the
/// child values whose join-key cell equals the parent's, in the child query's
/// own returned order; a null parent key owns no children.
pub open spec fn spec_group(
    key: Option<ScalarV>,
    child_keys: Seq<Option<ScalarV>>,
    child_vals: Seq<OutputV>,
    j: int,
) -> Seq<OutputV>
    decreases child_keys.len() - j,
{
    if j < 0 || j >= child_keys.len() {
        Seq::empty()
    } else {
        let rest = spec_group(key, child_keys, child_vals, j + 1);
        if key is Some && child_keys[j] == key {
            seq![child_vals[j]] + rest
        } else {
            rest
        }
    }
}

/// Collects the children belonging to one parent key, in arrival order.
pub fn group_for_key(
    key: &Option<WundergraphScalarValue>,
    child_keys: &Vec<Option<WundergraphScalarValue>>,
    child_vals: &Vec<OutputValue>,
) -> (r: Vec<OutputValue>)
    requires
        child_keys@.len() == child_vals@.len(),
    ensures
        spec_outputs_v(r@) == spec_group(
            spec_cell_v(*key),
            Seq::new(child_keys@.len(), |j: int| spec_cell_v(child_keys@[j])),
            spec_outputs_v(child_vals@),
            0,
        ),
{
    let ghost keyv = spec_cell_v(*key);
    let ghost cks = Seq::new(child_keys@.len(), |j: int| spec_cell_v(child_keys@[j]));
    let ghost cvs = spec_outputs_v(child_vals@);
    let mut out: Vec<OutputValue> = Vec::new();
    let mut j: usize = child_keys.len();
    proof {
        assert(spec_outputs_v(out@) =~= spec_group(keyv, cks, cvs, j as int));
    }
    // walk backwards so each accepted child is pushed onto the front group
    while j > 0
        invariant
            j <= child_keys@.len(),
            child_keys@.len() == child_vals@.len(),
            keyv == spec_cell_v(*key),
            cks == Seq::new(child_keys@.len(), |j2: int| spec_cell_v(child_keys@[j2])),
            cvs == spec_outputs_v(child_vals@),
            spec_outputs_v(out@) == spec_group(keyv, cks, cvs, j as int),
        decreases j,
    {
        j = j - 1;
        let keep = match (key, &child_keys[j]) {
            (Some(kv), Some(ck)) => scalar_eq(kv, ck),
            _ => false,
        };
        if keep {
            let ghost pre = out@;
            out.insert(0, duplicate_output(&child_vals[j]));
            proof {
                assert(spec_outputs_v(out@) =~= seq![cvs[j as int]] + spec_outputs_v(pre));
            }
        }
    }
    out
}

/// The scalar output a fetched slot materializes into: the cell's value, a
/// null for a null cell, and a null for a never-fetched slot.
pub open spec fn spec_cell_output(slot: Option<Option<ScalarV>>) -> OutputV {
    match slot {
        Some(Some(v)) => OutputV::Scalar(v),
        _ => OutputV::Null,
    }
}

/// The scalar response fields one fetched row materializes into, walking the
/// requested children from position `k` on: one named field per requested
/// column, association children deferred to the resolver, an unknown child
/// yielding nothing.
pub open spec fn spec_scalar_fields(
    table: crate::table::TableInfo,
    request: SelectionField,
    ph: Seq<Option<Option<ScalarV>>>,
    k: int,
) -> Option<Seq<(Seq<char>, OutputV)>>
    decreases request.children@.len() - k,
{
    if k < 0 || k >= request.children@.len() {
        Some(Seq::empty())
    } else {
        let name = request.children@[k].name@;
        if crate::table::spec_column_index(table.columns@, name) is Some {
            let c = crate::table::spec_column_index(table.columns@, name).unwrap();
            if spec_scalar_fields(table, request, ph, k + 1) is Some {
                Some(
                    seq![(name, spec_cell_output(ph[c]))] + spec_scalar_fields(
                        table,
                        request,
                        ph,
                        k + 1,
                    ).unwrap(),
                )
            } else {
                None
            }
        } else if crate::table::spec_association_index(table.associations@, name) is Some {
            spec_scalar_fields(table, request, ph, k + 1)
        } else {
            None
        }
    }
}

/// Whether every requested child at this level names a declared column or
/// association.
pub open spec fn spec_known_children(
    table: crate::table::TableInfo,
    request: SelectionField,
) -> bool {
    forall|k: int|
        0 <= k < request.children@.len() ==> crate::table::spec_column_index(
            table.columns@,
            (#[trigger] request.children@[k]).name@,
        ) is Some || crate::table::spec_association_index(
            table.associations@,
            request.children@[k].name@,
        ) is Some
}

/// The requested association children at this level from position `k` on:
/// each with its field name and direction, in request order.
pub open spec fn spec_assoc_children(
    table: crate::table::TableInfo,
    request: SelectionField,
    k: int,
) -> Seq<(Seq<char>, AssociationDirection)>
    decreases request.children@.len() - k,
{
    if k < 0 || k >= request.children@.len() {
        Seq::empty()
    } else {
        let rest = spec_assoc_children(table, request, k + 1);
        if crate::table::spec_association_index(
            table.associations@,
            request.children@[k].name@,
        ) is Some {
            seq![
                (
                    request.children@[k].name@,
                    table.associations@[crate::table::spec_association_index(
                        table.associations@,
                        request.children@[k].name@,
                    ).unwrap()].direction,
                ),
            ] + rest
        } else {
            rest
        }
    }
}

/// What resolving the requested association children from position `k` on
/// reports: the first failing child subtree decides, walking request order.
pub open spec fn spec_children_outcome(
    schema: Schema,
    t: int,
    request: SelectionField,
    k: int,
) -> Result<(), WundergraphError>
    decreases request, request.children@.len() - k,
{
    if k < 0 || k >= request.children@.len() {
        Ok(())
    } else if crate::table::spec_association_index(
        schema.tables@[t].associations@,
        request.children@[k].name@,
    ) is Some {
        let a = crate::table::spec_association_index(
            schema.tables@[t].associations@,
            request.children@[k].name@,
        ).unwrap();
        if spec_request_outcome(
            schema,
            schema.tables@[t].associations@[a].target_table as int,
            request.children@[k],
        ) is Err {
            spec_request_outcome(
                schema,
                schema.tables@[t].associations@[a].target_table as int,
                request.children@[k],
            )
        } else {
            spec_children_outcome(schema, t, request, k + 1)
        }
    } else {
        spec_children_outcome(schema, t, request, k + 1)
    }
}

/// What resolving one fetched level reports: a child naming neither a column
/// nor an association is unknown; otherwise the association subtrees decide,
/// in request order.
pub open spec fn spec_level_outcome(schema: Schema, t: int, request: SelectionField) -> Result<
    (),
    WundergraphError,
>
    decreases request, request.children@.len() + 1,
{
    if !spec_known_children(schema.tables@[t], request) {
        Err(WundergraphError::UnknownField)
    } else {
        spec_children_outcome(schema, t, request, 0)
    }
}

/// What loading one whole request reports: the level's own arguments decode
/// first, then its children resolve, recursively — the first failure decides.
/// The outcome depends on the schema and the request alone, never on the
/// stored rows.
pub open spec fn spec_request_outcome(schema: Schema, t: int, request: SelectionField) -> Result<
    (),
    WundergraphError,
>
    decreases request, request.children@.len() + 2,
{
    if spec_query_outcome(schema, t, request) is Err {
        spec_query_outcome(schema, t, request)
    } else {
        spec_level_outcome(schema, t, request)
    }
}

/// A requested association child anywhere in the walk keeps the collected
/// list non-empty.
pub proof fn lemma_assoc_children_nonempty(
    table: crate::table::TableInfo,
    request: SelectionField,
    lo: int,
    k: int,
)
    requires
        0 <= lo <= k < request.children@.len(),
        crate::table::spec_association_index(
            table.associations@,
            request.children@[k].name@,
        ) is Some,
    ensures
        spec_assoc_children(table, request, lo).len() >= 1,
    decreases k - lo,
{
    if lo < k {
        lemma_assoc_children_nonempty(table, request, lo + 1, k);
    }
}

/// Grouping hands out only child values, so a property of every child value
/// holds of every grouped value.
pub proof fn lemma_group_elements_objects(
    key: Option<ScalarV>,
    cks: Seq<Option<ScalarV>>,
    cvs: Seq<OutputV>,
    j: int,
)
    requires
        cks.len() <= cvs.len(),
        forall|m: int| 0 <= m < cvs.len() ==> (#[trigger] cvs[m]) is Object,
    ensures
        forall|m: int|
            0 <= m < spec_group(key, cks, cvs, j).len() ==> (#[trigger] spec_group(
                key,
                cks,
                cvs,
                j,
            )[m]) is Object,
    decreases cks.len() - j,
{
    if 0 <= j < cks.len() {
        lemma_group_elements_objects(key, cks, cvs, j + 1);
        let g = spec_group(key, cks, cvs, j);
        let rest = spec_group(key, cks, cvs, j + 1);
        assert forall|m: int| 0 <= m < g.len() implies (#[trigger] g[m]) is Object by {
            if key is Some && cks[j] == key {
                if m > 0 {
                    assert(g[m] == rest[m - 1]);
                }
            } else {
                assert(g[m] == rest[m]);
            }
        }
    }
}

/// The per-level accumulator of resolved association fields: the parent join
/// keys, the resolved fields in request order, and per field one group of
/// children per parent row.
#[derive(Debug)]
pub struct AssociationsReturn {
    pub keys: Vec<Option<WundergraphScalarValue>>,
    pub fields: Vec<(String, AssociationDirection)>,
    pub groups: Vec<Vec<Vec<OutputValue>>>,
}

/// The response field one resolved association contributes to one parent: the
/// full (possibly empty) group as a list for a to-many relation, the single
/// match or a null for a to-one relation.
pub open spec fn spec_assoc_field_v(
    name: Seq<char>,
    dir: AssociationDirection,
    group: Seq<OutputV>,
) -> (Seq<char>, OutputV) {
    (
        name,
        match dir {
            AssociationDirection::ToMany => OutputV::List(group),
            AssociationDirection::ToOne => if group.len() > 0 {
                group[0]
            } else {
                OutputV::Null
            },
        },
    )
}

/// The mathematical values of one row's named scalar fields.
pub open spec fn spec_obj_fields_v(fields: Seq<(String, OutputValue)>) -> Seq<
    (Seq<char>, OutputV),
> {
    Seq::new(fields.len(), |i: int| (fields[i].0@, fields[i].1@))
}

impl AssociationsReturn {
    /// An accumulator with nothing resolved yet.
    pub fn empty() -> (r: AssociationsReturn)
        ensures
            r.keys@.len() == 0,
            r.fields@.len() == 0,
            r.groups@.len() == 0,
    {
        AssociationsReturn { keys: Vec::new(), fields: Vec::new(), groups: Vec::new() }
    }

    /// Records the parent keys once, on the first resolved field.
    pub fn init(&mut self, keys: Vec<Option<WundergraphScalarValue>>)
        ensures
            final(self).keys@ == (if old(self).keys@.len() == 0 {
                keys@
            } else {
                old(self).keys@
            }),
            final(self).fields == old(self).fields,
            final(self).groups == old(self).groups,
    {
        if self.keys.len() == 0 {
            self.keys = keys;
        }
    }

    /// Appends one resolved association field and its per-parent groups.
    pub fn push_field(
        &mut self,
        name: String,
        direction: AssociationDirection,
        groups: Vec<Vec<OutputValue>>,
    )
        ensures
            final(self).keys == old(self).keys,
            final(self).fields@ == old(self).fields@.push((name, direction)),
            final(self).groups@ == old(self).groups@.push(groups),
    {
        self.fields.push((name, direction));
        self.groups.push(groups);
    }

    /// Attaches the resolved association fields to the scalar objects: the
    /// `i`-th response object carries the `i`-th scalar fields followed by one
    /// field per resolved association, carrying that parent's own group.
    pub fn merge_with_object_list(self, objs: Vec<Vec<(String, OutputValue)>>) -> (r: Vec<
        OutputValue,
    >)
        requires
            self.fields@.len() == self.groups@.len(),
            forall|f: int|
                0 <= f < self.groups@.len() ==> (#[trigger] self.groups@[f])@.len()
                    == objs@.len(),
        ensures
            r@.len() == objs@.len(),
            forall|i: int|
                0 <= i < r@.len() ==> (#[trigger] r@[i])@ == OutputV::Object(
                    spec_obj_fields_v(objs@[i]@) + Seq::new(
                        self.fields@.len(),
                        |f: int|
                            spec_assoc_field_v(
                                self.fields@[f].0@,
                                self.fields@[f].1,
                                spec_outputs_v(self.groups@[f]@[i]@),
                            ),
                    ),
                ),
    {
        let ghost orig = self;
        let ghost orig_objs = objs@;
        let nfields = self.fields.len();
        let n = objs.len();
        let mut objs = objs;
        let mut groups = self.groups;
        let mut out: Vec<OutputValue> = Vec::new();
        let mut i: usize = 0;
        while i < n
            invariant
                i <= n,
                out@.len() == i,
                n == orig_objs.len(),
                self.fields@ == orig.fields@,
                nfields == orig.fields@.len(),
                groups@.len() == nfields,
                objs@ == orig_objs.skip(i as int),
                orig.fields@.len() == orig.groups@.len(),
                forall|f: int|
                    0 <= f < nfields ==> (#[trigger] groups@[f])@ == orig.groups@[f]@.skip(
                        i as int,
                    ),
                forall|f: int|
                    0 <= f < nfields ==> (#[trigger] orig.groups@[f])@.len() == orig_objs.len(),
                forall|i2: int|
                    0 <= i2 < i ==> (#[trigger] out@[i2])@ == OutputV::Object(
                        spec_obj_fields_v(orig_objs[i2]@) + Seq::new(
                            orig.fields@.len(),
                            |f: int|
                                spec_assoc_field_v(
                                    orig.fields@[f].0@,
                                    orig.fields@[f].1,
                                    spec_outputs_v(orig.groups@[f]@[i2]@),
                                ),
                        ),
                    ),
            decreases n - i,
        {
            let mut row_fields = objs.remove(0);
            proof {
                assert(orig_objs.skip(i as int)[0] == orig_objs[i as int]);
                assert(orig_objs.skip(i as int).drop_first() =~= orig_objs.skip(i + 1));
            }
            let ghost scalar_part = row_fields@;
            let mut f: usize = 0;
            while f < nfields
                invariant
                    f <= nfields,
                    i < n,
                    self.fields@ == orig.fields@,
                    scalar_part == orig_objs[i as int]@,
                    nfields == orig.fields@.len(),
                    orig.fields@.len() == orig.groups@.len(),
                    groups@.len() == nfields,
                    n == orig_objs.len(),
                    forall|f2: int|
                        0 <= f2 < nfields ==> (#[trigger] orig.groups@[f2])@.len()
                            == orig_objs.len(),
                    forall|f2: int|
                        0 <= f2 < f ==> (#[trigger] groups@[f2])@ == orig.groups@[f2]@.skip(i + 1),
                    forall|f2: int|
                        f <= f2 < nfields ==> (#[trigger] groups@[f2])@ == orig.groups@[f2]@.skip(
                            i as int,
                        ),
                    row_fields@.len() == scalar_part.len() + f,
                    row_fields@.subrange(0, scalar_part.len() as int) == scalar_part,
                    forall|f2: int|
                        0 <= f2 < f ==> ((#[trigger] row_fields@[scalar_part.len() + f2]).0@,
                        row_fields@[scalar_part.len() + f2].1@) == spec_assoc_field_v(
                            orig.fields@[f2].0@,
                            orig.fields@[f2].1,
                            spec_outputs_v(orig.groups@[f2]@[i as int]@),
                        ),
                decreases nfields - f,
            {
                let ghost pre = row_fields@;
                proof {
                    assert(orig.groups@[f as int]@.skip(i as int)[0] == orig.groups@[f as int]@[
                    i as int]);
                    assert(orig.groups@[f as int]@.skip(i as int).drop_first()
                        =~= orig.groups@[f as int]@.skip(i + 1));
                }
                let mut g = groups[f].remove(0);
                let name = self.fields[f].0.clone();
                let direction = self.fields[f].1;
                let value = match direction {
                    AssociationDirection::ToMany => OutputValue::List(g),
                    AssociationDirection::ToOne => {
                        if g.len() > 0 {
                            let first = g.remove(0);
                            first
                        } else {
                            OutputValue::Null
                        }
                    },
                };
                proof {
                    if direction is ToMany {
                        assert(value@->List_0 =~= spec_outputs_v(
                            orig.groups@[f as int]@[i as int]@,
                        ));
                    }
                }
                row_fields.push((name, value));
                proof {
                    assert(row_fields@.subrange(0, scalar_part.len() as int) =~= pre.subrange(
                        0,
                        scalar_part.len() as int,
                    ));
                }
                f = f + 1;
            }
            let val = OutputValue::Object(row_fields);
            proof {
                let ghost scalar_len = scalar_part.len() as int;
                let ghost target = spec_obj_fields_v(orig_objs[i as int]@) + Seq::new(
                    orig.fields@.len(),
                    |f2: int|
                        spec_assoc_field_v(
                            orig.fields@[f2].0@,
                            orig.fields@[f2].1,
                            spec_outputs_v(orig.groups@[f2]@[i as int]@),
                        ),
                );
                assert forall|k: int| 0 <= k < val@->Object_0.len() implies val@->Object_0[k]
                    == target[k] by {
                    if k < scalar_len {
                        assert(val->Object_0@.subrange(0, scalar_len)[k] == val->Object_0@[k]);
                        assert(scalar_part[k] == val->Object_0@[k]);
                    } else {
                        let f2 = k - scalar_len;
                        assert((val->Object_0@[scalar_len + f2].0@, val->Object_0@[scalar_len
                            + f2].1@) == spec_assoc_field_v(
                            orig.fields@[f2].0@,
                            orig.fields@[f2].1,
                            spec_outputs_v(orig.groups@[f2]@[i as int]@),
                        ));
                        assert(val@->Object_0[k] == (val->Object_0@[k].0@, val->Object_0@[k].1@));
                    }
                }
                assert(val@->Object_0 =~= target);
            }
            out.push(val);
            i = i + 1;
        }
        out
    }
}

/// Copies a vector of cells.
fn duplicate_cells(cells: &Vec<Option<WundergraphScalarValue>>) -> (r: Vec<
    Option<WundergraphScalarValue>,
>)
    ensures
        r@.len() == cells@.len(),
        forall|i: int|
            0 <= i < r@.len() ==> spec_cell_v(#[trigger] r@[i]) == spec_cell_v(cells@[i]),
{
    let mut out: Vec<Option<WundergraphScalarValue>> = Vec::new();
    let mut i: usize = 0;
    while i < cells.len()
        invariant
            i == out@.len(),
            i <= cells@.len(),
            forall|j: int|
                0 <= j < i ==> spec_cell_v(#[trigger] out@[j]) == spec_cell_v(cells@[j]),
        decreases cells@.len() - i,
    {
        out.push(duplicate_cell(&cells[i]));
        i = i + 1;
    }
    out
}

/// Resolves one requested association for a whole batch of parent rows: one
/// batched child query keyed by the distinct parent join keys — none at all
/// when the parent batch is empty, though the child subtree is still
/// validated — then one group of children per parent, in the child query's
/// own order.
#[verifier::rlimit(100)]
pub fn resolve_association(
    conn: &mut Connection,
    schema: &Schema,
    t: usize,
    a: usize,
    child_request: &SelectionField,
    keys: &Vec<Option<WundergraphScalarValue>>,
) -> (r: Result<Vec<Vec<OutputValue>>, WundergraphError>)
    requires
        schema.spec_wf(),
        old(conn).database.spec_wf(*schema),
        t < schema.tables@.len(),
        a < schema.tables@[t as int].associations@.len(),
    ensures
        final(conn).database == old(conn).database,
        final(conn).backend == old(conn).backend,
        spec_log_extends(old(conn).query_log@, final(conn).query_log@),
        keys@.len() == 0 ==> final(conn).query_log@ == old(conn).query_log@,
        r is Ok && keys@.len() > 0 ==> final(conn).query_log@.len() > old(
            conn,
        ).query_log@.len() && final(conn).query_log@[old(conn).query_log@.len() as int]
            == schema.tables@[t as int].associations@[a as int].target_table,
        r is Ok && keys@.len() > 0 && spec_assoc_children(
            schema.tables@[schema.tables@[t as int].associations@[a as int].target_table as int],
            *child_request,
            0,
        ).len() == 0 ==> final(conn).query_log@ == old(conn).query_log@.push(
            schema.tables@[t as int].associations@[a as int].target_table,
        ),
        match r {
            Ok(groups) => {
                &&& groups@.len() == keys@.len()
                &&& spec_request_outcome(
                    *schema,
                    schema.tables@[t as int].associations@[a as int].target_table as int,
                    *child_request,
                ) is Ok
                &&& (forall|p: int, j: int|
                    0 <= p < groups@.len() && 0 <= j < (#[trigger] groups@[p])@.len() ==> (
                    #[trigger] groups@[p]@[j])@ is Object)
                &&& (keys@.len() > 0 ==> exists|q: Query, cks: Seq<Option<ScalarV>>, cvs: Seq<OutputV>|
                    #![trigger q.spec_wf(*schema), cks.len(), cvs.len()]
                    {
                        let assoc = schema.tables@[t as int].associations@[a as int];
                        let join_col: int = if assoc.direction is ToMany {
                            assoc.foreign_key as int
                        } else {
                            schema.tables@[assoc.target_table as int].primary_key@[0] as int
                        };
                        &&& crate::query::spec_query_matches_forced(
                            *schema,
                            old(conn).backend,
                            assoc.target_table as int,
                            *child_request,
                            q,
                            join_col,
                        )
                        &&& q.spec_wf(*schema)
                        &&& q.key_in is Some
                        &&& q.key_in.unwrap().columns@.len() == 1
                        &&& q.key_in.unwrap().columns@[0] == join_col
                        &&& cks.len() == spec_execute(old(conn).database, *schema, q).len()
                        &&& cvs.len() == cks.len()
                        &&& (forall|j: int|
                            0 <= j < cks.len() ==> #[trigger] cks[j] == spec_slot_cell(
                                spec_execute(old(conn).database, *schema, q)[j][join_col],
                            ))
                        &&& (forall|p: int|
                            0 <= p < groups@.len() ==> spec_outputs_v((#[trigger] groups@[p])@)
                                == spec_group(spec_cell_v(keys@[p]), cks, cvs, 0))
                    })
            },
            Err(e) => spec_request_outcome(
                *schema,
                schema.tables@[t as int].associations@[a as int].target_table as int,
                *child_request,
            ) == Err::<(), WundergraphError>(e),
        },
    decreases *child_request, 2int,
{
    let assoc = &schema.tables[t].associations[a];
    let target = assoc.target_table;
    proof {
        assert(schema.spec_wf_association(t as int, *assoc));
        assert(schema.tables@[target as int].spec_wf_local(schema.capabilities));
    }
    // the child query is assembled first: its arguments must decode whether
    // or not any parent row needs it
    let mut q = match build_query(schema, conn.backend, target, child_request) {
        Ok(q) => q,
        Err(e) => {
            return Err(e);
        },
    };
    if keys.len() == 0 {
        // zero parents issue zero child queries; the subtree is still
        // validated so that the outcome never depends on the stored rows
        let no_rows: Vec<RowPlaceholder> = Vec::new();
        match resolve_placeholders(conn, schema, target, child_request, &no_rows) {
            Ok(_) => {
                return Ok(Vec::new());
            },
            Err(e) => {
                return Err(e);
            },
        }
    }
    let to_many = matches!(assoc.direction, AssociationDirection::ToMany);
    let join_col: usize = if to_many {
        assoc.foreign_key
    } else {
        schema.tables[target].primary_key[0]
    };
    proof {
        assert(join_col as int == (if schema.tables@[t as int].associations@[a
            as int].direction is ToMany {
            schema.tables@[t as int].associations@[a as int].foreign_key as int
        } else {
            schema.tables@[schema.tables@[t as int].associations@[a as int].target_table
                as int].primary_key@[0] as int
        }));
    }
    // the distinct non-null parent keys, in first-appearance order
    let mut distinct: Vec<Vec<WundergraphScalarValue>> = Vec::new();
    let mut i: usize = 0;
    while i < keys.len()
        invariant
            i <= keys@.len(),
            forall|k: int| 0 <= k < distinct@.len() ==> (#[trigger] distinct@[k])@.len() == 1,
        decreases keys@.len() - i,
    {
        match &keys[i] {
            Some(kv) => {
                let mut seen = false;
                let mut k: usize = 0;
                while k < distinct.len()
                    invariant
                        k <= distinct@.len(),
                        forall|k2: int|
                            0 <= k2 < distinct@.len() ==> (#[trigger] distinct@[k2])@.len() == 1,
                    decreases distinct@.len() - k,
                {
                    if scalar_eq(&distinct[k][0], kv) {
                        seen = true;
                    }
                    k = k + 1;
                }
                if !seen {
                    let mut one: Vec<WundergraphScalarValue> = Vec::new();
                    one.push(kv.duplicate());
                    distinct.push(one);
                }
            },
            None => {},
        }
        i = i + 1;
    }
    // one batched query against the related table, honoring the nested
    // request's own arguments, keyed by the distinct parent keys
    let ghost q_built = q;
    let mut cols: Vec<usize> = Vec::new();
    cols.push(join_col);
    q.key_in = Some(KeyConstraint { columns: cols, keys: distinct });
    q.select[join_col] = true;
    proof {
        assert(q.select@ =~= q_built.select@.update(join_col as int, true));
        assert(crate::query::spec_query_matches_forced(
            *schema,
            old(conn).backend,
            target as int,
            *child_request,
            q,
            join_col as int,
        ));
    }
    let phs = execute(conn, schema, &q);
    let child_vals = match resolve_placeholders(conn, schema, target, child_request, &phs) {
        Ok(vals) => vals,
        Err(e) => {
            return Err(e);
        },
    };
    // the join-key cell of each child row, for grouping
    let mut child_keys: Vec<Option<WundergraphScalarValue>> = Vec::new();
    let mut j: usize = 0;
    while j < phs.len()
        invariant
            j == child_keys@.len(),
            j <= phs@.len(),
            join_col < q.select@.len(),
            forall|j2: int|
                0 <= j2 < phs@.len() ==> (#[trigger] phs@[j2]).slots@.len() == q.select@.len(),
            forall|j2: int|
                0 <= j2 < j ==> spec_cell_v(#[trigger] child_keys@[j2]) == spec_slot_cell(
                    phs@[j2].spec_v()[join_col as int],
                ),
        decreases phs@.len() - j,
    {
        child_keys.push(placeholder_cell(&phs[j], join_col));
        j = j + 1;
    }
    proof {
        assert(child_keys@.len() == child_vals@.len());
    }
    // one group per parent, in the child query's own order
    let ghost cks = Seq::new(child_keys@.len(), |m: int| spec_cell_v(child_keys@[m]));
    let ghost cvs = spec_outputs_v(child_vals@);
    proof {
        assert(crate::database::spec_placeholders_v(phs@).len() == spec_execute(
            conn.database,
            *schema,
            q,
        ).len());
        assert forall|j2: int| 0 <= j2 < cks.len() implies #[trigger] cks[j2] == spec_slot_cell(
            spec_execute(old(conn).database, *schema, q)[j2][join_col as int],
        ) by {
            assert(crate::database::spec_placeholders_v(phs@)[j2] == phs@[j2].spec_v());
            assert(cks[j2] == spec_cell_v(child_keys@[j2]));
        }
    }
    let mut groups: Vec<Vec<OutputValue>> = Vec::new();
    let mut p: usize = 0;
    while p < keys.len()
        invariant
            p == groups@.len(),
            p <= keys@.len(),
            child_keys@.len() == child_vals@.len(),
            cks == Seq::new(child_keys@.len(), |m: int| spec_cell_v(child_keys@[m])),
            cvs == spec_outputs_v(child_vals@),
            forall|m: int| 0 <= m < cvs.len() ==> (#[trigger] cvs[m]) is Object,
            forall|p2: int, j2: int|
                0 <= p2 < groups@.len() && 0 <= j2 < (#[trigger] groups@[p2])@.len() ==> (
                #[trigger] groups@[p2]@[j2])@ is Object,
            forall|p2: int|
                0 <= p2 < groups@.len() ==> spec_outputs_v((#[trigger] groups@[p2])@)
                    == spec_group(spec_cell_v(keys@[p2]), cks, cvs, 0),
        decreases keys@.len() - p,
    {
        let g = group_for_key(&keys[p], &child_keys, &child_vals);
        proof {
            lemma_group_elements_objects(spec_cell_v(keys@[p as int]), cks, cvs, 0);
            assert forall|j2: int| 0 <= j2 < g@.len() implies (#[trigger] g@[j2])@ is Object by {
                assert(spec_outputs_v(g@)[j2] == g@[j2]@);
            }
        }
        groups.push(g);
        p = p + 1;
    }
    proof {
        assert(q.spec_wf(*schema));
        assert(cks.len() == cvs.len());
        assert(crate::query::spec_query_matches_forced(
            *schema,
            old(conn).backend,
            schema.tables@[t as int].associations@[a as int].target_table as int,
            *child_request,
            q,
            join_col as int,
        ));
    }
    Ok(groups)
}

/// Builds the response values for one batch of fetched rows: the requested
/// scalar fields of each row in request order, then — batched across all the
/// rows — every requested association field, and nothing else. Every
/// requested child must name a declared column or association; the outcome
/// never depends on how many rows were fetched.
#[verifier::rlimit(100)]
pub fn resolve_placeholders(
    conn: &mut Connection,
    schema: &Schema,
    t: usize,
    request: &SelectionField,
    phs: &Vec<RowPlaceholder>,
) -> (r: Result<Vec<OutputValue>, WundergraphError>)
    requires
        schema.spec_wf(),
        old(conn).database.spec_wf(*schema),
        t < schema.tables@.len(),
        forall|i: int|
            0 <= i < phs@.len() ==> (#[trigger] phs@[i]).slots@.len() == schema.tables@[
            t as int].columns@.len(),
    ensures
        final(conn).database == old(conn).database,
        final(conn).backend == old(conn).backend,
        spec_log_extends(old(conn).query_log@, final(conn).query_log@),
        phs@.len() == 0 ==> final(conn).query_log@ == old(conn).query_log@,
        spec_assoc_children(schema.tables@[t as int], *request, 0).len() == 0
            ==> final(conn).query_log@ == old(conn).query_log@,
        match r {
            Ok(vals) => {
                &&& spec_level_outcome(*schema, t as int, *request) is Ok
                &&& vals@.len() == phs@.len()
                &&& (forall|i: int|
                    0 <= i < vals@.len() ==> (#[trigger] vals@[i])@ is Object)
                &&& (forall|i: int|
                    0 <= i < vals@.len() ==> {
                        let sf = spec_scalar_fields(
                            schema.tables@[t as int],
                            *request,
                            (#[trigger] phs@[i]).spec_v(),
                            0,
                        );
                        &&& sf is Some
                        &&& vals@[i]@->Object_0.len() == sf.unwrap().len() + spec_assoc_children(
                            schema.tables@[t as int],
                            *request,
                            0,
                        ).len()
                        &&& vals@[i]@->Object_0.take(sf.unwrap().len() as int) == sf.unwrap()
                    })
                &&& (forall|i: int, j: int|
                    #![trigger vals@[i]@->Object_0, spec_assoc_children(schema.tables@[t as int], *request, 0)[j]]
                    0 <= i < vals@.len() && 0 <= j < spec_assoc_children(
                        schema.tables@[t as int],
                        *request,
                        0,
                    ).len() ==> {
                        let sf_len = spec_scalar_fields(
                            schema.tables@[t as int],
                            *request,
                            phs@[i].spec_v(),
                            0,
                        ).unwrap().len() as int;
                        let entry = spec_assoc_children(schema.tables@[t as int], *request, 0)[j];
                        &&& vals@[i]@->Object_0[sf_len + j].0 == entry.0
                        &&& (entry.1 is ToMany ==> vals@[i]@->Object_0[sf_len + j].1 is List)
                        &&& (entry.1 is ToOne ==> vals@[i]@->Object_0[sf_len + j].1 is Null
                            || vals@[i]@->Object_0[sf_len + j].1 is Object)
                    })
            },
            Err(e) => spec_level_outcome(*schema, t as int, *request) == Err::<
                (),
                WundergraphError,
            >(e),
        },
    decreases *request, 1int,
{
    let table = &schema.tables[t];
    proof {
        assert(schema.tables@[t as int].spec_wf_local(schema.capabilities));
    }
    // every requested child must name a declared column or association
    let mut k0: usize = 0;
    while k0 < request.children.len()
        invariant
            k0 <= request.children@.len(),
            table == &schema.tables@[t as int],
            t < schema.tables@.len(),
            forall|k2: int|
                0 <= k2 < k0 ==> crate::table::spec_column_index(
                    schema.tables@[t as int].columns@,
                    (#[trigger] request.children@[k2]).name@,
                ) is Some || crate::table::spec_association_index(
                    schema.tables@[t as int].associations@,
                    request.children@[k2].name@,
                ) is Some,
        decreases request.children@.len() - k0,
    {
        let child = &request.children[k0];
        let known = table.column_index(child.name.as_str()).is_some() || table.association_index(
            child.name.as_str(),
        ).is_some();
        if !known {
            proof {
                assert(!spec_known_children(schema.tables@[t as int], *request));
            }
            return Err(WundergraphError::UnknownField);
        }
        k0 = k0 + 1;
    }
    proof {
        assert(spec_known_children(schema.tables@[t as int], *request));
    }
    // scalar fields, per row, in request order
    let mut objs: Vec<Vec<(String, OutputValue)>> = Vec::new();
    let mut i: usize = 0;
    while i < phs.len()
        invariant
            i == objs@.len(),
            i <= phs@.len(),
            table == &schema.tables@[t as int],
            t < schema.tables@.len(),
            spec_known_children(schema.tables@[t as int], *request),
            forall|i2: int|
                0 <= i2 < phs@.len() ==> (#[trigger] phs@[i2]).slots@.len() == schema.tables@[
                t as int].columns@.len(),
            forall|i2: int|
                0 <= i2 < i ==> spec_scalar_fields(
                    schema.tables@[t as int],
                    *request,
                    (#[trigger] phs@[i2]).spec_v(),
                    0,
                ) == Some(spec_obj_fields_v(objs@[i2]@)),
        decreases phs@.len() - i,
    {
        let ph = &phs[i];
        let ghost phv = ph.spec_v();
        let mut row_fields: Vec<(String, OutputValue)> = Vec::new();
        let mut k: usize = 0;
        while k < request.children.len()
            invariant
                k <= request.children@.len(),
                table == &schema.tables@[t as int],
                t < schema.tables@.len(),
                spec_known_children(schema.tables@[t as int], *request),
                ph.slots@.len() == schema.tables@[t as int].columns@.len(),
                phv == ph.spec_v(),
                match spec_scalar_fields(schema.tables@[t as int], *request, phv, k as int) {
                    Some(rest) => spec_scalar_fields(schema.tables@[t as int], *request, phv, 0)
                        == Some(spec_obj_fields_v(row_fields@) + rest),
                    None => spec_scalar_fields(
                        schema.tables@[t as int],
                        *request,
                        phv,
                        0,
                    ) is None,
                },
            decreases request.children@.len() - k,
        {
            let child = &request.children[k];
            match table.column_index(child.name.as_str()) {
                Some(c) => {
                    proof {
                        crate::table::lemma_column_index_props(
                            schema.tables@[t as int].columns@,
                            child.name@,
                        );
                        assert(table.columns@.len() == table.columns.len());
                    }
                    let value = match placeholder_cell(ph, c) {
                        Some(v) => OutputValue::Scalar(v),
                        None => OutputValue::Null,
                    };
                    proof {
                        assert(value@ == spec_cell_output(phv[c as int]));
                    }
                    let ghost pre = row_fields@;
                    row_fields.push((child.name.clone(), value));
                    proof {
                        if spec_scalar_fields(schema.tables@[t as int], *request, phv, k + 1)
                            is Some {
                            let rest = spec_scalar_fields(
                                schema.tables@[t as int],
                                *request,
                                phv,
                                k + 1,
                            ).unwrap();
                            assert(spec_obj_fields_v(pre) + (seq![
                                (child.name@, spec_cell_output(phv[c as int])),
                            ] + rest) =~= spec_obj_fields_v(row_fields@) + rest);
                        }
                    }
                },
                None => {
                    // a known non-column child is an association field,
                    // attached after the batch pass
                },
            }
            k = k + 1;
        }
        proof {
            assert(spec_obj_fields_v(row_fields@) + Seq::<(Seq<char>, OutputV)>::empty()
                =~= spec_obj_fields_v(row_fields@));
        }
        objs.push(row_fields);
        i = i + 1;
    }
    // association fields, batched across the rows at this level
    let ghost ac0 = spec_assoc_children(schema.tables@[t as int], *request, 0);
    let mut ar = AssociationsReturn::empty();
    let mut k: usize = 0;
    proof {
        assert(Seq::new(ar.fields@.len(), |f: int| ((ar.fields@[f].0@, ar.fields@[f].1))) + ac0
            =~= ac0);
    }
    while k < request.children.len()
        invariant
            k <= request.children@.len(),
            schema.spec_wf(),
            conn.database == old(conn).database,
            conn.backend == old(conn).backend,
            conn.database.spec_wf(*schema),
            spec_log_extends(old(conn).query_log@, conn.query_log@),
            phs@.len() == 0 ==> conn.query_log@ == old(conn).query_log@,
            ac0.len() == 0 ==> conn.query_log@ == old(conn).query_log@,
            t < schema.tables@.len(),
            spec_known_children(schema.tables@[t as int], *request),
            ac0 == spec_assoc_children(schema.tables@[t as int], *request, 0),
            forall|i2: int|
                0 <= i2 < phs@.len() ==> (#[trigger] phs@[i2]).slots@.len() == schema.tables@[
                t as int].columns@.len(),
            objs@.len() == phs@.len(),
            ar.fields@.len() == ar.groups@.len(),
            forall|f: int|
                0 <= f < ar.groups@.len() ==> (#[trigger] ar.groups@[f])@.len() == objs@.len(),
            spec_children_outcome(*schema, t as int, *request, 0) == spec_children_outcome(
                *schema,
                t as int,
                *request,
                k as int,
            ),
            Seq::new(ar.fields@.len(), |f: int| ((ar.fields@[f].0@, ar.fields@[f].1)))
                + spec_assoc_children(schema.tables@[t as int], *request, k as int) == ac0,
            forall|f: int, p: int, j: int|
                0 <= f < ar.groups@.len() && 0 <= p < ar.groups@[f]@.len() && 0 <= j
                    < ar.groups@[f]@[p]@.len() ==> (#[trigger] ar.groups@[f]@[p]@[j])@ is Object,
        decreases request.children@.len() - k,
    {
        let child = &request.children[k];
        let table = &schema.tables[t];
        let ai = table.association_index(child.name.as_str());
        if ai.is_some() {
            let a = ai.unwrap();
            proof {
                crate::table::lemma_association_index_props(
                    schema.tables@[t as int].associations@,
                    child.name@,
                );
                assert(table.associations@.len() == table.associations.len());
                assert(schema.tables@[t as int].spec_wf_local(schema.capabilities));
                assert(a as int == crate::table::spec_association_index(
                    schema.tables@[t as int].associations@,
                    child.name@,
                ).unwrap());
                assert(schema.spec_wf_association(
                    t as int,
                    schema.tables@[t as int].associations@[a as int],
                ));
            }
            let assoc = &table.associations[a];
            let keycol: usize = match assoc.direction {
                AssociationDirection::ToMany => table.primary_key[0],
                AssociationDirection::ToOne => assoc.foreign_key,
            };
            proof {
                assert(keycol < schema.tables@[t as int].columns@.len());
            }
            let mut keys: Vec<Option<WundergraphScalarValue>> = Vec::new();
            let mut i2: usize = 0;
            while i2 < phs.len()
                invariant
                    i2 == keys@.len(),
                    i2 <= phs@.len(),
                    keycol < schema.tables@[t as int].columns@.len(),
                    forall|i3: int|
                        0 <= i3 < phs@.len() ==> (#[trigger] phs@[i3]).slots@.len()
                            == schema.tables@[t as int].columns@.len(),
                decreases phs@.len() - i2,
            {
                keys.push(placeholder_cell(&phs[i2], keycol));
                i2 = i2 + 1;
            }
            proof {
                assert(decreases_to!(*request => request.children@[k as int]));
                // this level requests at least this one association child
                assert(ac0.len() >= 1) by {
                    lemma_assoc_children_nonempty(
                        schema.tables@[t as int],
                        *request,
                        0,
                        k as int,
                    );
                }
            }
            let groups = match resolve_association(conn, schema, t, a, child, &keys) {
                Ok(g) => g,
                Err(e) => {
                    proof {
                        assert(spec_children_outcome(*schema, t as int, *request, k as int)
                            == Err::<(), WundergraphError>(e));
                    }
                    return Err(e);
                },
            };
            ar.init(duplicate_cells(&keys));
            let ghost pre_fields = ar.fields@;
            ar.push_field(child.name.clone(), assoc.direction, groups);
            proof {
                let ghost entry = (
                    child.name@,
                    schema.tables@[t as int].associations@[a as int].direction,
                );
                assert(Seq::new(ar.fields@.len(), |f: int| ((ar.fields@[f].0@, ar.fields@[f].1)))
                    =~= Seq::new(pre_fields.len(), |f: int| ((pre_fields[f].0@, pre_fields[f].1)))
                    + seq![entry]);
                assert(spec_assoc_children(schema.tables@[t as int], *request, k as int)
                    == seq![entry] + spec_assoc_children(
                    schema.tables@[t as int],
                    *request,
                    k + 1,
                ));
                assert((Seq::new(
                    pre_fields.len(),
                    |f: int| ((pre_fields[f].0@, pre_fields[f].1)),
                ) + seq![entry]) + spec_assoc_children(schema.tables@[t as int], *request, k + 1)
                    =~= Seq::new(pre_fields.len(), |f: int| ((pre_fields[f].0@, pre_fields[f].1)))
                    + (seq![entry] + spec_assoc_children(
                    schema.tables@[t as int],
                    *request,
                    k + 1,
                )));
            }
        } else {
            proof {
                assert(spec_assoc_children(schema.tables@[t as int], *request, k as int)
                    == spec_assoc_children(schema.tables@[t as int], *request, k + 1));
            }
        }
        k = k + 1;
    }
    proof {
        assert(spec_assoc_children(
            schema.tables@[t as int],
            *request,
            request.children@.len() as int,
        ) =~= Seq::<(Seq<char>, AssociationDirection)>::empty());
        assert(Seq::new(ar.fields@.len(), |f: int| ((ar.fields@[f].0@, ar.fields@[f].1)))
            + Seq::<(Seq<char>, AssociationDirection)>::empty() =~= Seq::new(
            ar.fields@.len(),
            |f: int| ((ar.fields@[f].0@, ar.fields@[f].1)),
        ));
        assert(Seq::new(ar.fields@.len(), |f: int| ((ar.fields@[f].0@, ar.fields@[f].1))) == ac0);
        assert(ar.fields@.len() == ac0.len());
    }
    let ghost objs_v = objs@;
    let ghost ar_g = ar;
    let vals = ar.merge_with_object_list(objs);
    proof {
        assert forall|i: int| 0 <= i < vals@.len() implies {
            let sf = spec_scalar_fields(
                schema.tables@[t as int],
                *request,
                (#[trigger] phs@[i]).spec_v(),
                0,
            );
            &&& sf is Some
            &&& vals@[i]@->Object_0.len() == sf.unwrap().len() + ac0.len()
            &&& vals@[i]@->Object_0.take(sf.unwrap().len() as int) == sf.unwrap()
        } by {
            let sf = spec_scalar_fields(
                schema.tables@[t as int],
                *request,
                phs@[i].spec_v(),
                0,
            );
            assert(sf == Some(spec_obj_fields_v(objs_v[i]@)));
            assert(vals@[i]@->Object_0.take(spec_obj_fields_v(objs_v[i]@).len() as int)
                =~= spec_obj_fields_v(objs_v[i]@));
        }
        assert forall|i: int, j: int|
            #![trigger vals@[i]@->Object_0, spec_assoc_children(schema.tables@[t as int], *request, 0)[j]]
            0 <= i < vals@.len() && 0 <= j < ac0.len() implies {
            let sf_len = spec_scalar_fields(
                schema.tables@[t as int],
                *request,
                phs@[i].spec_v(),
                0,
            ).unwrap().len() as int;
            let entry = spec_assoc_children(schema.tables@[t as int], *request, 0)[j];
            &&& vals@[i]@->Object_0[sf_len + j].0 == entry.0
            &&& (entry.1 is ToMany ==> vals@[i]@->Object_0[sf_len + j].1 is List)
            &&& (entry.1 is ToOne ==> vals@[i]@->Object_0[sf_len + j].1 is Null || vals@[i]@
                ->Object_0[sf_len + j].1 is Object)
        } by {
            let sf_len = spec_scalar_fields(
                schema.tables@[t as int],
                *request,
                phs@[i].spec_v(),
                0,
            ).unwrap().len() as int;
            assert(sf_len == spec_obj_fields_v(objs_v[i]@).len());
            let suffix = Seq::new(
                ar_g.fields@.len(),
                |f: int|
                    spec_assoc_field_v(
                        ar_g.fields@[f].0@,
                        ar_g.fields@[f].1,
                        spec_outputs_v(ar_g.groups@[f]@[i]@),
                    ),
            );
            assert(vals@[i]@->Object_0[sf_len + j] == suffix[j]);
            assert((ar_g.fields@[j].0@, ar_g.fields@[j].1) == Seq::new(
                ar_g.fields@.len(),
                |f: int| ((ar_g.fields@[f].0@, ar_g.fields@[f].1)),
            )[j]);
            let group = spec_outputs_v(ar_g.groups@[j]@[i]@);
            if ar_g.fields@[j].1 is ToOne && group.len() > 0 {
                assert(group[0] == ar_g.groups@[j]@[i]@[0]@);
            }
        }
    }
    Ok(vals)
}

/// Loads one request level: assembles the query, runs it, and builds the
/// response rows with their scalar fields and batched associations. The
/// request's arguments and children decide success entirely: the load fails
/// exactly when some argument at some level is ill-formed or some requested
/// child is undeclared, with the first such failure's error.
pub fn load(
    conn: &mut Connection,
    schema: &Schema,
    t: usize,
    request: &SelectionField,
) -> (r: Result<Vec<OutputValue>, WundergraphError>)
    requires
        schema.spec_wf(),
        old(conn).database.spec_wf(*schema),
        t < schema.tables@.len(),
    ensures
        final(conn).database == old(conn).database,
        final(conn).backend == old(conn).backend,
        spec_log_extends(old(conn).query_log@, final(conn).query_log@),
        r is Ok ==> final(conn).query_log@.len() > old(conn).query_log@.len()
            && final(conn).query_log@[old(conn).query_log@.len() as int] == t,
        r is Ok && spec_assoc_children(schema.tables@[t as int], *request, 0).len() == 0
            ==> final(conn).query_log@ == old(conn).query_log@.push(t),
        match r {
            Ok(vals) => spec_request_outcome(*schema, t as int, *request) is Ok && (exists|q: Query|
                {
                    &&& #[trigger] spec_query_matches(
                        *schema,
                        old(conn).backend,
                        t as int,
                        *request,
                        q,
                    )
                    &&& q.spec_wf(*schema)
                    &&& vals@.len() == spec_execute(old(conn).database, *schema, q).len()
                    &&& (forall|i: int|
                        0 <= i < vals@.len() ==> {
                            let sf = spec_scalar_fields(
                                schema.tables@[t as int],
                                *request,
                                spec_execute(old(conn).database, *schema, q)[i],
                                0,
                            );
                            &&& sf is Some
                            &&& (#[trigger] vals@[i])@ is Object
                            &&& vals@[i]@->Object_0.len() == sf.unwrap().len()
                                + spec_assoc_children(schema.tables@[t as int], *request, 0).len()
                            &&& vals@[i]@->Object_0.take(sf.unwrap().len() as int) == sf.unwrap()
                        })
                    &&& (forall|i: int, j: int|
                        #![trigger vals@[i]@->Object_0, spec_assoc_children(schema.tables@[t as int], *request, 0)[j]]
                        0 <= i < vals@.len() && 0 <= j < spec_assoc_children(
                            schema.tables@[t as int],
                            *request,
                            0,
                        ).len() ==> {
                            let sf_len = spec_scalar_fields(
                                schema.tables@[t as int],
                                *request,
                                spec_execute(old(conn).database, *schema, q)[i],
                                0,
                            ).unwrap().len() as int;
                            let entry = spec_assoc_children(
                                schema.tables@[t as int],
                                *request,
                                0,
                            )[j];
                            &&& vals@[i]@->Object_0[sf_len + j].0 == entry.0
                            &&& (entry.1 is ToMany ==> vals@[i]@->Object_0[sf_len + j].1 is List)
                            &&& (entry.1 is ToOne ==> vals@[i]@->Object_0[sf_len + j].1 is Null
                                || vals@[i]@->Object_0[sf_len + j].1 is Object)
                        })
                }),
            Err(e) => spec_request_outcome(*schema, t as int, *request) == Err::<
                (),
                WundergraphError,
            >(e),
        },
    decreases *request, 2int,
{
    let q = match build_query(schema, conn.backend, t, request) {
        Ok(q) => q,
        Err(e) => {
            return Err(e);
        },
    };
    let phs = execute(conn, schema, &q);
    proof {
        assert(crate::database::spec_placeholders_v(phs@).len() == spec_execute(
            conn.database,
            *schema,
            q,
        ).len());
        assert forall|i: int| 0 <= i < phs@.len() implies (#[trigger] phs@[i]).spec_v()
            == spec_execute(old(conn).database, *schema, q)[i] by {
            assert(crate::database::spec_placeholders_v(phs@)[i] == phs@[i].spec_v());
        }
    }
    match resolve_placeholders(conn, schema, t, request, &phs) {
        Ok(vals) => {
            proof {
                assert(spec_query_matches(*schema, old(conn).backend, t as int, *request, q));
            }
            Ok(vals)
        },
        Err(e) => Err(e),
    }
}

/// Loads at most one row by its primary key: the `primaryKey` argument must be
/// present and decode to a full key; the query is the request's own, narrowed
/// to that exact key with a limit of one.
pub fn load_by_primary_key(
    conn: &mut Connection,
    schema: &Schema,
    t: usize,
    request: &SelectionField,
) -> (r: Result<Option<OutputValue>, WundergraphError>)
    requires
        schema.spec_wf(),
        old(conn).database.spec_wf(*schema),
        t < schema.tables@.len(),
    ensures
        final(conn).database == old(conn).database,
        final(conn).backend == old(conn).backend,
        spec_log_extends(old(conn).query_log@, final(conn).query_log@),
        request.spec_argument("primaryKey"@) is None ==> r == Err::<
            Option<OutputValue>,
            WundergraphError,
        >(WundergraphError::NoPrimaryKeyArgumentFound) && final(conn).query_log == old(
            conn,
        ).query_log,
        match request.spec_argument("primaryKey"@) {
            Some(kv) => spec_decode_key(schema.tables@[t as int], kv) is None ==> r == Err::<
                Option<OutputValue>,
                WundergraphError,
            >(WundergraphError::NoPrimaryKeyArgumentFound) && final(conn).query_log == old(
                conn,
            ).query_log,
            None => true,
        },
        match r {
            Ok(res) => {
                &&& request.spec_argument("primaryKey"@) is Some
                &&& spec_decode_key(
                    schema.tables@[t as int],
                    request.spec_argument("primaryKey"@).unwrap(),
                ) is Some
                &&& spec_request_outcome(*schema, t as int, *request) is Ok
                &&& (exists|q: Query|
                    {
                        &&& #[trigger] crate::query::spec_query_matches_base(
                            *schema,
                            old(conn).backend,
                            t as int,
                            *request,
                            q,
                        )
                        &&& q.spec_wf(*schema)
                        &&& q.limit == Some(1i64)
                        &&& q.key_in is Some
                        &&& q.key_in.unwrap().columns@ == schema.tables@[t as int].primary_key@
                        &&& q.key_in.unwrap().keys@.len() == 1
                        &&& crate::decode::spec_scalars_v(q.key_in.unwrap().keys@[0]@)
                            == spec_decode_key(
                            schema.tables@[t as int],
                            request.spec_argument("primaryKey"@).unwrap(),
                        ).unwrap()
                        &&& (res is None <==> spec_execute(
                            old(conn).database,
                            *schema,
                            q,
                        ).len() == 0)
                        &&& match res {
                            Some(val) => {
                                let sf = spec_scalar_fields(
                                    schema.tables@[t as int],
                                    *request,
                                    spec_execute(old(conn).database, *schema, q)[0],
                                    0,
                                );
                                &&& sf is Some
                                &&& val@ is Object
                                &&& val@->Object_0.len() == sf.unwrap().len()
                                    + spec_assoc_children(
                                    schema.tables@[t as int],
                                    *request,
                                    0,
                                ).len()
                                &&& val@->Object_0.take(sf.unwrap().len() as int) == sf.unwrap()
                            },
                            None => true,
                        }
                    })
            },
            Err(e) => match request.spec_argument("primaryKey"@) {
                None => e == WundergraphError::NoPrimaryKeyArgumentFound,
                Some(kv) => (spec_decode_key(schema.tables@[t as int], kv) is None && e
                    == WundergraphError::NoPrimaryKeyArgumentFound) || (spec_decode_key(
                    schema.tables@[t as int],
                    kv,
                ) is Some && spec_request_outcome(*schema, t as int, *request) == Err::<
                    (),
                    WundergraphError,
                >(e)),
            },
        },
{
    let table = &schema.tables[t];
    proof {
        assert(schema.tables@[t as int].spec_wf_local(schema.capabilities));
    }
    let kv = match request.argument("primaryKey") {
        Some(kv) => kv,
        None => {
            return Err(WundergraphError::NoPrimaryKeyArgumentFound);
        },
    };
    let key = match PrimaryKeyArgument::from_look_ahead(table, kv) {
        Some(key) => key,
        None => {
            return Err(WundergraphError::NoPrimaryKeyArgumentFound);
        },
    };
    let mut q = match build_query(schema, conn.backend, t, request) {
        Ok(q) => q,
        Err(e) => {
            return Err(e);
        },
    };
    let mut cols: Vec<usize> = Vec::new();
    let mut k: usize = 0;
    while k < table.primary_key.len()
        invariant
            k == cols@.len(),
            k <= table.primary_key@.len(),
            table == &schema.tables@[t as int],
            t < schema.tables@.len(),
            schema.spec_wf(),
            forall|k2: int| 0 <= k2 < k ==> cols@[k2] == table.primary_key@[k2],
        decreases table.primary_key@.len() - k,
    {
        cols.push(table.primary_key[k]);
        k = k + 1;
    }
    proof {
        assert(cols@ =~= schema.tables@[t as int].primary_key@);
    }
    let ghost keyvals = key.values@;
    let mut keyset: Vec<Vec<WundergraphScalarValue>> = Vec::new();
    proof {
        assert(schema.tables@[t as int].spec_wf_local(schema.capabilities));
    }
    keyset.push(key.values);
    q.key_in = Some(KeyConstraint { columns: cols, keys: keyset });
    q.limit = Some(1);
    let phs = execute(conn, schema, &q);
    proof {
        assert(crate::database::spec_placeholders_v(phs@).len() == spec_execute(
            conn.database,
            *schema,
            q,
        ).len());
        assert forall|i: int| 0 <= i < phs@.len() implies (#[trigger] phs@[i]).spec_v()
            == spec_execute(old(conn).database, *schema, q)[i] by {
            assert(crate::database::spec_placeholders_v(phs@)[i] == phs@[i].spec_v());
        }
    }
    match resolve_placeholders(conn, schema, t, request, &phs) {
        Ok(mut vals) => {
            if vals.len() == 0 {
                proof {
                    assert(crate::query::spec_query_matches_base(
                        *schema,
                        old(conn).backend,
                        t as int,
                        *request,
                        q,
                    ));
                }
                Ok(None)
            } else {
                let first = vals.remove(0);
                proof {
                    assert(crate::query::spec_query_matches_base(
                        *schema,
                        old(conn).backend,
                        t as int,
                        *request,
                        q,
                    ));
                }
                Ok(Some(first))
            }
        },
        Err(e) => Err(e),
    }
}

} // verus!
