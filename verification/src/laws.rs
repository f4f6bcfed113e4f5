use crate::database::Database;
use crate::scalar::ScalarV;
use crate::filter::{
    spec_eval_filter, spec_eval_relations, spec_filter_unconstrained, FilterWrapper,
};
use crate::order::{spec_cmp_cell, Cmp, Direction};
use crate::query::{spec_query_matches, spec_selected, Query};
use crate::request::SelectionField;
use crate::database::Backend;
use crate::run::{
    spec_bound_rows, spec_cmp_rows, spec_execute, spec_filtered, spec_insert_sorted,
    spec_project_rows, spec_sort_rows,
};
use crate::table::Schema;
use vstd::prelude::*;

verus! {

/// An all-absent filter accepts every row.
pub proof fn lemma_unconstrained_filter_accepts(
    db: Database,
    schema: Schema,
    f: FilterWrapper,
    row: Seq<Option<ScalarV>>,
)
    requires
        spec_filter_unconstrained(f),
    ensures
        spec_eval_filter(db, schema, f, row),
{
    lemma_unconstrained_relations(db, schema, f, 0, row);
}

/// The relation part of an all-absent filter accepts every row.
pub proof fn lemma_unconstrained_relations(
    db: Database,
    schema: Schema,
    f: FilterWrapper,
    i: int,
    row: Seq<Option<ScalarV>>,
)
    requires
        spec_filter_unconstrained(f),
        0 <= i,
    ensures
        spec_eval_relations(db, schema, f, i, row),
    decreases f.relations@.len() - i,
{
    if i < f.relations@.len() {
        lemma_unconstrained_relations(db, schema, f, i + 1, row);
    }
}

/// Two queries differing only in one carrying an all-absent filter keep the
/// same rows.
pub proof fn lemma_filtered_neutral(db: Database, schema: Schema, q1: Query, q2: Query, i: int)
    requires
        q1.table == q2.table,
        q1.key_in == q2.key_in,
        q1.filter is Some && spec_filter_unconstrained(q1.filter.unwrap()),
        q2.filter is None,
        0 <= i,
    ensures
        spec_filtered(db, schema, q1, i) == spec_filtered(db, schema, q2, i),
    decreases db.tables@[q1.table as int]@.len() - i,
{
    if i < db.tables@[q1.table as int]@.len() {
        lemma_unconstrained_filter_accepts(
            db,
            schema,
            q1.filter.unwrap(),
            crate::database::spec_row_v(db.tables@[q1.table as int]@[i]),
        );
        lemma_filtered_neutral(db, schema, q1, q2, i + 1);
    }
}

/// Filter neutrality: an all-absent filter object yields the same result set
/// as omitting the filter argument entirely.
pub proof fn lemma_filter_neutrality(db: Database, schema: Schema, q1: Query, q2: Query)
    requires
        q1.table == q2.table,
        q1.select == q2.select,
        q1.key_in == q2.key_in,
        q1.order == q2.order,
        q1.limit == q2.limit,
        q1.offset == q2.offset,
        q1.filter is Some && spec_filter_unconstrained(q1.filter.unwrap()),
        q2.filter is None,
    ensures
        spec_execute(db, schema, q1) == spec_execute(db, schema, q2),
{
    lemma_filtered_neutral(db, schema, q1, q2, 0);
}

/// With no ordering terms every pair of rows ties, so a stable insertion
/// appends at the end.
pub proof fn lemma_insert_no_order(
    x: Seq<Option<ScalarV>>,
    s: Seq<Seq<Option<ScalarV>>>,
)
    ensures
        spec_insert_sorted(Seq::empty(), x, s) == s.push(x),
    decreases s.len(),
{
    if s.len() == 0 {
        assert(spec_insert_sorted(Seq::empty(), x, s) =~= s.push(x));
    } else {
        lemma_insert_no_order(x, s.drop_first());
        assert(seq![s[0]] + s.drop_first().push(x) =~= s.push(x));
    }
}

/// With no ordering terms the stable sort keeps the arrival order.
pub proof fn lemma_sort_no_order(s: Seq<Seq<Option<ScalarV>>>)
    ensures
        spec_sort_rows(Seq::empty(), s) == s,
    decreases s.len(),
{
    if s.len() != 0 {
        lemma_sort_no_order(s.drop_last());
        lemma_insert_no_order(s.last(), spec_sort_rows(Seq::empty(), s.drop_last()));
        assert(s.drop_last().push(s.last()) =~= s);
    }
}

/// A request with no filter, order, limit or offset reads every row of the
/// table, in the table's natural order, projected onto exactly the planned
/// columns.
pub proof fn lemma_execute_unconstrained(db: Database, schema: Schema, q: Query)
    requires
        q.filter is None,
        q.key_in is None,
        q.order@.len() == 0,
        q.limit is None,
        q.offset is None,
    ensures
        spec_execute(db, schema, q) == spec_project_rows(
            q.select@,
            crate::run::spec_rows_view(db.tables@[q.table as int]@),
        ),
{
    lemma_filtered_all(db, schema, q, 0);
    assert(q.order@ =~= Seq::<(usize, Direction)>::empty());
    lemma_sort_no_order(spec_filtered(db, schema, q, 0));
    let sorted = spec_filtered(db, schema, q, 0);
    assert(spec_bound_rows(sorted, q.offset, q.limit) =~= sorted);
}

/// With no filter and no key constraint, every row survives the filter pass,
/// in order.
pub proof fn lemma_filtered_all(db: Database, schema: Schema, q: Query, i: int)
    requires
        q.filter is None,
        q.key_in is None,
        0 <= i <= db.tables@[q.table as int]@.len(),
    ensures
        spec_filtered(db, schema, q, i) == crate::run::spec_rows_view(
            db.tables@[q.table as int]@,
        ).skip(i),
    decreases db.tables@[q.table as int]@.len() - i,
{
    let all = crate::run::spec_rows_view(db.tables@[q.table as int]@);
    if i < db.tables@[q.table as int]@.len() {
        lemma_filtered_all(db, schema, q, i + 1);
        assert(seq![all[i]] + all.skip(i + 1) =~= all.skip(i));
    } else {
        assert(all.skip(i) =~= Seq::<Seq<Option<ScalarV>>>::empty());
    }
}

/// Order stability across terms: with `order = [(a, Asc), (b, Desc)]`, rows
/// differing at column `a` compare by `a` alone — the second term is never
/// consulted — while rows tying at `a` compare by `b`, descending.
pub proof fn lemma_order_tie_break(
    a: usize,
    b: usize,
    x: Seq<Option<ScalarV>>,
    y: Seq<Option<ScalarV>>,
)
    ensures
        spec_cmp_cell(x[a as int], y[a as int]) == Some(Cmp::Lt) ==> spec_cmp_rows(
            seq![(a, Direction::Asc), (b, Direction::Desc)],
            x,
            y,
        ) == Cmp::Lt,
        spec_cmp_cell(x[a as int], y[a as int]) == Some(Cmp::Gt) ==> spec_cmp_rows(
            seq![(a, Direction::Asc), (b, Direction::Desc)],
            x,
            y,
        ) == Cmp::Gt,
        spec_cmp_cell(x[a as int], y[a as int]) == Some(Cmp::Eq) ==> spec_cmp_rows(
            seq![(a, Direction::Asc), (b, Direction::Desc)],
            x,
            y,
        ) == (match spec_cmp_cell(x[b as int], y[b as int]) {
            Some(Cmp::Lt) => Cmp::Gt,
            Some(Cmp::Gt) => Cmp::Lt,
            _ => Cmp::Eq,
        }),
{
    let order = seq![(a, Direction::Asc), (b, Direction::Desc)];
    reveal_with_fuel(spec_cmp_rows, 4);
    assert(order[0] == (a, Direction::Asc));
    assert(order.drop_first() =~= seq![(b, Direction::Desc)]);
    assert(order.drop_first()[0] == (b, Direction::Desc));
    assert(order.drop_first().drop_first() =~= Seq::<(usize, Direction)>::empty());
}

/// For all well-formed requests with no filter, order, limit or offset
/// arguments, the assembled query reads every row of the table, in the
/// store's natural order, with exactly the planned columns fetched — the
/// requested scalar fields, plus the key columns the resolver needs.
pub proof fn lemma_load_unconstrained(
    db: Database,
    schema: Schema,
    backend: Backend,
    t: int,
    request: SelectionField,
    q: Query,
)
    requires
        spec_query_matches(schema, backend, t, request, q),
        request.spec_argument("filter"@) is None,
        request.spec_argument("order"@) is None,
        request.spec_argument("limit"@) is None,
        request.spec_argument("offset"@) is None,
    ensures
        spec_execute(db, schema, q) == spec_project_rows(
            q.select@,
            crate::run::spec_rows_view(db.tables@[t]@),
        ),
        spec_execute(db, schema, q).len() == db.tables@[t]@.len(),
        forall|c: int|
            0 <= c < q.select@.len() ==> #[trigger] q.select@[c] == spec_selected(
                schema.tables@[t],
                request,
                c,
            ),
{
    lemma_execute_unconstrained(db, schema, q);
}

} // verus!
