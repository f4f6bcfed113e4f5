use crate::database::{
    duplicate_row, spec_row_v, spec_row_wf, Connection, Database, PlaceholderSlot, Row,
    RowPlaceholder,
};
use crate::filter::{eval_filter, spec_eval_filter};
use crate::order::{cmp_cells, spec_cmp_cell, Cmp, Direction};
use crate::query::{spec_key_match, spec_key_match_at, KeyConstraint, Query};
use crate::scalar::ScalarV;
use crate::table::Schema;
use vstd::prelude::*;

verus! {

/// Lexicographic comparison of two rows by the ordering terms: each term in
/// argument order compares one column, descending terms flipped, later terms
/// breaking ties left by earlier ones.
pub open spec fn spec_cmp_rows(
    order: Seq<(usize, Direction)>,
    a: Seq<Option<ScalarV>>,
    b: Seq<Option<ScalarV>>,
) -> Cmp
    decreases order.len(),
{
    if order.len() == 0 {
        Cmp::Eq
    } else {
        let c = order[0].0 as int;
        let base = match spec_cmp_cell(a[c], b[c]) {
            Some(x) => x,
            None => Cmp::Eq,
        };
        let oriented = if order[0].1 is Desc {
            match base {
                Cmp::Lt => Cmp::Gt,
                Cmp::Eq => Cmp::Eq,
                Cmp::Gt => Cmp::Lt,
            }
        } else {
            base
        };
        if oriented is Eq {
            spec_cmp_rows(order.drop_first(), a, b)
        } else {
            oriented
        }
    }
}

/// Compares two rows by the ordering terms.
pub fn cmp_rows(order: &Vec<(usize, Direction)>, a: &Row, b: &Row) -> (r: Cmp)
    requires
        forall|k: int|
            0 <= k < order@.len() ==> (#[trigger] order@[k]).0 < a@.len() && order@[k].0
                < b@.len(),
    ensures
        r == spec_cmp_rows(order@, spec_row_v(*a), spec_row_v(*b)),
{
    let mut k: usize = 0;
    proof {
        assert(order@.skip(0) =~= order@);
    }
    while k < order.len()
        invariant
            k <= order@.len(),
            forall|k2: int|
                0 <= k2 < order@.len() ==> (#[trigger] order@[k2]).0 < a@.len() && order@[k2].0
                    < b@.len(),
            spec_cmp_rows(order@, spec_row_v(*a), spec_row_v(*b)) == spec_cmp_rows(
                order@.skip(k as int),
                spec_row_v(*a),
                spec_row_v(*b),
            ),
        decreases order@.len() - k,
    {
        proof {
            assert(order@.skip(k as int)[0] == order@[k as int]);
            assert(order@.skip(k as int).drop_first() =~= order@.skip(k + 1));
        }
        let (c, dir) = order[k];
        let base = match cmp_cells(&a[c], &b[c]) {
            Some(x) => x,
            None => Cmp::Eq,
        };
        let oriented = if matches!(dir, Direction::Desc) {
            match base {
                Cmp::Lt => Cmp::Gt,
                Cmp::Eq => Cmp::Eq,
                Cmp::Gt => Cmp::Lt,
            }
        } else {
            base
        };
        if !matches!(oriented, Cmp::Eq) {
            return oriented;
        }
        k = k + 1;
    }
    proof {
        assert(order@.skip(order@.len() as int) =~= Seq::<(usize, Direction)>::empty());
    }
    Cmp::Eq
}

/// The rows of the queried table that satisfy the query's filter, from
/// position `i` on, in the table's natural order.
pub open spec fn spec_filtered(db: Database, schema: Schema, q: Query, i: int) -> Seq<
    Seq<Option<ScalarV>>,
>
    decreases db.tables@[q.table as int]@.len() - i,
{
    let rows = db.tables@[q.table as int]@;
    if i < 0 || i >= rows.len() {
        Seq::empty()
    } else {
        let keep = (match q.filter {
            Some(f) => spec_eval_filter(db, schema, f, spec_row_v(rows[i])),
            None => true,
        }) && (match q.key_in {
            Some(kc) => spec_key_match(kc, spec_row_v(rows[i])),
            None => true,
        });
        if keep {
            seq![spec_row_v(rows[i])] + spec_filtered(db, schema, q, i + 1)
        } else {
            spec_filtered(db, schema, q, i + 1)
        }
    }
}

/// Stable insertion of a row into an already sorted sequence: the row lands
/// after every earlier row it does not strictly precede.
pub open spec fn spec_insert_sorted(
    order: Seq<(usize, Direction)>,
    x: Seq<Option<ScalarV>>,
    s: Seq<Seq<Option<ScalarV>>>,
) -> Seq<Seq<Option<ScalarV>>>
    decreases s.len(),
{
    if s.len() == 0 {
        seq![x]
    } else if spec_cmp_rows(order, x, s[0]) is Lt {
        seq![x] + s
    } else {
        seq![s[0]] + spec_insert_sorted(order, x, s.drop_first())
    }
}

/// Stable sort of a row sequence by the ordering terms: rows are inserted in
/// arrival order, each after all rows it ties with.
pub open spec fn spec_sort_rows(
    order: Seq<(usize, Direction)>,
    s: Seq<Seq<Option<ScalarV>>>,
) -> Seq<Seq<Option<ScalarV>>>
    decreases s.len(),
{
    if s.len() == 0 {
        Seq::empty()
    } else {
        spec_insert_sorted(order, s.last(), spec_sort_rows(order, s.drop_last()))
    }
}

/// The window an offset and a limit cut out of the sorted rows.
pub open spec fn spec_bound_rows(
    s: Seq<Seq<Option<ScalarV>>>,
    offset: Option<i64>,
    limit: Option<i64>,
) -> Seq<Seq<Option<ScalarV>>> {
    let lo: int = match offset {
        Some(o) => if o as int <= s.len() {
            o as int
        } else {
            s.len() as int
        },
        None => 0,
    };
    let hi: int = match limit {
        Some(l) => if lo + l as int <= s.len() {
            lo + l as int
        } else {
            s.len() as int
        },
        None => s.len() as int,
    };
    s.subrange(lo, hi)
}

/// The projection of one fetched row: selected slots carry the cell, the
/// others only an absent marker — the arity always stays the full declared
/// column count.
pub open spec fn spec_project_row(select: Seq<bool>, row: Seq<Option<ScalarV>>) -> Seq<
    Option<Option<ScalarV>>,
> {
    Seq::new(
        select.len(),
        |c: int|
            if select[c] {
                Some(row[c])
            } else {
                None
            },
    )
}

/// The projections of a row sequence.
pub open spec fn spec_project_rows(select: Seq<bool>, rows: Seq<Seq<Option<ScalarV>>>) -> Seq<
    Seq<Option<Option<ScalarV>>>,
> {
    Seq::new(rows.len(), |i: int| spec_project_row(select, rows[i]))
}

/// Everything one query execution hands back: the filtered rows in natural
/// order, stably sorted by the ordering terms, cut to the offset/limit
/// window, and projected to the selected columns.
pub open spec fn spec_execute(db: Database, schema: Schema, q: Query) -> Seq<
    Seq<Option<Option<ScalarV>>>,
> {
    spec_project_rows(
        q.select@,
        spec_bound_rows(
            spec_sort_rows(q.order@, spec_filtered(db, schema, q, 0)),
            q.offset,
            q.limit,
        ),
    )
}

/// Where a stable insertion lands: right before the first sorted row the new
/// row strictly precedes.
pub proof fn lemma_insert_sorted_at(
    order: Seq<(usize, Direction)>,
    x: Seq<Option<ScalarV>>,
    s: Seq<Seq<Option<ScalarV>>>,
    idx: int,
)
    requires
        0 <= idx <= s.len(),
        forall|j: int| 0 <= j < idx ==> !(spec_cmp_rows(order, x, #[trigger] s[j]) is Lt),
        idx < s.len() ==> spec_cmp_rows(order, x, s[idx]) is Lt,
    ensures
        spec_insert_sorted(order, x, s) == s.subrange(0, idx) + seq![x] + s.skip(idx),
    decreases idx,
{
    if idx == 0 {
        if s.len() == 0 {
            assert(spec_insert_sorted(order, x, s) =~= s.subrange(0, 0) + seq![x] + s.skip(0));
        } else {
            assert(spec_insert_sorted(order, x, s) =~= s.subrange(0, 0) + seq![x] + s.skip(0));
        }
    } else {
        assert(!(spec_cmp_rows(order, x, s[0]) is Lt));
        assert forall|j: int|
            0 <= j < idx - 1 implies !(spec_cmp_rows(order, x, #[trigger] s.drop_first()[j])
            is Lt) by {
            assert(s.drop_first()[j] == s[j + 1]);
        }
        if idx - 1 < s.drop_first().len() {
            assert(s.drop_first()[idx - 1] == s[idx]);
        }
        lemma_insert_sorted_at(order, x, s.drop_first(), idx - 1);
        assert(seq![s[0]] + (s.drop_first().subrange(0, idx - 1) + seq![x] + s.drop_first().skip(
            idx - 1,
        )) =~= s.subrange(0, idx) + seq![x] + s.skip(idx));
    }
}

/// Sorts rows stably by the ordering terms, keeping arrival order among ties.
pub fn sort_rows(order: &Vec<(usize, Direction)>, rows: Vec<Row>) -> (r: Vec<Row>)
    requires
        forall|i: int, k: int|
            0 <= i < rows@.len() && 0 <= k < order@.len() ==> (#[trigger] order@[k]).0 < (
            #[trigger] rows@[i])@.len(),
    ensures
        spec_rows_view(r@) == spec_sort_rows(order@, spec_rows_view(rows@)),
        forall|i: int|
            0 <= i < r@.len() ==> (exists|j: int|
                0 <= j < rows@.len() && (#[trigger] r@[i])@.len() == rows@[j]@.len()),
{
    let mut out: Vec<Row> = Vec::new();
    let mut i: usize = 0;
    while i < rows.len()
        invariant
            i <= rows@.len(),
            forall|i2: int, k: int|
                0 <= i2 < rows@.len() && 0 <= k < order@.len() ==> (#[trigger] order@[k]).0 < (
                #[trigger] rows@[i2])@.len(),
            spec_rows_view(out@) == spec_sort_rows(order@, spec_rows_view(rows@).take(i as int)),
            forall|i2: int|
                0 <= i2 < out@.len() ==> (exists|j: int|
                    0 <= j < rows@.len() && (#[trigger] out@[i2])@.len() == rows@[j]@.len()),
            forall|i2: int, k: int|
                0 <= i2 < out@.len() && 0 <= k < order@.len() ==> (#[trigger] order@[k]).0 < (
                #[trigger] out@[i2])@.len(),
        decreases rows@.len() - i,
    {
        let x = duplicate_row(&rows[i]);
        proof {
            assert(x@.len() == spec_row_v(x).len());
            assert(spec_row_v(x).len() == spec_row_v(rows@[i as int]).len());
        }
        let mut idx: usize = 0;
        let mut found = false;
        while !found && idx < out.len()
            invariant
                idx <= out@.len(),
                spec_row_v(x) == spec_row_v(rows@[i as int]),
                x@.len() == rows@[i as int]@.len(),
                i < rows@.len(),
                forall|i2: int, k: int|
                    0 <= i2 < rows@.len() && 0 <= k < order@.len() ==> (#[trigger] order@[k]).0
                        < (#[trigger] rows@[i2])@.len(),
                forall|i2: int, k: int|
                    0 <= i2 < out@.len() && 0 <= k < order@.len() ==> (#[trigger] order@[k]).0
                        < (#[trigger] out@[i2])@.len(),
                forall|j: int|
                    0 <= j < idx ==> !(spec_cmp_rows(
                        order@,
                        spec_row_v(x),
                        spec_rows_view(out@)[j],
                    ) is Lt),
                found ==> idx < out@.len() && spec_cmp_rows(
                    order@,
                    spec_row_v(x),
                    spec_rows_view(out@)[idx as int],
                ) is Lt,
            decreases out@.len() - idx, (if found { 0int } else { 1int }),
        {
            proof {
                assert(spec_rows_view(out@)[idx as int] == spec_row_v(out@[idx as int]));
            }
            if matches!(cmp_rows(order, &x, &out[idx]), Cmp::Lt) {
                found = true;
            } else {
                idx = idx + 1;
            }
        }
        let ghost pre = out@;
        let ghost gx = spec_row_v(x);
        out.insert(idx, x);
        proof {
            lemma_insert_sorted_at(order@, gx, spec_rows_view(pre), idx as int);
            assert(spec_rows_view(out@) =~= spec_rows_view(pre).subrange(0, idx as int) + seq![gx]
                + spec_rows_view(pre).skip(idx as int));
            assert(spec_rows_view(rows@).take(i + 1).drop_last() =~= spec_rows_view(rows@).take(
                i as int,
            ));
            assert(spec_rows_view(rows@).take(i + 1).last() == spec_row_v(rows@[i as int]));
        }
        i = i + 1;
    }
    proof {
        assert(spec_rows_view(rows@).take(rows@.len() as int) =~= spec_rows_view(rows@));
    }
    out
}

/// The mathematical values of a vector of rows.
pub open spec fn spec_rows_view(rows: Seq<Row>) -> Seq<Seq<Option<ScalarV>>> {
    Seq::new(rows.len(), |i: int| spec_row_v(rows[i]))
}

/// Projects one fetched row onto the planned columns.
pub fn project_row(select: &Vec<bool>, row: &Row) -> (p: RowPlaceholder)
    requires
        select@.len() == row@.len(),
    ensures
        p.spec_v() == spec_project_row(select@, spec_row_v(*row)),
        p.slots@.len() == select@.len(),
{
    let mut slots: Vec<PlaceholderSlot> = Vec::new();
    let mut c: usize = 0;
    while c < select.len()
        invariant
            c == slots@.len(),
            c <= select@.len(),
            select@.len() == row@.len(),
            forall|c2: int|
                0 <= c2 < c ==> crate::database::spec_slot_v(#[trigger] slots@[c2]) == (if
                select@[c2] {
                    Some(spec_row_v(*row)[c2])
                } else {
                    None
                }),
        decreases select@.len() - c,
    {
        if select[c] {
            slots.push(PlaceholderSlot::Value(crate::database::duplicate_cell(&row[c])));
        } else {
            slots.push(PlaceholderSlot::Absent);
        }
        c = c + 1;
    }
    let p = RowPlaceholder { slots };
    proof {
        assert(p.spec_v() =~= spec_project_row(select@, spec_row_v(*row)));
    }
    p
}

/// Runs one query on the connection: the queried table is logged, the stored
/// rows are filtered in natural order, sorted stably by the ordering terms,
/// cut to the offset/limit window and projected onto the planned columns. The
/// stored data is never changed by a read.
pub fn execute(conn: &mut Connection, schema: &Schema, q: &Query) -> (r: Vec<RowPlaceholder>)
    requires
        schema.spec_wf(),
        old(conn).database.spec_wf(*schema),
        q.spec_wf(*schema),
    ensures
        final(conn).database == old(conn).database,
        final(conn).backend == old(conn).backend,
        final(conn).query_log@ == old(conn).query_log@.push(q.table),
        crate::database::spec_placeholders_v(r@) == spec_execute(
            final(conn).database,
            *schema,
            *q,
        ),
        forall|i: int| 0 <= i < r@.len() ==> (#[trigger] r@[i]).slots@.len() == q.select@.len(),
{
    conn.query_log.push(q.table);
    let ghost db = conn.database;
    let t = q.table;
    let mut kept: Vec<Row> = Vec::new();
    let nrows = conn.database.tables[t].len();
    let mut i: usize = 0;
    proof {
        assert(spec_rows_view(kept@) + spec_filtered(db, *schema, *q, 0) =~= spec_filtered(
            db,
            *schema,
            *q,
            0,
        ));
    }
    while i < nrows
        invariant
            schema.spec_wf(),
            conn.database == db,
            db.spec_wf(*schema),
            q.spec_wf(*schema),
            t == q.table,
            nrows == db.tables@[t as int]@.len(),
            i <= nrows,
            spec_filtered(db, *schema, *q, 0) == spec_rows_view(kept@) + spec_filtered(
                db,
                *schema,
                *q,
                i as int,
            ),
            forall|i2: int|
                0 <= i2 < kept@.len() ==> (#[trigger] kept@[i2])@.len() == schema.tables@[
                t as int].columns@.len(),
        decreases nrows - i,
    {
        let row = &conn.database.tables[t][i];
        proof {
            assert(spec_row_wf(schema.tables@[t as int], spec_row_v(*row)));
        }
        let keep = (match &q.filter {
            Some(f) => eval_filter(&conn.database, schema, f, row),
            None => true,
        }) && (match &q.key_in {
            Some(kc) => key_match(kc, row),
            None => true,
        });
        if keep {
            let ghost pre = kept@;
            let d = duplicate_row(row);
            proof {
                assert(d@.len() == spec_row_v(d).len());
                assert(spec_row_v(d).len() == spec_row_v(*row).len());
            }
            kept.push(d);
            proof {
                assert(spec_rows_view(kept@) =~= spec_rows_view(pre) + seq![
                    spec_row_v(db.tables@[t as int]@[i as int]),
                ]);
                assert(spec_rows_view(pre) + (seq![spec_row_v(db.tables@[t as int]@[i as int])]
                    + spec_filtered(db, *schema, *q, i + 1)) =~= spec_rows_view(kept@)
                    + spec_filtered(db, *schema, *q, i + 1));
            }
        }
        i = i + 1;
    }
    proof {
        assert(spec_filtered(db, *schema, *q, nrows as int) =~= Seq::<Seq<Option<ScalarV>>>::empty());
        assert(spec_rows_view(kept@) + Seq::<Seq<Option<ScalarV>>>::empty() =~= spec_rows_view(
            kept@,
        ));
        assert(spec_rows_view(kept@) == spec_filtered(db, *schema, *q, 0));
    }
    let sorted = sort_rows(&q.order, kept);
    let ghost sortedv = spec_rows_view(sorted@);
    let lo: usize = match q.offset {
        Some(o) => {
            if (o as u64) >= (sorted.len() as u64) {
                sorted.len()
            } else {
                o as usize
            }
        },
        None => 0,
    };
    let hi: usize = match q.limit {
        Some(l) => {
            if (l as u64) >= ((sorted.len() - lo) as u64) {
                sorted.len()
            } else {
                lo + (l as usize)
            }
        },
        None => sorted.len(),
    };
    proof {
        assert(spec_bound_rows(sortedv, q.offset, q.limit) =~= sortedv.subrange(
            lo as int,
            hi as int,
        ));
    }
    let mut out: Vec<RowPlaceholder> = Vec::new();
    let mut j: usize = lo;
    while j < hi
        invariant
            lo <= j <= hi <= sorted@.len(),
            sortedv == spec_rows_view(sorted@),
            q.select@.len() == schema.tables@[q.table as int].columns@.len(),
            forall|i2: int|
                0 <= i2 < sorted@.len() ==> (#[trigger] sorted@[i2])@.len() == q.select@.len(),
            out@.len() == j - lo,
            forall|i2: int|
                0 <= i2 < out@.len() ==> (#[trigger] out@[i2]).spec_v() == spec_project_row(
                    q.select@,
                    sortedv[lo + i2],
                ),
            forall|i2: int|
                0 <= i2 < out@.len() ==> (#[trigger] out@[i2]).slots@.len() == q.select@.len(),
        decreases hi - j,
    {
        let p = project_row(&q.select, &sorted[j]);
        out.push(p);
        j = j + 1;
    }
    proof {
        assert(crate::database::spec_placeholders_v(out@) =~= spec_project_rows(
            q.select@,
            sortedv.subrange(lo as int, hi as int),
        ));
    }
    out
}

/// Whether a row carries one of the constraint's key tuples.
pub fn key_match(kc: &KeyConstraint, row: &Row) -> (r: bool)
    requires
        forall|c: int| 0 <= c < kc.columns@.len() ==> (#[trigger] kc.columns@[c]) < row@.len(),
        forall|k: int|
            0 <= k < kc.keys@.len() ==> (#[trigger] kc.keys@[k])@.len() == kc.columns@.len(),
    ensures
        r == spec_key_match(*kc, spec_row_v(*row)),
{
    let mut k: usize = 0;
    while k < kc.keys.len()
        invariant
            k <= kc.keys@.len(),
            forall|c: int|
                0 <= c < kc.columns@.len() ==> (#[trigger] kc.columns@[c]) < row@.len(),
            forall|k2: int|
                0 <= k2 < kc.keys@.len() ==> (#[trigger] kc.keys@[k2])@.len()
                    == kc.columns@.len(),
            forall|k2: int| 0 <= k2 < k ==> !spec_key_match_at(*kc, spec_row_v(*row), k2),
        decreases kc.keys@.len() - k,
    {
        let key = &kc.keys[k];
        let mut c: usize = 0;
        let mut all = true;
        while c < kc.columns.len()
            invariant
                c <= kc.columns@.len(),
                key == &kc.keys@[k as int],
                k < kc.keys@.len(),
                forall|c2: int|
                    0 <= c2 < kc.columns@.len() ==> (#[trigger] kc.columns@[c2]) < row@.len(),
                key@.len() == kc.columns@.len(),
                all == (forall|c2: int|
                    0 <= c2 < c ==> spec_row_v(*row)[(#[trigger] kc.columns@[c2]) as int] == Some(
                        (#[trigger] key@[c2])@,
                    )),
            decreases kc.columns@.len() - c,
        {
            let col = kc.columns[c];
            let hit = match &row[col] {
                Some(cell) => crate::scalar::scalar_eq(cell, &key[c]),
                None => false,
            };
            all = all && hit;
            c = c + 1;
        }
        if all {
            proof {
                assert(spec_key_match_at(*kc, spec_row_v(*row), k as int));
            }
            return true;
        }
        proof {
            assert(!spec_key_match_at(*kc, spec_row_v(*row), k as int));
        }
        k = k + 1;
    }
    false
}

} // verus!
