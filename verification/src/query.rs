use crate::database::Backend;
use crate::decode::{decode, spec_decode};
use crate::error::WundergraphError;
use crate::filter::{
    obj_field, FilterConverter, spec_filter_matches, spec_filter_outcome,
    spec_filter_unconstrained, spec_filter_wf, spec_obj_field, FilterWrapper,
};
use crate::input::InputValue;
use crate::order::Direction;
use crate::order::str_eq;
use crate::request::SelectionField;
use crate::scalar::{ScalarKind, ScalarV, WundergraphScalarValue};
use crate::table::{
    lemma_column_index_props, spec_column_index, AssociationDirection, Schema, TableInfo,
};
use vstd::prelude::*;

verus! {

/// A key constraint a query can be narrowed by: the row's cells at `columns`
/// must equal one of the listed key tuples. The association resolver uses one
/// column and many keys; a lookup by primary key uses all key columns and one
/// key; a batch-insert requery uses the disjunction of all generated keys.
#[derive(Debug)]
pub struct KeyConstraint {
    pub columns: Vec<usize>,
    pub keys: Vec<Vec<WundergraphScalarValue>>,
}

impl KeyConstraint {
    /// Well-formedness over one table: in-range columns and full-arity keys.
    pub open spec fn spec_wf(self, schema: Schema, t: int) -> bool {
        &&& forall|c: int|
            0 <= c < self.columns@.len() ==> (#[trigger] self.columns@[c])
                < schema.tables@[t].columns@.len()
        &&& forall|k: int|
            0 <= k < self.keys@.len() ==> (#[trigger] self.keys@[k])@.len()
                == self.columns@.len()
    }
}

/// Whether a row carries the `k`-th key tuple of a constraint.
pub open spec fn spec_key_match_at(kc: KeyConstraint, row: Seq<Option<ScalarV>>, k: int) -> bool {
    forall|c: int|
        0 <= c < kc.columns@.len() ==> row[(#[trigger] kc.columns@[c]) as int] == Some(
            (#[trigger] kc.keys@[k]@[c])@,
        )
}

/// Whether a row carries one of the constraint's key tuples.
pub open spec fn spec_key_match(kc: KeyConstraint, row: Seq<Option<ScalarV>>) -> bool {
    exists|k: int| 0 <= k < kc.keys@.len() && #[trigger] spec_key_match_at(kc, row, k)
}

/// One compiled, composable relational query: the table to read, which of its
/// columns to fetch, an optional predicate, an optional key constraint,
/// ordering terms in tie-break order, and row bounds. Mutation handlers and
/// the association resolver constrain such a value further before running it.
#[derive(Debug)]
pub struct Query {
    pub table: usize,
    pub select: Vec<bool>,
    pub filter: Option<FilterWrapper>,
    pub key_in: Option<KeyConstraint>,
    pub order: Vec<(usize, Direction)>,
    pub limit: Option<i64>,
    pub offset: Option<i64>,
}

impl Query {
    /// Well-formedness over the schema: full select arity, a well-formed
    /// filter, and in-range order columns.
    pub open spec fn spec_wf(self, schema: Schema) -> bool {
        &&& self.table < schema.tables@.len()
        &&& self.select@.len() == schema.tables@[self.table as int].columns@.len()
        &&& match self.filter {
            Some(f) => spec_filter_wf(schema, self.table as int, f),
            None => true,
        }
        &&& match self.key_in {
            Some(kc) => kc.spec_wf(schema, self.table as int),
            None => true,
        }
        &&& forall|k: int|
            0 <= k < self.order@.len() ==> (#[trigger] self.order@[k]).0
                < schema.tables@[self.table as int].columns@.len()
        &&& match self.limit {
            Some(l) => l >= 0,
            None => true,
        }
        &&& match self.offset {
            Some(o) => o >= 0,
            None => true,
        }
    }
}

/// Whether the request selects some declared association field at this level.
pub open spec fn spec_any_association_requested(table: TableInfo, request: SelectionField) -> bool {
    exists|a: int|
        0 <= a < table.associations@.len() && request.spec_has_child(
            (#[trigger] table.associations@[a]).field_name@,
        )
}

/// Whether one column is fetched: explicitly requested, a primary-key column
/// needed for row identity because some association was requested, or the
/// join key of a requested to-one association.
pub open spec fn spec_selected(table: TableInfo, request: SelectionField, c: int) -> bool {
    ||| request.spec_has_child(table.columns@[c].name@)
    ||| (table.spec_is_primary_key_index(c) && spec_any_association_requested(table, request))
    ||| (exists|a: int|
        0 <= a < table.associations@.len() && (#[trigger] table.associations@[a]).direction
            is ToOne && table.associations@[a].foreign_key == c && request.spec_has_child(
            table.associations@[a].field_name@,
        ))
}

/// What decoding an integer bound argument yields: a non-negative 64-bit
/// integer, or nothing for everything else.
pub open spec fn spec_decode_bound(v: InputValue) -> Option<i64> {
    match spec_decode(ScalarKind::BigInt, v) {
        Some(ScalarV::BigInt(x)) => if x >= 0 {
            Some(x)
        } else {
            None
        },
        _ => None,
    }
}

/// What decoding one ordering term yields: an object naming a declared
/// `column`, with an optional `direction` of `"ASC"` or `"DESC"`.
pub open spec fn spec_order_entry(table: TableInfo, v: InputValue) -> Result<
    (int, Direction),
    WundergraphError,
> {
    match v {
        InputValue::Object(fields) => match spec_obj_field(fields@, "column"@) {
            Some(InputValue::Scalar(WundergraphScalarValue::String(colname))) => {
                match spec_column_index(table.columns@, colname@) {
                    Some(c) => match spec_obj_field(fields@, "direction"@) {
                        None => Ok((c, Direction::Asc)),
                        Some(InputValue::Scalar(WundergraphScalarValue::String(d))) => {
                            if d@ == "ASC"@ {
                                Ok((c, Direction::Asc))
                            } else if d@ == "DESC"@ {
                                Ok((c, Direction::Desc))
                            } else {
                                Err(WundergraphError::MalformedArgument)
                            }
                        },
                        Some(_) => Err(WundergraphError::MalformedArgument),
                    },
                    None => Err(WundergraphError::UnknownField),
                }
            },
            _ => Err(WundergraphError::MalformedArgument),
        },
        _ => Err(WundergraphError::MalformedArgument),
    }
}

/// What decoding the whole order argument yields: each listed term in
/// argument order, the first ill-formed term deciding; a literal that is not
/// a list is malformed.
pub open spec fn spec_decode_order(table: TableInfo, entries: Seq<InputValue>) -> Result<
    Seq<(int, Direction)>,
    WundergraphError,
>
    decreases entries.len(),
{
    if entries.len() == 0 {
        Ok(Seq::empty())
    } else {
        match spec_order_entry(table, entries[0]) {
            Err(e) => Err(e),
            Ok(term) => match spec_decode_order(table, entries.drop_first()) {
                Err(e) => Err(e),
                Ok(rest) => Ok(seq![term] + rest),
            },
        }
    }
}

/// The outcome of decoding one ordering argument literal.
pub open spec fn spec_order_outcome(table: TableInfo, v: InputValue) -> Result<
    Seq<(int, Direction)>,
    WundergraphError,
> {
    match v {
        InputValue::List(l) => spec_decode_order(table, l@),
        _ => Err(WundergraphError::MalformedArgument),
    }
}

/// What assembling a query for one request level reports: the filter argument
/// decodes first, then the limit, then the offset, then the order — the first
/// failure decides.
pub open spec fn spec_query_outcome(schema: Schema, t: int, request: SelectionField) -> Result<
    (),
    WundergraphError,
> {
    let fstep: Result<(), WundergraphError> = match request.spec_argument("filter"@) {
        Some(fv) => spec_filter_outcome(schema, t, fv),
        None => Ok(()),
    };
    if fstep is Err {
        fstep
    } else {
        let lstep: Result<(), WundergraphError> = match request.spec_argument("limit"@) {
            Some(lv) => if spec_decode_bound(lv) is Some {
                Ok(())
            } else {
                Err(WundergraphError::MalformedArgument)
            },
            None => Ok(()),
        };
        if lstep is Err {
            lstep
        } else {
            let ostep: Result<(), WundergraphError> = match request.spec_argument("offset"@) {
                Some(ov) => if spec_decode_bound(ov) is Some {
                    Ok(())
                } else {
                    Err(WundergraphError::MalformedArgument)
                },
                None => Ok(()),
            };
            if ostep is Err {
                ostep
            } else {
                match request.spec_argument("order"@) {
                    Some(ov) => match spec_order_outcome(schema.tables@[t], ov) {
                        Err(e) => Err(e),
                        Ok(_) => Ok(()),
                    },
                    None => Ok(()),
                }
            }
        }
    }
}

/// Whether a built query holds exactly what the request's arguments decode
/// to, apart from the key constraint and the row limit, which callers such as
/// the key lookup and the mutation requeries pin separately.
pub open spec fn spec_query_matches_base(
    schema: Schema,
    backend: Backend,
    t: int,
    request: SelectionField,
    q: Query,
) -> bool {
    let decoded_offset: Option<i64> = match request.spec_argument("offset"@) {
        Some(ov) => spec_decode_bound(ov),
        None => None,
    };
    &&& q.table == t
    &&& q.select@.len() == schema.tables@[t].columns@.len()
    &&& (forall|c: int|
        0 <= c < q.select@.len() ==> #[trigger] q.select@[c] == spec_selected(
            schema.tables@[t],
            request,
            c,
        ))
    &&& match request.spec_argument("filter"@) {
        Some(fv) => match q.filter {
            Some(f) => spec_filter_matches(schema, t, fv, f) && !spec_filter_unconstrained(f),
            None => exists|f1: FilterWrapper|
                #[trigger] spec_filter_matches(schema, t, fv, f1) && spec_filter_unconstrained(
                    f1,
                ),
        },
        None => q.filter is None,
    }
    &&& q.offset == decoded_offset
    &&& match request.spec_argument("order"@) {
        Some(ov) => {
            &&& spec_order_outcome(schema.tables@[t], ov) is Ok
            &&& q.order@.len() == spec_order_outcome(schema.tables@[t], ov).unwrap().len()
            &&& (forall|k: int|
                0 <= k < q.order@.len() ==> ((#[trigger] q.order@[k]).0 as int, q.order@[k].1)
                    == spec_order_outcome(schema.tables@[t], ov).unwrap()[k])
        },
        None => q.order@.len() == 0,
    }
}

/// Whether a built query holds exactly what the request's arguments decode
/// to, under an `Ok` outcome.
pub open spec fn spec_query_matches(
    schema: Schema,
    backend: Backend,
    t: int,
    request: SelectionField,
    q: Query,
) -> bool {
    let decoded_limit: Option<i64> = match request.spec_argument("limit"@) {
        Some(lv) => spec_decode_bound(lv),
        None => None,
    };
    let decoded_offset: Option<i64> = match request.spec_argument("offset"@) {
        Some(ov) => spec_decode_bound(ov),
        None => None,
    };
    &&& spec_query_matches_base(schema, backend, t, request, q)
    &&& q.key_in is None
    &&& q.limit == (if decoded_limit is None && decoded_offset is Some
        && backend.offset_requires_limit {
        Some(i64::MAX)
    } else {
        decoded_limit
    })
}

/// Whether a built query holds what the request's arguments decode to, with
/// one column's selection forced on: the association resolver always fetches
/// the join column it groups by, whether or not it was requested.
pub open spec fn spec_query_matches_forced(
    schema: Schema,
    backend: Backend,
    t: int,
    request: SelectionField,
    q: Query,
    forced: int,
) -> bool {
    let decoded_offset: Option<i64> = match request.spec_argument("offset"@) {
        Some(ov) => spec_decode_bound(ov),
        None => None,
    };
    let decoded_limit: Option<i64> = match request.spec_argument("limit"@) {
        Some(lv) => spec_decode_bound(lv),
        None => None,
    };
    &&& q.table == t
    &&& q.select@.len() == schema.tables@[t].columns@.len()
    &&& 0 <= forced < q.select@.len()
    &&& q.select@[forced]
    &&& (forall|c: int|
        0 <= c < q.select@.len() && c != forced ==> #[trigger] q.select@[c] == spec_selected(
            schema.tables@[t],
            request,
            c,
        ))
    &&& match request.spec_argument("filter"@) {
        Some(fv) => match q.filter {
            Some(f) => spec_filter_matches(schema, t, fv, f) && !spec_filter_unconstrained(f),
            None => exists|f1: FilterWrapper|
                #[trigger] spec_filter_matches(schema, t, fv, f1) && spec_filter_unconstrained(
                    f1,
                ),
        },
        None => q.filter is None,
    }
    &&& q.offset == decoded_offset
    &&& q.limit == (if decoded_limit is None && decoded_offset is Some
        && backend.offset_requires_limit {
        Some(i64::MAX)
    } else {
        decoded_limit
    })
    &&& match request.spec_argument("order"@) {
        Some(ov) => {
            &&& spec_order_outcome(schema.tables@[t], ov) is Ok
            &&& q.order@.len() == spec_order_outcome(schema.tables@[t], ov).unwrap().len()
            &&& (forall|k: int|
                0 <= k < q.order@.len() ==> ((#[trigger] q.order@[k]).0 as int, q.order@[k].1)
                    == spec_order_outcome(schema.tables@[t], ov).unwrap()[k])
        },
        None => q.order@.len() == 0,
    }
}

/// Decodes a non-negative integer bound argument./// Decodes a non-negative integer bound argument.
fn decode_bound(v: &InputValue) -> (r: Option<i64>)
    ensures
        r == spec_decode_bound(*v),
{
    match decode(ScalarKind::BigInt, v) {
        Some(WundergraphScalarValue::BigInt(x)) => {
            if x >= 0 {
                Some(x)
            } else {
                None
            }
        },
        _ => None,
    }
}

/// Decodes one ordering term.
fn decode_order_entry(table: &TableInfo, v: &InputValue) -> (r: Result<
    (usize, Direction),
    WundergraphError,
>)
    ensures
        match r {
            Ok(term) => spec_order_entry(*table, *v) == Ok::<(int, Direction), WundergraphError>(
                (term.0 as int, term.1),
            ) && term.0 < table.columns@.len(),
            Err(e) => spec_order_entry(*table, *v) == Err::<(int, Direction), WundergraphError>(e),
        },
{
    match obj_field(v, "column") {
        Some(cv) => match cv {
            InputValue::Scalar(WundergraphScalarValue::String(colname)) => {
                proof {
                    lemma_column_index_props(table.columns@, colname@);
                    assert(table.columns@.len() == table.columns.len());
                }
                match table.column_index(colname.as_str()) {
                    Some(c) => match obj_field(v, "direction") {
                        None => Ok((c, Direction::Asc)),
                        Some(dv) => match dv {
                            InputValue::Scalar(WundergraphScalarValue::String(d)) => {
                                if str_eq(d.as_str(), "ASC") {
                                    Ok((c, Direction::Asc))
                                } else if str_eq(d.as_str(), "DESC") {
                                    Ok((c, Direction::Desc))
                                } else {
                                    Err(WundergraphError::MalformedArgument)
                                }
                            },
                            _ => Err(WundergraphError::MalformedArgument),
                        },
                    },
                    None => Err(WundergraphError::UnknownField),
                }
            },
            _ => Err(WundergraphError::MalformedArgument),
        },
        None => Err(WundergraphError::MalformedArgument),
    }
}

/// Decodes the order argument: a list of ordering terms, in argument order.
fn decode_order(table: &TableInfo, v: &InputValue) -> (r: Result<
    Vec<(usize, Direction)>,
    WundergraphError,
>)
    ensures
        match r {
            Ok(terms) => {
                &&& spec_order_outcome(*table, *v) is Ok
                &&& terms@.len() == spec_order_outcome(*table, *v).unwrap().len()
                &&& (forall|k: int|
                    0 <= k < terms@.len() ==> ((#[trigger] terms@[k]).0 as int, terms@[k].1)
                        == spec_order_outcome(*table, *v).unwrap()[k])
                &&& (forall|k: int|
                    0 <= k < terms@.len() ==> (#[trigger] terms@[k]).0 < table.columns@.len())
            },
            Err(e) => spec_order_outcome(*table, *v) == Err::<
                Seq<(int, Direction)>,
                WundergraphError,
            >(e),
        },
{
    match v {
        InputValue::List(l) => {
            let mut terms: Vec<(usize, Direction)> = Vec::new();
            let mut i: usize = 0;
            proof {
                assert(l@.skip(0) =~= l@);
            }
            while i < l.len()
                invariant
                    i <= l@.len(),
                    i == terms@.len(),
                    *v is List,
                    v->List_0 == *l,
                    forall|k: int|
                        0 <= k < terms@.len() ==> (#[trigger] terms@[k]).0
                            < table.columns@.len(),
                    match spec_decode_order(*table, l@.skip(i as int)) {
                        Ok(rest) => spec_decode_order(*table, l@) == Ok::<
                            Seq<(int, Direction)>,
                            WundergraphError,
                        >(
                            Seq::new(terms@.len(), |k: int| ((terms@[k].0 as int, terms@[k].1)))
                                + rest,
                        ),
                        Err(e) => spec_decode_order(*table, l@) == Err::<
                            Seq<(int, Direction)>,
                            WundergraphError,
                        >(e),
                    },
                decreases l@.len() - i,
            {
                proof {
                    assert(l@.skip(i as int)[0] == l@[i as int]);
                    assert(l@.skip(i as int).drop_first() =~= l@.skip(i + 1));
                }
                match decode_order_entry(table, &l[i]) {
                    Ok(term) => {
                        let ghost old_terms = terms@;
                        terms.push(term);
                        proof {
                            if spec_decode_order(*table, l@.skip(i + 1)) is Ok {
                                let rest = spec_decode_order(*table, l@.skip(i + 1)).unwrap();
                                assert(Seq::new(
                                    old_terms.len(),
                                    |k: int| ((old_terms[k].0 as int, old_terms[k].1)),
                                ) + (seq![(term.0 as int, term.1)] + rest) =~= Seq::new(
                                    terms@.len(),
                                    |k: int| ((terms@[k].0 as int, terms@[k].1)),
                                ) + rest);
                            }
                        }
                    },
                    Err(e) => {
                        return Err(e);
                    },
                }
                i = i + 1;
            }
            proof {
                assert(l@.skip(l@.len() as int) =~= Seq::<InputValue>::empty());
                assert(Seq::new(terms@.len(), |k: int| ((terms@[k].0 as int, terms@[k].1)))
                    + Seq::<(int, Direction)>::empty() =~= Seq::new(
                    terms@.len(),
                    |k: int| ((terms@[k].0 as int, terms@[k].1)),
                ));
            }
            Ok(terms)
        },
        _ => Err(WundergraphError::MalformedArgument),
    }
}

/// Chooses the fetched columns for one request level: each explicitly
/// requested column, plus the primary key whenever some association field was
/// requested, every other slot staying unselected.
pub fn get_select(table: &TableInfo, request: &SelectionField) -> (r: Vec<bool>)
    ensures
        r@.len() == table.columns@.len(),
        forall|c: int|
            0 <= c < r@.len() ==> #[trigger] r@[c] == spec_selected(*table, *request, c),
{
    let mut any_assoc = false;
    let mut a: usize = 0;
    while a < table.associations.len()
        invariant
            a <= table.associations@.len(),
            any_assoc == (exists|a2: int|
                0 <= a2 < a && request.spec_has_child(
                    (#[trigger] table.associations@[a2]).field_name@,
                )),
        decreases table.associations@.len() - a,
    {
        if request.has_child(table.associations[a].field_name.as_str()) {
            any_assoc = true;
        }
        a = a + 1;
    }
    proof {
        assert(any_assoc == spec_any_association_requested(*table, *request));
    }
    let mut select: Vec<bool> = Vec::new();
    let mut c: usize = 0;
    while c < table.columns.len()
        invariant
            c == select@.len(),
            c <= table.columns@.len(),
            any_assoc == spec_any_association_requested(*table, *request),
            forall|c2: int|
                0 <= c2 < c ==> #[trigger] select@[c2] == spec_selected(*table, *request, c2),
        decreases table.columns@.len() - c,
    {
        let mut keep = request.has_child(table.columns[c].name.as_str());
        if !keep && any_assoc {
            let mut k: usize = 0;
            let mut is_pk = false;
            while k < table.primary_key.len()
                invariant
                    k <= table.primary_key@.len(),
                    is_pk == (exists|k2: int|
                        0 <= k2 < k && table.primary_key@[k2] == c),
                decreases table.primary_key@.len() - k,
            {
                if table.primary_key[k] == c {
                    is_pk = true;
                }
                k = k + 1;
            }
            proof {
                assert(is_pk == table.spec_is_primary_key_index(c as int));
            }
            keep = is_pk;
        }
        if !keep {
            let mut a2: usize = 0;
            let mut is_join = false;
            while a2 < table.associations.len()
                invariant
                    a2 <= table.associations@.len(),
                    is_join == (exists|a3: int|
                        0 <= a3 < a2 && (#[trigger] table.associations@[a3]).direction
                            is ToOne && table.associations@[a3].foreign_key == c
                            && request.spec_has_child(table.associations@[a3].field_name@)),
                decreases table.associations@.len() - a2,
            {
                let assoc = &table.associations[a2];
                if matches!(assoc.direction, AssociationDirection::ToOne) && assoc.foreign_key == c
                    && request.has_child(assoc.field_name.as_str()) {
                    is_join = true;
                }
                a2 = a2 + 1;
            }
            keep = is_join;
        }
        select.push(keep);
        c = c + 1;
    }
    select
}

/// Assembles one composable query from one request level: an unfiltered
/// select of the planned columns, then the filter, the limit, the offset and
/// the order, in that fixed sequence. A backend that demands a limit wherever
/// an offset appears receives a maximal limit.
pub fn build_query(
    schema: &Schema,
    backend: Backend,
    t: usize,
    request: &SelectionField,
) -> (r: Result<Query, WundergraphError>)
    requires
        schema.spec_wf(),
        t < schema.tables@.len(),
    ensures
        match r {
            Ok(q) => spec_query_outcome(*schema, t as int, *request) is Ok && spec_query_matches(
                *schema,
                backend,
                t as int,
                *request,
                q,
            ) && q.spec_wf(*schema),
            Err(e) => spec_query_outcome(*schema, t as int, *request) == Err::<
                (),
                WundergraphError,
            >(e),
        },
{
    let table = &schema.tables[t];
    let select = get_select(table, request);
    let filter: Option<FilterWrapper> = match request.argument("filter") {
        Some(fv) => match FilterConverter::create_filter(schema, t, fv) {
            Ok(f) => {
                let ghost gf = f;
                let reduced = f.into_filter();
                proof {
                    if reduced is None {
                        assert(spec_filter_matches(*schema, t as int, *fv, gf)
                            && spec_filter_unconstrained(gf));
                    }
                }
                reduced
            },
            Err(e) => {
                return Err(e);
            },
        },
        None => None,
    };
    let limit: Option<i64> = match request.argument("limit") {
        Some(lv) => match decode_bound(lv) {
            Some(x) => Some(x),
            None => {
                return Err(WundergraphError::MalformedArgument);
            },
        },
        None => None,
    };
    let mut q = Query {
        table: t,
        select,
        filter,
        key_in: None,
        order: Vec::new(),
        limit,
        offset: None,
    };
    match request.argument("offset") {
        Some(ov) => match decode_bound(ov) {
            Some(x) => {
                if q.limit.is_none() && backend.offset_requires_limit {
                    q.limit = Some(i64::MAX);
                }
                q.offset = Some(x);
            },
            None => {
                return Err(WundergraphError::MalformedArgument);
            },
        },
        None => {},
    }
    match request.argument("order") {
        Some(ov) => match decode_order(table, ov) {
            Ok(terms) => {
                q.order = terms;
            },
            Err(e) => {
                return Err(e);
            },
        },
        None => {},
    }
    Ok(q)
}

} // verus!
