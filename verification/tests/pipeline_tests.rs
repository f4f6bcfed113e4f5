use wundergraph::database::{Backend, Connection};
use wundergraph::error::WundergraphError;
use wundergraph::has_many::HasMany;
use wundergraph::input::InputValue;
use wundergraph::loader::{load, load_by_primary_key};
use wundergraph::mutations::{handle_batch_insert, handle_delete, handle_insert, DeletedCount};
use wundergraph::output::OutputValue;
use wundergraph::request::SelectionField;
use wundergraph::scalar::{ScalarKind, WundergraphScalarValue};
use wundergraph::table::{
    Association, AssociationDirection, Capabilities, ColumnInfo, Schema, TableInfo,
};

fn col(name: &str, kind: ScalarKind, nullable: bool) -> ColumnInfo {
    ColumnInfo { name: name.to_string(), kind, nullable }
}

/// Person(id Int PK, name String) with a to-many `pets` into
/// Pet(id Int PK, owner_id Int, name String).
fn schema() -> Schema {
    Schema {
        tables: vec![
            TableInfo {
                name: "Person".to_string(),
                columns: vec![col("id", ScalarKind::Int, false), col("name", ScalarKind::String, false)],
                primary_key: vec![0],
                associations: vec![Association {
                    field_name: "pets".to_string(),
                    direction: AssociationDirection::ToMany,
                    target_table: 1,
                    foreign_key: 1,
                }],
            },
            TableInfo {
                name: "Pet".to_string(),
                columns: vec![
                    col("id", ScalarKind::Int, false),
                    col("owner_id", ScalarKind::Int, true),
                    col("name", ScalarKind::String, false),
                ],
                primary_key: vec![0],
                associations: vec![Association {
                    field_name: "owner".to_string(),
                    direction: AssociationDirection::ToOne,
                    target_table: 0,
                    foreign_key: 1,
                }],
            },
        ],
        capabilities: Capabilities { timestamps: false, dates: false, uuids: false },
    }
}

fn conn_for(schema: &Schema) -> Connection {
    Connection::new_for(schema, Backend { offset_requires_limit: false })
}

fn field(name: &str) -> SelectionField {
    SelectionField { name: name.to_string(), arguments: vec![], children: vec![] }
}

fn request(children: Vec<SelectionField>, arguments: Vec<(String, InputValue)>) -> SelectionField {
    SelectionField { name: "people".to_string(), arguments, children }
}

fn int_lit(v: i32) -> InputValue {
    InputValue::Scalar(WundergraphScalarValue::Int(v))
}

fn text(v: &str) -> InputValue {
    InputValue::Scalar(WundergraphScalarValue::String(v.to_string()))
}

fn person_row(id: i32, name: &str) -> Vec<Option<WundergraphScalarValue>> {
    vec![
        Some(WundergraphScalarValue::Int(id)),
        Some(WundergraphScalarValue::String(name.to_string())),
    ]
}

fn pet_row(id: i32, owner: i32, name: &str) -> Vec<Option<WundergraphScalarValue>> {
    vec![
        Some(WundergraphScalarValue::Int(id)),
        Some(WundergraphScalarValue::Int(owner)),
        Some(WundergraphScalarValue::String(name.to_string())),
    ]
}

fn obj(fields: Vec<(&str, OutputValue)>) -> OutputValue {
    OutputValue::Object(
        fields.into_iter().map(|(n, v)| (n.to_string(), v)).collect(),
    )
}

fn scalar_int(v: i32) -> OutputValue {
    OutputValue::Scalar(WundergraphScalarValue::Int(v))
}

fn scalar_text(v: &str) -> OutputValue {
    OutputValue::Scalar(WundergraphScalarValue::String(v.to_string()))
}

#[test]
fn person_scenario_load_delete_reload() {
    let s = schema();
    let mut conn = conn_for(&s);
    conn.database.tables[0].push(person_row(1, "Ada"));
    let req = request(vec![field("id"), field("name")], vec![]);
    let rows = load(&mut conn, &s, 0, &req).expect("load succeeds");
    assert_eq!(
        rows,
        vec![obj(vec![("id", scalar_int(1)), ("name", scalar_text("Ada"))])]
    );
    // Delete(id=1) gives {count: 1}; a later load finds nothing
    let del_req = SelectionField {
        name: "DeletePerson".to_string(),
        arguments: vec![("DeletePerson".to_string(), int_lit(1))],
        children: vec![],
    };
    let count = handle_delete(&mut conn, &s, 0, "DeletePerson", &del_req).expect("delete succeeds");
    assert_eq!(count, DeletedCount { count: 1 });
    let rows = load(&mut conn, &s, 0, &req).expect("load succeeds");
    assert_eq!(rows, vec![]);
}

#[test]
fn unconstrained_load_returns_every_row_in_natural_order() {
    let s = schema();
    let mut conn = conn_for(&s);
    conn.database.tables[0].push(person_row(2, "Grace"));
    conn.database.tables[0].push(person_row(1, "Ada"));
    conn.database.tables[0].push(person_row(3, "Alan"));
    let req = request(vec![field("name")], vec![]);
    let rows = load(&mut conn, &s, 0, &req).expect("load succeeds");
    // exactly the requested scalar fields, in the store's natural order
    assert_eq!(
        rows,
        vec![
            obj(vec![("name", scalar_text("Grace"))]),
            obj(vec![("name", scalar_text("Ada"))]),
            obj(vec![("name", scalar_text("Alan"))]),
        ]
    );
}

#[test]
fn all_absent_filter_equals_omitted_filter() {
    let s = schema();
    let mut conn = conn_for(&s);
    conn.database.tables[0].push(person_row(1, "Ada"));
    conn.database.tables[0].push(person_row(2, "Grace"));
    let plain = request(vec![field("id")], vec![]);
    let neutral = request(
        vec![field("id")],
        vec![("filter".to_string(), InputValue::Object(vec![]))],
    );
    let a = load(&mut conn, &s, 0, &plain).expect("load");
    let b = load(&mut conn, &s, 0, &neutral).expect("load");
    assert_eq!(a, b);
}

#[test]
fn filter_operators_constrain_rows() {
    let s = schema();
    let mut conn = conn_for(&s);
    for (id, name) in [(1, "Ada"), (2, "Grace"), (3, "Alan")] {
        conn.database.tables[0].push(person_row(id, name));
    }
    let by = |ops: Vec<(&str, InputValue)>| {
        request(
            vec![field("id")],
            vec![(
                "filter".to_string(),
                InputValue::Object(vec![(
                    "id".to_string(),
                    InputValue::Object(
                        ops.into_iter().map(|(n, v)| (n.to_string(), v)).collect(),
                    ),
                )]),
            )],
        )
    };
    let eq = load(&mut conn, &s, 0, &by(vec![("eq", int_lit(2))])).expect("load");
    assert_eq!(eq, vec![obj(vec![("id", scalar_int(2))])]);
    let gt = load(&mut conn, &s, 0, &by(vec![("gt", int_lit(1))])).expect("load");
    assert_eq!(gt.len(), 2);
    let not_eq = load(&mut conn, &s, 0, &by(vec![("not_eq", int_lit(2))])).expect("load");
    assert_eq!(
        not_eq,
        vec![obj(vec![("id", scalar_int(1))]), obj(vec![("id", scalar_int(3))])]
    );
    let in_list = load(
        &mut conn,
        &s,
        0,
        &by(vec![("eq_any", InputValue::List(vec![int_lit(1), int_lit(3)]))]),
    )
    .expect("load");
    assert_eq!(in_list.len(), 2);
    let le = load(&mut conn, &s, 0, &by(vec![("lt_eq", int_lit(2))])).expect("load");
    assert_eq!(
        le,
        vec![obj(vec![("id", scalar_int(1))]), obj(vec![("id", scalar_int(2))])]
    );
    let ge = load(&mut conn, &s, 0, &by(vec![("gt_eq", int_lit(3))])).expect("load");
    assert_eq!(ge, vec![obj(vec![("id", scalar_int(3))])]);
    let lt = load(&mut conn, &s, 0, &by(vec![("lt", int_lit(2))])).expect("load");
    assert_eq!(lt, vec![obj(vec![("id", scalar_int(1))])]);
    let none_null = load(
        &mut conn,
        &s,
        0,
        &by(vec![("is_null", InputValue::Scalar(WundergraphScalarValue::Boolean(true)))]),
    )
    .expect("load");
    assert_eq!(none_null, vec![]);
}

#[test]
fn filter_errors_are_reported_per_kind() {
    let s = schema();
    let mut conn = conn_for(&s);
    let unknown_field = request(
        vec![field("id")],
        vec![(
            "filter".to_string(),
            InputValue::Object(vec![("age".to_string(), InputValue::Object(vec![]))]),
        )],
    );
    assert_eq!(
        load(&mut conn, &s, 0, &unknown_field),
        Err(WundergraphError::UnknownField)
    );
    let malformed_limit = request(vec![field("id")], vec![("limit".to_string(), text("ten"))]);
    assert_eq!(
        load(&mut conn, &s, 0, &malformed_limit),
        Err(WundergraphError::MalformedArgument)
    );
    let negative_limit = request(vec![field("id")], vec![("limit".to_string(), int_lit(-1))]);
    assert_eq!(
        load(&mut conn, &s, 0, &negative_limit),
        Err(WundergraphError::MalformedArgument)
    );
    let unknown_order = request(
        vec![field("id")],
        vec![(
            "order".to_string(),
            InputValue::List(vec![InputValue::Object(vec![(
                "column".to_string(),
                text("age"),
            )])]),
        )],
    );
    assert_eq!(
        load(&mut conn, &s, 0, &unknown_order),
        Err(WundergraphError::UnknownField)
    );
}

#[test]
fn order_tie_breaks_by_later_terms_only_among_equal_earlier_ones() {
    let s = schema();
    let mut conn = conn_for(&s);
    // (name, id): Ada/2, Ada/1, Alan/3 — order by name asc, id desc
    conn.database.tables[0].push(person_row(2, "Ada"));
    conn.database.tables[0].push(person_row(1, "Ada"));
    conn.database.tables[0].push(person_row(3, "Alan"));
    let req = request(
        vec![field("id")],
        vec![(
            "order".to_string(),
            InputValue::List(vec![
                InputValue::Object(vec![("column".to_string(), text("name"))]),
                InputValue::Object(vec![
                    ("column".to_string(), text("id")),
                    ("direction".to_string(), text("DESC")),
                ]),
            ]),
        )],
    );
    let rows = load(&mut conn, &s, 0, &req).expect("load");
    assert_eq!(
        rows,
        vec![
            obj(vec![("id", scalar_int(2))]),
            obj(vec![("id", scalar_int(1))]),
            obj(vec![("id", scalar_int(3))]),
        ]
    );
}

#[test]
fn limit_and_offset_cut_the_sorted_window() {
    let s = schema();
    let mut conn = conn_for(&s);
    for id in 1..=5 {
        conn.database.tables[0].push(person_row(id, "P"));
    }
    let req = request(
        vec![field("id")],
        vec![
            ("limit".to_string(), int_lit(2)),
            ("offset".to_string(), int_lit(1)),
        ],
    );
    let rows = load(&mut conn, &s, 0, &req).expect("load");
    assert_eq!(
        rows,
        vec![obj(vec![("id", scalar_int(2))]), obj(vec![("id", scalar_int(3))])]
    );
}

#[test]
fn associations_resolve_batched_with_one_child_query_per_level() {
    let s = schema();
    let mut conn = conn_for(&s);
    for (id, name) in [(1, "Ada"), (2, "Grace"), (3, "Ada2"), (4, "Grace2"), (5, "Solo")] {
        conn.database.tables[0].push(person_row(id, name));
    }
    conn.database.tables[1].push(pet_row(10, 1, "Rex"));
    conn.database.tables[1].push(pet_row(11, 2, "Mia"));
    conn.database.tables[1].push(pet_row(12, 1, "Tom"));
    let req = request(
        vec![field("id"), {
            SelectionField {
                name: "pets".to_string(),
                arguments: vec![],
                children: vec![field("name")],
            }
        }],
        vec![],
    );
    let rows = load(&mut conn, &s, 0, &req).expect("load");
    // exactly two queries: the parent table, then one batched child query,
    // independent of the number of parent rows
    assert_eq!(conn.query_log, vec![0usize, 1usize]);
    assert_eq!(rows.len(), 5);
    assert_eq!(
        rows[0],
        obj(vec![
            ("id", scalar_int(1)),
            (
                "pets",
                OutputValue::List(vec![
                    obj(vec![("name", scalar_text("Rex"))]),
                    obj(vec![("name", scalar_text("Tom"))]),
                ])
            ),
        ])
    );
    assert_eq!(
        rows[4],
        obj(vec![("id", scalar_int(5)), ("pets", OutputValue::List(vec![]))])
    );
}

#[test]
fn a_relation_over_zero_parents_issues_zero_child_queries() {
    let s = schema();
    let mut conn = conn_for(&s);
    conn.database.tables[1].push(pet_row(10, 1, "Rex"));
    let req = request(
        vec![SelectionField {
            name: "pets".to_string(),
            arguments: vec![],
            children: vec![field("name")],
        }],
        vec![],
    );
    let rows = load(&mut conn, &s, 0, &req).expect("load");
    assert_eq!(rows, vec![]);
    // only the parent query ran
    assert_eq!(conn.query_log, vec![0usize]);
}

#[test]
fn relation_filter_keeps_parents_with_a_matching_child() {
    let s = schema();
    let mut conn = conn_for(&s);
    conn.database.tables[0].push(person_row(1, "Ada"));
    conn.database.tables[0].push(person_row(2, "Grace"));
    conn.database.tables[1].push(pet_row(10, 1, "Rex"));
    let req = request(
        vec![field("id")],
        vec![(
            "filter".to_string(),
            InputValue::Object(vec![(
                "pets".to_string(),
                InputValue::Object(vec![(
                    "name".to_string(),
                    InputValue::Object(vec![("eq".to_string(), text("Rex"))]),
                )]),
            )]),
        )],
    );
    let rows = load(&mut conn, &s, 0, &req).expect("load");
    assert_eq!(rows, vec![obj(vec![("id", scalar_int(1))])]);
}

#[test]
fn load_by_primary_key_returns_one_or_none() {
    let s = schema();
    let mut conn = conn_for(&s);
    conn.database.tables[0].push(person_row(1, "Ada"));
    let mut req = request(vec![field("id"), field("name")], vec![]);
    req.arguments.push(("primaryKey".to_string(), int_lit(1)));
    let hit = load_by_primary_key(&mut conn, &s, 0, &req).expect("lookup");
    assert_eq!(
        hit,
        Some(obj(vec![("id", scalar_int(1)), ("name", scalar_text("Ada"))]))
    );
    let mut missing = request(vec![field("id")], vec![]);
    missing.arguments.push(("primaryKey".to_string(), int_lit(9)));
    assert_eq!(load_by_primary_key(&mut conn, &s, 0, &missing), Ok(None));
    let no_arg = request(vec![field("id")], vec![]);
    assert_eq!(
        load_by_primary_key(&mut conn, &s, 0, &no_arg),
        Err(WundergraphError::NoPrimaryKeyArgumentFound)
    );
    let mut bad_arg = request(vec![field("id")], vec![]);
    bad_arg.arguments.push(("primaryKey".to_string(), text("one")));
    assert_eq!(
        load_by_primary_key(&mut conn, &s, 0, &bad_arg),
        Err(WundergraphError::NoPrimaryKeyArgumentFound)
    );
}

#[test]
fn insert_generates_the_key_and_requeries_the_row() {
    let s = schema();
    let mut conn = conn_for(&s);
    conn.database.tables[0].push(person_row(1, "Ada"));
    let mut req = request(vec![field("id"), field("name")], vec![]);
    req.arguments.push((
        "NewPerson".to_string(),
        InputValue::Object(vec![("name".to_string(), text("Grace"))]),
    ));
    let created = handle_insert(&mut conn, &s, 0, "NewPerson", &req).expect("insert");
    assert_eq!(
        created,
        Some(obj(vec![("id", scalar_int(2)), ("name", scalar_text("Grace"))]))
    );
    assert_eq!(conn.database.tables[0].len(), 2);
}

#[test]
fn insert_requery_hidden_by_filter_is_success_without_value() {
    let s = schema();
    let mut conn = conn_for(&s);
    let mut req = request(vec![field("id")], vec![]);
    req.arguments.push((
        "filter".to_string(),
        InputValue::Object(vec![(
            "id".to_string(),
            InputValue::Object(vec![("eq".to_string(), int_lit(999))]),
        )]),
    ));
    req.arguments.push((
        "NewPerson".to_string(),
        InputValue::Object(vec![("name".to_string(), text("Ada"))]),
    ));
    let created = handle_insert(&mut conn, &s, 0, "NewPerson", &req).expect("insert");
    assert_eq!(created, None);
    // the insert itself still happened
    assert_eq!(conn.database.tables[0].len(), 1);
}

#[test]
fn duplicate_key_insert_is_refused() {
    let s = schema();
    let mut conn = conn_for(&s);
    conn.database.tables[0].push(person_row(1, "Ada"));
    let mut req = request(vec![field("id")], vec![]);
    req.arguments.push((
        "NewPerson".to_string(),
        InputValue::Object(vec![
            ("id".to_string(), int_lit(1)),
            ("name".to_string(), text("Imposter")),
        ]),
    ));
    assert_eq!(
        handle_insert(&mut conn, &s, 0, "NewPerson", &req),
        Err(WundergraphError::BackendExecutionError)
    );
    assert_eq!(conn.database.tables[0].len(), 1);
}

#[test]
fn batch_insert_is_atomic_when_one_row_violates_the_constraint() {
    let s = schema();
    let mut conn = conn_for(&s);
    conn.database.tables[0].push(person_row(1, "Ada"));
    let mut req = request(vec![field("id"), field("name")], vec![]);
    let mk = |id: i32, name: &str| {
        InputValue::Object(vec![
            ("id".to_string(), int_lit(id)),
            ("name".to_string(), text(name)),
        ])
    };
    // the third row collides with the first of the same batch
    req.arguments.push((
        "NewPeople".to_string(),
        InputValue::List(vec![mk(2, "Grace"), mk(3, "Alan"), mk(2, "Copy")]),
    ));
    assert_eq!(
        handle_batch_insert(&mut conn, &s, 0, "NewPeople", &req),
        Err(WundergraphError::BackendExecutionError)
    );
    // zero of the batch's rows became visible
    assert_eq!(conn.database.tables[0].len(), 1);
    let plain = request(vec![field("id")], vec![]);
    let rows = load(&mut conn, &s, 0, &plain).expect("load");
    assert_eq!(rows, vec![obj(vec![("id", scalar_int(1))])]);
}

#[test]
fn batch_insert_returns_the_requeried_batch() {
    let s = schema();
    let mut conn = conn_for(&s);
    let mut req = request(vec![field("name")], vec![]);
    let mk = |name: &str| InputValue::Object(vec![("name".to_string(), text(name))]);
    req.arguments.push((
        "NewPeople".to_string(),
        InputValue::List(vec![mk("Ada"), mk("Grace")]),
    ));
    let rows = handle_batch_insert(&mut conn, &s, 0, "NewPeople", &req).expect("batch insert");
    assert_eq!(
        rows,
        vec![
            obj(vec![("name", scalar_text("Ada"))]),
            obj(vec![("name", scalar_text("Grace"))]),
        ]
    );
}

#[test]
fn mutation_argument_must_be_present() {
    let s = schema();
    let mut conn = conn_for(&s);
    let req = request(vec![field("id")], vec![]);
    assert_eq!(
        handle_insert(&mut conn, &s, 0, "NewPerson", &req),
        Err(WundergraphError::MissingArgument)
    );
    assert_eq!(
        handle_batch_insert(&mut conn, &s, 0, "NewPeople", &req),
        Err(WundergraphError::MissingArgument)
    );
    assert_eq!(
        handle_delete(&mut conn, &s, 0, "DeletePerson", &req),
        Err(WundergraphError::MissingArgument)
    );
}

#[test]
fn never_resolved_association_state_is_explicit() {
    let empty: HasMany<i32> = HasMany::default();
    assert!(!empty.is_loaded());
    let loaded: HasMany<i32> = HasMany::Items(vec![1, 2]);
    assert!(loaded.is_loaded());
    assert_eq!(loaded.expect_items("items were resolved"), &[1, 2]);
}

#[test]
fn to_one_association_attaches_the_match_or_null() {
    let s = schema();
    let mut conn = conn_for(&s);
    conn.database.tables[0].push(person_row(1, "Ada"));
    conn.database.tables[1].push(pet_row(10, 1, "Rex"));
    conn.database.tables[1].push(vec![
        Some(WundergraphScalarValue::Int(11)),
        None,
        Some(WundergraphScalarValue::String("Stray".to_string())),
    ]);
    let req = SelectionField {
        name: "pets".to_string(),
        arguments: vec![],
        children: vec![field("name"), SelectionField {
            name: "owner".to_string(),
            arguments: vec![],
            children: vec![field("name")],
        }],
    };
    let rows = load(&mut conn, &s, 1, &req).expect("load");
    assert_eq!(
        rows,
        vec![
            obj(vec![
                ("name", scalar_text("Rex")),
                ("owner", obj(vec![("name", scalar_text("Ada"))])),
            ]),
            obj(vec![("name", scalar_text("Stray")), ("owner", OutputValue::Null)]),
        ]
    );
    // one parent query plus exactly one batched query against the owner table
    assert_eq!(conn.query_log, vec![1usize, 0usize]);
}

#[test]
fn nullable_to_one_filter_matches_or_null() {
    let s = schema();
    let mut conn = conn_for(&s);
    conn.database.tables[0].push(person_row(1, "Ada"));
    conn.database.tables[1].push(pet_row(10, 1, "Rex"));
    conn.database.tables[1].push(vec![
        Some(WundergraphScalarValue::Int(11)),
        None,
        Some(WundergraphScalarValue::String("Stray".to_string())),
    ]);
    // a nested filter over a nullable to-one relation keeps rows whose key is
    // null as well as rows with a matching target
    let req = SelectionField {
        name: "pets".to_string(),
        arguments: vec![(
            "filter".to_string(),
            InputValue::Object(vec![(
                "owner".to_string(),
                InputValue::Object(vec![(
                    "name".to_string(),
                    InputValue::Object(vec![("eq".to_string(), text("Ada"))]),
                )]),
            )]),
        )],
        children: vec![field("id")],
    };
    let rows = load(&mut conn, &s, 1, &req).expect("load");
    assert_eq!(
        rows,
        vec![obj(vec![("id", scalar_int(10))]), obj(vec![("id", scalar_int(11))])]
    );
}

#[test]
fn offset_without_limit_gets_one_on_demanding_backends() {
    let s = schema();
    let mut conn = Connection::new_for(&s, Backend { offset_requires_limit: true });
    for id in 1..=3 {
        conn.database.tables[0].push(person_row(id, "P"));
    }
    let req = request(vec![field("id")], vec![("offset".to_string(), int_lit(1))]);
    let rows = load(&mut conn, &s, 0, &req).expect("load");
    // the maximal limit the hook adds keeps every remaining row visible
    assert_eq!(
        rows,
        vec![obj(vec![("id", scalar_int(2))]), obj(vec![("id", scalar_int(3))])]
    );
}
