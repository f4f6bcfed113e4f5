use wundergraph::input::InputValue;
use wundergraph::primary_keys::{PrimaryKeyArgument, PrimaryKeyInfo};
use wundergraph::scalar::{ScalarKind, WundergraphScalarValue};
use wundergraph::table::{Capabilities, ColumnInfo, TableInfo};

fn caps() -> Capabilities {
    Capabilities { timestamps: true, dates: true, uuids: true }
}

fn col(name: &str, kind: ScalarKind) -> ColumnInfo {
    ColumnInfo { name: name.to_string(), kind, nullable: false }
}

fn person() -> TableInfo {
    TableInfo {
        name: "Person".to_string(),
        columns: vec![col("id", ScalarKind::Int), {
            let mut c = col("name", ScalarKind::String);
            c.nullable = false;
            c
        }],
        primary_key: vec![0],
        associations: vec![],
    }
}

fn membership() -> TableInfo {
    TableInfo {
        name: "Membership".to_string(),
        columns: vec![col("user_id", ScalarKind::Int), col("group_id", ScalarKind::Int)],
        primary_key: vec![0, 1],
        associations: vec![],
    }
}

#[test]
fn key_argument_name_appends_key() {
    let _ = caps();
    let info = PrimaryKeyInfo::new_for(&person());
    assert_eq!(info.name.as_str(), "PersonKey");
}

#[test]
fn single_key_round_trips_both_ways() {
    let t = person();
    let external = InputValue::Scalar(WundergraphScalarValue::Int(7));
    let decoded = PrimaryKeyArgument::from_look_ahead(&t, &external).expect("decodes");
    assert_eq!(decoded.values, vec![WundergraphScalarValue::Int(7)]);
    let encoded = decoded.to_input_value(&t);
    match encoded {
        InputValue::Scalar(WundergraphScalarValue::Int(7)) => {},
        other => panic!("unexpected encoding: {other:?}"),
    }
    let decoded_again = PrimaryKeyArgument::from_look_ahead(&t, &encoded).expect("decodes again");
    assert_eq!(decoded_again.values, vec![WundergraphScalarValue::Int(7)]);
}

#[test]
fn composite_key_round_trips_in_declared_order() {
    let t = membership();
    let external = InputValue::Object(vec![
        ("user_id".to_string(), InputValue::Scalar(WundergraphScalarValue::Int(1))),
        ("group_id".to_string(), InputValue::Scalar(WundergraphScalarValue::Int(2))),
    ]);
    let decoded = PrimaryKeyArgument::from_look_ahead(&t, &external).expect("decodes");
    assert_eq!(
        decoded.values,
        vec![WundergraphScalarValue::Int(1), WundergraphScalarValue::Int(2)]
    );
    let encoded = decoded.to_input_value(&t);
    let decoded_again = PrimaryKeyArgument::from_look_ahead(&t, &encoded).expect("decodes again");
    assert_eq!(
        decoded_again.values,
        vec![WundergraphScalarValue::Int(1), WundergraphScalarValue::Int(2)]
    );
}

#[test]
fn partial_composite_key_is_rejected_never_defaulted() {
    let t = membership();
    let missing_group = InputValue::Object(vec![
        ("user_id".to_string(), InputValue::Scalar(WundergraphScalarValue::Int(1))),
    ]);
    assert!(PrimaryKeyArgument::from_look_ahead(&t, &missing_group).is_none());
    let missing_user = InputValue::Object(vec![
        ("group_id".to_string(), InputValue::Scalar(WundergraphScalarValue::Int(2))),
    ]);
    assert!(PrimaryKeyArgument::from_look_ahead(&t, &missing_user).is_none());
    let not_an_object = InputValue::Scalar(WundergraphScalarValue::Int(1));
    assert!(PrimaryKeyArgument::from_look_ahead(&t, &not_an_object).is_none());
    let malformed = InputValue::Object(vec![
        ("user_id".to_string(), InputValue::Scalar(WundergraphScalarValue::Int(1))),
        ("group_id".to_string(), InputValue::Scalar(WundergraphScalarValue::Boolean(true))),
    ]);
    assert!(PrimaryKeyArgument::from_look_ahead(&t, &malformed).is_none());
}
