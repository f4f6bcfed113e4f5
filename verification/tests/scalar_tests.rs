use chrono::Datelike;
use wundergraph::convert::{i32_to_decimal, u32_to_decimal, widen_float_bits};
use wundergraph::decode::{decode, decode_list};
use wundergraph::input::InputValue;
use wundergraph::scalar::{ScalarKind, WundergraphScalarValue, WundergraphScalarVisitor};

fn sv(v: WundergraphScalarValue) -> InputValue {
    InputValue::Scalar(v)
}

#[test]
fn visitor_narrows_to_smallest_kind() {
    let vis = WundergraphScalarVisitor;
    assert_eq!(vis.visit_i64(5), WundergraphScalarValue::SmallInt(5));
    assert_eq!(vis.visit_i64(-32768), WundergraphScalarValue::SmallInt(-32768));
    assert_eq!(vis.visit_i64(40_000), WundergraphScalarValue::Int(40_000));
    assert_eq!(vis.visit_i32(-40_000), WundergraphScalarValue::Int(-40_000));
    assert_eq!(
        vis.visit_i64(3_000_000_000),
        WundergraphScalarValue::BigInt(3_000_000_000)
    );
    assert_eq!(vis.visit_u32(7), WundergraphScalarValue::SmallInt(7));
    assert_eq!(
        vis.visit_u64(9_000_000_000_000_000_000),
        Some(WundergraphScalarValue::BigInt(9_000_000_000_000_000_000))
    );
    assert_eq!(vis.visit_u64(u64::MAX), None);
    assert_eq!(vis.visit_bool(true), WundergraphScalarValue::Boolean(true));
    assert_eq!(
        vis.visit_str("hi"),
        WundergraphScalarValue::String("hi".to_string())
    );
}

#[test]
fn float_widening_matches_hardware() {
    let samples: &[f32] = &[
        0.0,
        -0.0,
        1.5,
        -1.5,
        f32::MAX,
        f32::MIN_POSITIVE,
        1e-40,
        f32::from_bits(1),
        f32::INFINITY,
        f32::NEG_INFINITY,
        3.14159,
    ];
    for &f in samples {
        assert_eq!(
            widen_float_bits(f.to_bits()),
            (f as f64).to_bits(),
            "widening failed for {f}"
        );
    }
}

#[test]
fn decode_widens_integers_only_upward() {
    assert_eq!(
        decode(ScalarKind::Int, &sv(WundergraphScalarValue::SmallInt(3))),
        Some(WundergraphScalarValue::Int(3))
    );
    assert_eq!(
        decode(ScalarKind::BigInt, &sv(WundergraphScalarValue::Int(70_000))),
        Some(WundergraphScalarValue::BigInt(70_000))
    );
    // narrowing is never implicit
    assert_eq!(
        decode(ScalarKind::SmallInt, &sv(WundergraphScalarValue::Int(3))),
        None
    );
    assert_eq!(
        decode(ScalarKind::Int, &sv(WundergraphScalarValue::BigInt(3))),
        None
    );
    // all other kinds need an exact match
    assert_eq!(
        decode(
            ScalarKind::Boolean,
            &sv(WundergraphScalarValue::String("true".to_string()))
        ),
        None
    );
}

#[test]
fn decode_widens_float_to_double() {
    let f = 2.5f32;
    assert_eq!(
        decode(ScalarKind::Double, &sv(WundergraphScalarValue::Float(f.to_bits()))),
        Some(WundergraphScalarValue::Double((f as f64).to_bits()))
    );
    assert_eq!(
        decode(ScalarKind::Float, &sv(WundergraphScalarValue::Double(1u64))),
        None
    );
}

#[test]
fn decode_identifier_from_number_or_text() {
    assert_eq!(
        decode(ScalarKind::Id, &sv(WundergraphScalarValue::Int(42))),
        Some(WundergraphScalarValue::Id("42".to_string()))
    );
    assert_eq!(
        decode(ScalarKind::Id, &sv(WundergraphScalarValue::Int(-7))),
        Some(WundergraphScalarValue::Id("-7".to_string()))
    );
    assert_eq!(
        decode(
            ScalarKind::Id,
            &sv(WundergraphScalarValue::String("user-9".to_string()))
        ),
        Some(WundergraphScalarValue::Id("user-9".to_string()))
    );
    assert_eq!(
        decode(ScalarKind::Id, &sv(WundergraphScalarValue::Boolean(true))),
        None
    );
}

#[test]
fn decimal_notation_is_exact() {
    assert_eq!(u32_to_decimal(0).as_str(), "0");
    assert_eq!(u32_to_decimal(90210).as_str(), "90210");
    assert_eq!(i32_to_decimal(i32::MIN).as_str(), "-2147483648");
    assert_eq!(i32_to_decimal(i32::MAX).as_str(), "2147483647");
}

#[test]
fn decode_list_fails_as_a_whole() {
    let good = InputValue::List(vec![
        sv(WundergraphScalarValue::SmallInt(1)),
        sv(WundergraphScalarValue::Int(2)),
    ]);
    let decoded = decode_list(ScalarKind::Int, &good).expect("list decodes");
    assert_eq!(
        decoded,
        vec![WundergraphScalarValue::Int(1), WundergraphScalarValue::Int(2)]
    );
    let bad = InputValue::List(vec![
        sv(WundergraphScalarValue::Int(1)),
        sv(WundergraphScalarValue::Boolean(false)),
    ]);
    assert_eq!(decode_list(ScalarKind::Int, &bad), None);
}

#[test]
fn timestamp_and_date_decode_through_the_calendar() {
    let ts = decode(
        ScalarKind::Timestamp,
        &sv(WundergraphScalarValue::String(
            "2000-01-01T00:00:01+00:00".to_string(),
        )),
    );
    assert_eq!(ts, Some(WundergraphScalarValue::Timestamp(946_684_801, 0)));
    let offset = decode(
        ScalarKind::Timestamp,
        &sv(WundergraphScalarValue::String(
            "2000-01-01T01:00:00+01:00".to_string(),
        )),
    );
    // the parsed moment keeps its clock time; the raw text decides
    let expected = chrono::NaiveDateTime::parse_from_str("2000-01-01T01:00:00+01:00", "%+")
        .unwrap()
        .and_utc()
        .timestamp();
    assert_eq!(offset, Some(WundergraphScalarValue::Timestamp(expected, 0)));
    assert_eq!(
        decode(
            ScalarKind::Timestamp,
            &sv(WundergraphScalarValue::String("yesterday".to_string()))
        ),
        None
    );
    let day = decode(
        ScalarKind::Date,
        &sv(WundergraphScalarValue::String(
            "2000-01-01T00:00:00+00:00".to_string(),
        )),
    );
    let expected_day = chrono::NaiveDate::from_ymd_opt(2000, 1, 1)
        .unwrap()
        .num_days_from_ce();
    assert_eq!(day, Some(WundergraphScalarValue::Date(expected_day)));
}

#[test]
fn uuid_decodes_from_hyphenated_text() {
    let u = decode(
        ScalarKind::Uuid,
        &sv(WundergraphScalarValue::String(
            "67e55044-10b1-426f-9247-bb680e5fe0c8".to_string(),
        )),
    );
    assert_eq!(
        u,
        Some(WundergraphScalarValue::Uuid(
            0x67e5_5044_10b1_426f_9247_bb68_0e5f_e0c8
        ))
    );
    assert_eq!(
        decode(
            ScalarKind::Uuid,
            &sv(WundergraphScalarValue::String("not-a-uuid".to_string()))
        ),
        None
    );
}

#[test]
fn accessors_see_only_their_kind() {
    assert_eq!(WundergraphScalarValue::SmallInt(7).as_int(), Some(7));
    assert_eq!(WundergraphScalarValue::Int(9).as_int(), Some(9));
    assert_eq!(WundergraphScalarValue::BigInt(9).as_int(), None);
    assert_eq!(
        WundergraphScalarValue::String("x".to_string()).as_string(),
        Some("x".to_string())
    );
    assert_eq!(WundergraphScalarValue::Boolean(true).as_boolean(), Some(true));
    assert_eq!(WundergraphScalarValue::Int(1).as_boolean(), None);
}
