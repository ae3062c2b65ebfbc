//! Metric labels and the exact value arithmetic underneath the engine.

use grouped_aggregate::error::AggregateError;
use grouped_aggregate::query_metrics::{
    DatabaseType, EventType, MetricsError, QueryDestination, QueryExecutionTimerHandle,
    SqlQueryType,
};
use grouped_aggregate::value::DfValue;

#[test]
fn destination_labels_round_trip() {
    for d in [
        QueryDestination::Readyset,
        QueryDestination::ReadysetThenUpstream,
        QueryDestination::Upstream,
        QueryDestination::Both,
    ] {
        assert_eq!(QueryDestination::try_from_str(d.label()), Ok(d));
    }
    assert_eq!(
        QueryDestination::try_from_str("somewhere else"),
        Err(MetricsError::InvalidQueryDestination)
    );
    assert_eq!(QueryDestination::default(), QueryDestination::Readyset);
}

#[test]
fn event_and_query_labels() {
    assert_eq!(EventType::Prepare.label(), "prepare");
    assert_eq!(EventType::Execute.label(), "execute");
    assert_eq!(EventType::Query.label(), "query");
    assert_eq!(SqlQueryType::Read.label(), "read");
    assert_eq!(SqlQueryType::Write.label(), "write");
    assert_eq!(SqlQueryType::Other.label(), "other");
    assert_eq!(DatabaseType::MySql.label(), "mysql");
    assert_eq!(DatabaseType::Psql.label(), "psql");
    assert_eq!(DatabaseType::ReadySet.label(), "readyset");
}

#[test]
fn timer_handle_measures_something() {
    let handle = QueryExecutionTimerHandle::new();
    let elapsed = handle.finish();
    assert!(elapsed.as_nanos() < u128::MAX);
}

#[test]
fn integer_arithmetic_is_checked() {
    assert_eq!(
        DfValue::Int(3).try_add(&DfValue::Int(4)),
        Ok(DfValue::Int(7))
    );
    assert_eq!(
        DfValue::Int(i64::MAX).try_add(&DfValue::Int(1)),
        Err(AggregateError::Overflow)
    );
    assert_eq!(
        DfValue::Int(i64::MIN).try_sub(&DfValue::Int(1)),
        Err(AggregateError::Overflow)
    );
    assert_eq!(
        DfValue::Int(1).try_add(&DfValue::Text(String::from("x"))),
        Err(AggregateError::TypeMismatch)
    );
    assert_eq!(
        DfValue::Null.try_add(&DfValue::Int(1)),
        Err(AggregateError::TypeMismatch)
    );
}

#[test]
fn decimal_arithmetic_is_exact() {
    // 1.25 + 2 == 3.25, carried as an exact fixed-point mantissa
    let a = DfValue::numeric(125, 2).unwrap();
    let sum = a.try_add(&DfValue::Int(2)).unwrap();
    assert_eq!(sum, DfValue::numeric(325, 2).unwrap());
    // 3.25 - 1.25 == 2.00
    let diff = sum.try_sub(&DfValue::numeric(125, 2).unwrap()).unwrap();
    assert_eq!(diff, DfValue::numeric(2, 0).unwrap());
    // 6.25 == 25 / 4 exactly
    let q = DfValue::Int(25).try_div_count(4).unwrap();
    assert_eq!(q, DfValue::numeric(625, 2).unwrap());
    // truncation toward zero for an inexact quotient
    let q = DfValue::Int(1).try_div_count(3).unwrap();
    assert_eq!(q, DfValue::Numeric(333_333_333));
    let q = DfValue::Int(-1).try_div_count(3).unwrap();
    assert_eq!(q, DfValue::Numeric(-333_333_333));
    // a scale beyond the fixed precision is refused
    assert!(DfValue::numeric(1, 10).is_none());
}
