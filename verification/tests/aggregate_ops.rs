//! The grouped aggregation operator, exercised end to end: COUNT, SUM and
//! AVG folds, retraction/assertion emission, multi-column grouping, and
//! the exactness of the auxiliary average state.

use grouped_aggregate::aggregate::{Aggregation, Aggregator, AverageDataPair, DfType, NumericalDiff};
use grouped_aggregate::error::AggregateError;
use grouped_aggregate::grouped::{GroupedOperator, Record};
use grouped_aggregate::value::DfValue;

fn iv(i: i64) -> DfValue {
    DfValue::Int(i)
}

fn num(mantissa: i64, scale: u32) -> DfValue {
    DfValue::numeric(mantissa, scale).unwrap()
}

fn text(s: &str) -> DfValue {
    DfValue::Text(String::from(s))
}

fn pos(row: Vec<DfValue>) -> Record {
    Record::Positive(row)
}

fn neg(row: Vec<DfValue>) -> Record {
    Record::Negative(row)
}

/// Group on column 0, aggregate over column 1 of two-column rows.
fn setup(aggregation: Aggregation) -> GroupedOperator {
    aggregation.over(0, 1, &vec![0], &DfType::Numeric).unwrap()
}

/// Group on columns 0 and 2, aggregate over column 1 of three-column rows.
fn setup_multicolumn(aggregation: Aggregation) -> GroupedOperator {
    aggregation.over(0, 1, &vec![0, 2], &DfType::Numeric).unwrap()
}

fn row(rec: &Record) -> &Vec<DfValue> {
    match rec {
        Record::Positive(r) => r,
        Record::Negative(r) => r,
    }
}

fn is_positive(rec: &Record) -> bool {
    matches!(rec, Record::Positive(_))
}

#[test]
fn it_describes() {
    let c = Aggregation::Count.over(0, 1, &vec![0, 2], &DfType::Unknown).unwrap();
    assert_eq!(c.description(true), "|*| \u{3b3}[0, 2]");
    let s = Aggregation::Sum.over(0, 1, &vec![2, 0], &DfType::Unknown).unwrap();
    assert_eq!(s.description(true), "\u{1d6f4}(1) \u{3b3}[2, 0]");
    let a = Aggregation::Avg.over(0, 1, &vec![2, 0], &DfType::Unknown).unwrap();
    assert_eq!(a.description(true), "Avg(1) \u{3b3}[2, 0]");
}

/// Testing count emits correct records with single column group and single
/// over column.  Records are in the form of (GroupCol, OverCol).  Includes
/// adding and removing records from different groups independently and in
/// batch.
#[test]
fn count_forwards() {
    let mut c = setup(Aggregation::Count);

    // Add Group=1, Value=1
    let rs = c.process(&vec![pos(vec![iv(1), iv(1)])]).unwrap();
    assert_eq!(rs.len(), 1);
    assert!(is_positive(&rs[0]));
    assert_eq!(row(&rs[0])[0], iv(1));
    assert_eq!(row(&rs[0])[1], iv(1));

    // Add Group=2, Value=2
    let rs = c.process(&vec![pos(vec![iv(2), iv(2)])]).unwrap();
    assert_eq!(rs.len(), 1);
    assert!(is_positive(&rs[0]));
    assert_eq!(row(&rs[0])[0], iv(2));
    assert_eq!(row(&rs[0])[1], iv(1));

    // Add Group=1, Value=2: expect Negative(1,1), Positive(1,2)
    let rs = c.process(&vec![pos(vec![iv(1), iv(2)])]).unwrap();
    assert_eq!(rs.len(), 2);
    assert!(!is_positive(&rs[0]));
    assert_eq!(row(&rs[0])[0], iv(1));
    assert_eq!(row(&rs[0])[1], iv(1));
    assert!(is_positive(&rs[1]));
    assert_eq!(row(&rs[1])[0], iv(1));
    assert_eq!(row(&rs[1])[1], iv(2));

    // Remove Group=1, Value=1: expect Negative(1,2), Positive(1,1)
    let rs = c.process(&vec![neg(vec![iv(1), iv(1)])]).unwrap();
    assert_eq!(rs.len(), 2);
    assert!(!is_positive(&rs[0]));
    assert_eq!(row(&rs[0])[0], iv(1));
    assert_eq!(row(&rs[0])[1], iv(2));
    assert!(is_positive(&rs[1]));
    assert_eq!(row(&rs[1])[0], iv(1));
    assert_eq!(row(&rs[1])[1], iv(1));

    // Test multiple records at once
    let u = vec![
        neg(vec![iv(1), iv(1)]),
        pos(vec![iv(1), iv(1)]),
        pos(vec![iv(1), iv(2)]),
        neg(vec![iv(2), iv(2)]),
        pos(vec![iv(2), iv(2)]),
        pos(vec![iv(2), iv(3)]),
        pos(vec![iv(2), iv(1)]),
        pos(vec![iv(3), iv(3)]),
    ];
    let rs = c.process(&u).unwrap();
    assert_eq!(rs.len(), 5);
    // Group 1 expect Negative(1,1), Positive(1,2)
    assert!(rs.iter().any(|r| !is_positive(r) && row(r)[0] == iv(1) && row(r)[1] == iv(1)));
    assert!(rs.iter().any(|r| is_positive(r) && row(r)[0] == iv(1) && row(r)[1] == iv(2)));
    // Group 2 expect Negative(2,1), Positive(2,3)
    assert!(rs.iter().any(|r| !is_positive(r) && row(r)[0] == iv(2) && row(r)[1] == iv(1)));
    assert!(rs.iter().any(|r| is_positive(r) && row(r)[0] == iv(2) && row(r)[1] == iv(3)));
    // Group 3 expect Positive(3,1)
    assert!(rs.iter().any(|r| is_positive(r) && row(r)[0] == iv(3) && row(r)[1] == iv(1)));
}

#[test]
fn count_empty_group() {
    let mut c = setup(Aggregation::Count);

    let rs = c.process(&vec![pos(vec![iv(1), iv(1)])]).unwrap();
    assert_eq!(rs, vec![pos(vec![iv(1), iv(1), iv(1)])]);

    let del_res = c.process(&vec![neg(vec![iv(1), iv(1)])]).unwrap();
    assert_eq!(del_res, vec![neg(vec![iv(1), iv(1), iv(1)])]);
}

/// Testing SUM emits correct records with single column group and single
/// over column.  Records are in the form of (GroupCol, OverCol).  Includes
/// adding and removing records from different groups independently and in
/// batch.
#[test]
fn sum_forwards() {
    let mut c = setup(Aggregation::Sum);

    // Add Group=1, Value=2: expect Positive(1, 2)
    let rs = c.process(&vec![pos(vec![iv(1), iv(2)])]).unwrap();
    assert_eq!(rs.len(), 1);
    assert!(is_positive(&rs[0]));
    assert_eq!(row(&rs[0])[0], iv(1));
    assert_eq!(row(&rs[0])[1], num(2, 0));

    // Add Group=2, Value=5: expect Positive(2, 5)
    let rs = c.process(&vec![pos(vec![iv(2), iv(5)])]).unwrap();
    assert_eq!(rs.len(), 1);
    assert!(is_positive(&rs[0]));
    assert_eq!(row(&rs[0])[0], iv(2));
    assert_eq!(row(&rs[0])[1], num(5, 0));

    // Add Group=1, Value=3: expect Negative(1, 2), Positive(1, 5)
    let rs = c.process(&vec![pos(vec![iv(1), iv(3)])]).unwrap();
    assert_eq!(rs.len(), 2);
    assert!(!is_positive(&rs[0]));
    assert_eq!(row(&rs[0])[0], iv(1));
    assert_eq!(row(&rs[0])[1], num(2, 0));
    assert!(is_positive(&rs[1]));
    assert_eq!(row(&rs[1])[0], iv(1));
    assert_eq!(row(&rs[1])[1], num(5, 0));

    // Remove Group=1, Value=2: expect Negative(1, 5), Positive(1, 3)
    let rs = c.process(&vec![neg(vec![iv(1), iv(2)])]).unwrap();
    assert_eq!(rs.len(), 2);
    assert!(!is_positive(&rs[0]));
    assert_eq!(row(&rs[0])[0], iv(1));
    assert_eq!(row(&rs[0])[1], num(5, 0));
    assert!(is_positive(&rs[1]));
    assert_eq!(row(&rs[1])[0], iv(1));
    assert_eq!(row(&rs[1])[1], num(3, 0));

    // Test multiple records at once:
    // Group 1: 3 -> 8; Group 2: loses its last row and disappears;
    // Group 3: new, 3
    let u = vec![
        pos(vec![iv(1), iv(2)]),
        pos(vec![iv(1), iv(3)]),
        neg(vec![iv(1), iv(2)]),
        pos(vec![iv(1), iv(5)]),
        neg(vec![iv(1), iv(3)]),
        pos(vec![iv(2), iv(5)]),
        neg(vec![iv(2), iv(5)]),
        pos(vec![iv(2), iv(2)]),
        neg(vec![iv(2), iv(2)]),
        neg(vec![iv(2), iv(5)]),
        pos(vec![iv(3), iv(3)]),
    ];
    let rs = c.process(&u).unwrap();
    assert_eq!(rs.len(), 4);
    assert!(rs.iter().any(|r| !is_positive(r) && row(r)[0] == iv(1) && row(r)[1] == num(3, 0)));
    assert!(rs.iter().any(|r| is_positive(r) && row(r)[0] == iv(1) && row(r)[1] == num(8, 0)));
    assert!(rs.iter().any(|r| !is_positive(r) && row(r)[0] == iv(2) && row(r)[1] == num(5, 0)));
    assert!(rs.iter().any(|r| is_positive(r) && row(r)[0] == iv(3) && row(r)[1] == num(3, 0)));
}

/// Testing AVG emits correct records with single column group and single
/// integer over column.
#[test]
fn avg_of_integers_forwards() {
    let mut c = setup(Aggregation::Avg);

    // Add Group=1, Value=2: expect Positive(1, 2.0)
    let rs = c.process(&vec![pos(vec![iv(1), iv(2)])]).unwrap();
    assert_eq!(rs.len(), 1);
    assert!(is_positive(&rs[0]));
    assert_eq!(row(&rs[0])[0], iv(1));
    assert_eq!(row(&rs[0])[1], num(2, 0));

    // Add Group=2, Value=5: expect Positive(2, 5.0)
    let rs = c.process(&vec![pos(vec![iv(2), iv(5)])]).unwrap();
    assert_eq!(rs.len(), 1);
    assert!(is_positive(&rs[0]));
    assert_eq!(row(&rs[0])[0], iv(2));
    assert_eq!(row(&rs[0])[1], num(5, 0));

    // Add Group=1, Value=3: expect Negative(1, 2.0), Positive(1, 2.5)
    let rs = c.process(&vec![pos(vec![iv(1), iv(3)])]).unwrap();
    assert_eq!(rs.len(), 2);
    assert!(!is_positive(&rs[0]));
    assert_eq!(row(&rs[0])[0], iv(1));
    assert_eq!(row(&rs[0])[1], num(2, 0));
    assert!(is_positive(&rs[1]));
    assert_eq!(row(&rs[1])[0], iv(1));
    assert_eq!(row(&rs[1])[1], num(25, 1));

    // Remove Group=1, Value=2: expect Negative(1, 2.5), Positive(1, 3.0)
    let rs = c.process(&vec![neg(vec![iv(1), iv(2)])]).unwrap();
    assert_eq!(rs.len(), 2);
    assert!(!is_positive(&rs[0]));
    assert_eq!(row(&rs[0])[0], iv(1));
    assert_eq!(row(&rs[0])[1], num(25, 1));
    assert!(is_positive(&rs[1]));
    assert_eq!(row(&rs[1])[0], iv(1));
    assert_eq!(row(&rs[1])[1], num(3, 0));

    // Test multiple records at once:
    // Group 1: (3/1) -> (24/2); Group 2: (5/1) -> (25/4); Group 3: new 3
    let u = vec![
        pos(vec![iv(1), iv(14)]),
        pos(vec![iv(1), iv(8)]),
        pos(vec![iv(1), iv(3)]),
        neg(vec![iv(1), iv(2)]),
        neg(vec![iv(1), iv(2)]),
        pos(vec![iv(2), iv(10)]),
        pos(vec![iv(2), iv(7)]),
        pos(vec![iv(2), iv(3)]),
        pos(vec![iv(2), iv(2)]),
        neg(vec![iv(2), iv(2)]),
        pos(vec![iv(3), iv(3)]),
    ];
    let rs = c.process(&u).unwrap();
    assert_eq!(rs.len(), 5);
    assert!(rs.iter().any(|r| !is_positive(r) && row(r)[0] == iv(1) && row(r)[1] == num(3, 0)));
    assert!(rs.iter().any(|r| is_positive(r) && row(r)[0] == iv(1) && row(r)[1] == num(12, 0)));
    assert!(rs.iter().any(|r| !is_positive(r) && row(r)[0] == iv(2) && row(r)[1] == num(5, 0)));
    assert!(rs.iter().any(|r| is_positive(r) && row(r)[0] == iv(2) && row(r)[1] == num(625, 2)));
    assert!(rs.iter().any(|r| is_positive(r) && row(r)[0] == iv(3) && row(r)[1] == num(3, 0)));
}

/// Testing AVG emits correct records with single column group and single
/// decimal over column.
#[test]
fn avg_of_decimals_forwards() {
    let mut c = setup(Aggregation::Avg);

    // Add [1, 1.25]: expect Positive(1, 1.25)
    let rs = c.process(&vec![pos(vec![iv(1), num(125, 2)])]).unwrap();
    assert_eq!(rs.len(), 1);
    assert!(is_positive(&rs[0]));
    assert_eq!(row(&rs[0])[0], iv(1));
    assert_eq!(row(&rs[0])[1], num(125, 2));

    // Add [2, 5.5]: expect Positive(2, 5.5)
    let rs = c.process(&vec![pos(vec![iv(2), num(55, 1)])]).unwrap();
    assert_eq!(rs.len(), 1);
    assert!(is_positive(&rs[0]));
    assert_eq!(row(&rs[0])[0], iv(2));
    assert_eq!(row(&rs[0])[1], num(55, 1));

    // Add [1, 2.25]: expect Negative(1, 1.25), Positive(1, 1.75)
    let rs = c.process(&vec![pos(vec![iv(1), num(225, 2)])]).unwrap();
    assert_eq!(rs.len(), 2);
    assert!(!is_positive(&rs[0]));
    assert_eq!(row(&rs[0])[0], iv(1));
    assert_eq!(row(&rs[0])[1], num(125, 2));
    assert!(is_positive(&rs[1]));
    assert_eq!(row(&rs[1])[0], iv(1));
    assert_eq!(row(&rs[1])[1], num(175, 2));

    // Remove [1, 1.25]: expect Negative(1, 1.75), Positive(1, 2.25)
    let rs = c.process(&vec![neg(vec![iv(1), num(125, 2)])]).unwrap();
    assert_eq!(rs.len(), 2);
    assert!(!is_positive(&rs[0]));
    assert_eq!(row(&rs[0])[0], iv(1));
    assert_eq!(row(&rs[0])[1], num(175, 2));
    assert!(is_positive(&rs[1]));
    assert_eq!(row(&rs[1])[0], iv(1));
    assert_eq!(row(&rs[1])[1], num(225, 2));

    // Test multiple records at once:
    // Group 1: (2.25/1) -> (15.75/3) = 5.25; Group 2: (5.5/1) -> (10.5/2)
    // = 5.25; Group 3: new 3
    let u = vec![
        pos(vec![iv(1), num(124, 1)]),
        pos(vec![iv(1), num(115, 2)]),
        pos(vec![iv(1), num(105, 2)]),
        pos(vec![iv(1), num(11, 1)]),
        neg(vec![iv(1), num(115, 2)]),
        neg(vec![iv(1), num(105, 2)]),
        pos(vec![iv(2), num(525, 2)]),
        pos(vec![iv(2), num(75, 2)]),
        neg(vec![iv(2), num(1, 0)]),
        pos(vec![iv(3), iv(3)]),
    ];
    let rs = c.process(&u).unwrap();
    assert_eq!(rs.len(), 5);
    assert!(rs.iter().any(|r| !is_positive(r) && row(r)[0] == iv(1) && row(r)[1] == num(225, 2)));
    assert!(rs.iter().any(|r| is_positive(r) && row(r)[0] == iv(1) && row(r)[1] == num(525, 2)));
    assert!(rs.iter().any(|r| !is_positive(r) && row(r)[0] == iv(2) && row(r)[1] == num(55, 1)));
    assert!(rs.iter().any(|r| is_positive(r) && row(r)[0] == iv(2) && row(r)[1] == num(525, 2)));
    assert!(rs.iter().any(|r| is_positive(r) && row(r)[0] == iv(3) && row(r)[1] == num(3, 0)));
}

/// Testing AVG emits correct records with multiple group by columns and a
/// single decimal over column.  Records are in the form of (GroupCol1,
/// OverCol, GroupCol2).
#[test]
fn avg_groups_by_multiple_columns() {
    let mut c = setup_multicolumn(Aggregation::Avg);

    // Add Group=(1,1), Value=1.25
    let rs = c.process(&vec![pos(vec![iv(1), num(125, 2), iv(1)])]).unwrap();
    assert_eq!(rs.len(), 1);
    assert!(is_positive(&rs[0]));
    assert_eq!(row(&rs[0])[0], iv(1));
    assert_eq!(row(&rs[0])[2], num(125, 2));

    // Add Group=(2,1), Value=5.5
    let rs = c.process(&vec![pos(vec![iv(2), num(55, 1), iv(1)])]).unwrap();
    assert_eq!(rs.len(), 1);
    assert!(is_positive(&rs[0]));
    assert_eq!(row(&rs[0])[0], iv(2));
    assert_eq!(row(&rs[0])[2], num(55, 1));

    // Add Group=(1,1), Value=2.25
    let rs = c.process(&vec![pos(vec![iv(1), num(225, 2), iv(1)])]).unwrap();
    assert_eq!(rs.len(), 2);
    assert!(!is_positive(&rs[0]));
    assert_eq!(row(&rs[0])[0], iv(1));
    assert_eq!(row(&rs[0])[2], num(125, 2));
    assert!(is_positive(&rs[1]));
    assert_eq!(row(&rs[1])[0], iv(1));
    assert_eq!(row(&rs[1])[2], num(175, 2));

    // Remove Group=(1,1), Value=1.25
    let rs = c.process(&vec![neg(vec![iv(1), num(125, 2), iv(1)])]).unwrap();
    assert_eq!(rs.len(), 2);
    assert!(!is_positive(&rs[0]));
    assert_eq!(row(&rs[0])[0], iv(1));
    assert_eq!(row(&rs[0])[2], num(175, 2));
    assert!(is_positive(&rs[1]));
    assert_eq!(row(&rs[1])[0], iv(1));
    assert_eq!(row(&rs[1])[2], num(225, 2));
}

/// Testing COUNT emits correct records with multiple group by columns and
/// a single over column.  Records are in the form of (GroupCol1, OverCol,
/// GroupCol2).
#[test]
fn count_groups_by_multiple_columns() {
    let mut c = setup_multicolumn(Aggregation::Count);

    // Add Group=(1,2), Value=1
    let rs = c.process(&vec![pos(vec![iv(1), iv(1), iv(2)])]).unwrap();
    assert_eq!(rs.len(), 1);
    assert!(is_positive(&rs[0]));
    assert_eq!(row(&rs[0])[0], iv(1));
    assert_eq!(row(&rs[0])[1], iv(2));
    assert_eq!(row(&rs[0])[2], iv(1));

    // Add Group=(2,2), Value=1
    let rs = c.process(&vec![pos(vec![iv(2), iv(1), iv(2)])]).unwrap();
    assert_eq!(rs.len(), 1);
    assert!(is_positive(&rs[0]));
    assert_eq!(row(&rs[0])[0], iv(2));
    assert_eq!(row(&rs[0])[1], iv(2));
    assert_eq!(row(&rs[0])[2], iv(1));

    // Add Group=(1,2), Value=1 again
    let rs = c.process(&vec![pos(vec![iv(1), iv(1), iv(2)])]).unwrap();
    assert_eq!(rs.len(), 2);
    assert!(!is_positive(&rs[0]));
    assert_eq!(row(&rs[0])[0], iv(1));
    assert_eq!(row(&rs[0])[1], iv(2));
    assert_eq!(row(&rs[0])[2], iv(1));
    assert!(is_positive(&rs[1]));
    assert_eq!(row(&rs[1])[0], iv(1));
    assert_eq!(row(&rs[1])[1], iv(2));
    assert_eq!(row(&rs[1])[2], iv(2));

    // Remove Group=(1,2), Value=1
    let rs = c.process(&vec![neg(vec![iv(1), iv(1), iv(2)])]).unwrap();
    assert_eq!(rs.len(), 2);
    assert!(!is_positive(&rs[0]));
    assert_eq!(row(&rs[0])[0], iv(1));
    assert_eq!(row(&rs[0])[1], iv(2));
    assert_eq!(row(&rs[0])[2], iv(2));
    assert!(is_positive(&rs[1]));
    assert_eq!(row(&rs[1])[0], iv(1));
    assert_eq!(row(&rs[1])[1], iv(2));
    assert_eq!(row(&rs[1])[2], iv(1));
}

#[test]
fn it_suggests_indices() {
    let me = 1;
    let c = setup(Aggregation::Avg);
    let idx = c.suggest_indexes(me);
    // should only index on the group-by column, keyed by this node
    assert_eq!(idx.0, me);
    assert_eq!(idx.1, vec![0]);
}

#[test]
fn it_resolves() {
    let c = setup(Aggregation::Avg);
    assert_eq!(c.resolve(0), Some(vec![(0, 0)]));
    assert_eq!(c.resolve(1), None);
}

#[test]
fn sum_add_zero() {
    let mut c = setup(Aggregation::Sum);
    let out = c.process(&vec![pos(vec![text("grp"), iv(1)])]).unwrap();
    assert_eq!(out, vec![pos(vec![text("grp"), num(1, 0), iv(1)])]);

    // Adding 0 to the group should still add 1 to the row count (the last
    // column)
    let out = c.process(&vec![pos(vec![text("grp"), iv(0)])]).unwrap();
    assert_eq!(
        out,
        vec![
            neg(vec![text("grp"), num(1, 0), iv(1)]),
            pos(vec![text("grp"), num(1, 0), iv(2)]),
        ]
    );
}

/// Incremental COUNT agrees with recounting the surviving rows: applying
/// Positive(1,1), Positive(1,2), Negative(1,1) leaves group 1 with exactly
/// one row, and a count of 1 materialized.
#[test]
fn count_rederives_from_net_rows() {
    let mut c = setup(Aggregation::Count);
    c.process(&vec![
        pos(vec![iv(1), iv(1)]),
        pos(vec![iv(1), iv(2)]),
        neg(vec![iv(1), iv(1)]),
    ])
    .unwrap();
    assert_eq!(c.lookup(&vec![iv(1)]), Some(&vec![iv(1), iv(1), iv(1)]));
}

/// A batch whose net effect on a group is zero emits nothing, both for a
/// group that never existed and for one that did.
#[test]
fn no_op_batch_emits_nothing() {
    let mut c = setup(Aggregation::Sum);
    // never-seen group, net zero
    let out = c.process(&vec![pos(vec![iv(7), iv(4)]), neg(vec![iv(7), iv(4)])]).unwrap();
    assert!(out.is_empty());
    assert_eq!(c.lookup(&vec![iv(7)]), None);

    // existing group, net zero
    c.process(&vec![pos(vec![iv(1), iv(2)])]).unwrap();
    let out = c.process(&vec![pos(vec![iv(1), iv(9)]), neg(vec![iv(1), iv(9)])]).unwrap();
    assert!(out.is_empty());
    assert_eq!(c.lookup(&vec![iv(1)]), Some(&vec![iv(1), num(2, 0), iv(1)]));
}

/// COUNT and GROUP_CONCAT over a whole relation (no GROUP BY) materialize
/// their identity row before any input arrives; SUM and AVG do not.
#[test]
fn empty_group_identity_emission() {
    let count = Aggregation::Count.over(0, 0, &vec![], &DfType::Unknown).unwrap();
    assert_eq!(count.lookup(&vec![]), Some(&vec![iv(0), iv(0)]));

    let concat =
        Aggregation::GroupConcat { separator: String::from(", ") }.over(0, 0, &vec![], &DfType::Unknown).unwrap();
    assert_eq!(concat.lookup(&vec![]), Some(&vec![text(""), iv(0)]));

    let sum = Aggregation::Sum.over(0, 0, &vec![], &DfType::Numeric).unwrap();
    assert_eq!(sum.lookup(&vec![]), None);

    let avg = Aggregation::Avg.over(0, 0, &vec![], &DfType::Numeric).unwrap();
    assert_eq!(avg.lookup(&vec![]), None);
}

/// A whole-relation COUNT retracts its zero row when the first row
/// arrives, and restores it when the relation empties again: counting an
/// empty table still yields one row with value zero.
#[test]
fn whole_relation_count_retracts_zero() {
    let mut c = Aggregation::Count.over(0, 0, &vec![], &DfType::Unknown).unwrap();
    let out = c.process(&vec![pos(vec![iv(5)])]).unwrap();
    assert_eq!(out, vec![neg(vec![iv(0), iv(0)]), pos(vec![iv(1), iv(1)])]);

    let out = c.process(&vec![neg(vec![iv(5)])]).unwrap();
    assert_eq!(out, vec![neg(vec![iv(1), iv(1)]), pos(vec![iv(0), iv(0)])]);
    assert_eq!(c.lookup(&vec![]), Some(&vec![iv(0), iv(0)]));

    // a whole-relation GROUP_CONCAT mirrors COUNT's identity behaviour
    let mut g = Aggregation::GroupConcat { separator: String::from(",") }
        .over(0, 0, &vec![], &DfType::Unknown)
        .unwrap();
    let out = g.process(&vec![pos(vec![text("a")])]).unwrap();
    assert_eq!(out, vec![neg(vec![text(""), iv(0)]), pos(vec![text("a"), iv(1)])]);
    let out = g.process(&vec![neg(vec![text("a")])]).unwrap();
    assert_eq!(out, vec![neg(vec![text("a"), iv(1)]), pos(vec![text(""), iv(0)])]);
}

/// NULL values are skipped consistently: they change neither the value nor
/// the row count.
#[test]
fn null_contributions_are_skipped() {
    let mut c = setup(Aggregation::Count);
    let out = c
        .process(&vec![pos(vec![iv(1), DfValue::Null]), pos(vec![iv(1), iv(4)])])
        .unwrap();
    assert_eq!(out, vec![pos(vec![iv(1), iv(1), iv(1)])]);
}

/// GROUP_CONCAT keeps a true multiset of contributors: retraction removes
/// one matching contribution, and the value is rebuilt each time.
#[test]
fn group_concat_forwards() {
    let mut c = Aggregation::GroupConcat { separator: String::from(", ") }
        .over(0, 1, &vec![0], &DfType::Unknown)
        .unwrap();

    let out = c.process(&vec![pos(vec![iv(1), text("a")])]).unwrap();
    assert_eq!(out, vec![pos(vec![iv(1), text("a"), iv(1)])]);

    let out = c.process(&vec![pos(vec![iv(1), text("b")])]).unwrap();
    assert_eq!(
        out,
        vec![
            neg(vec![iv(1), text("a"), iv(1)]),
            pos(vec![iv(1), text("a, b"), iv(2)]),
        ]
    );

    // remove the first contribution: only "b" survives
    let out = c.process(&vec![neg(vec![iv(1), text("a")])]).unwrap();
    assert_eq!(
        out,
        vec![
            neg(vec![iv(1), text("a, b"), iv(2)]),
            pos(vec![iv(1), text("b"), iv(1)]),
        ]
    );

    // integers are concatenated in decimal form
    let out = c.process(&vec![pos(vec![iv(1), iv(-3)])]).unwrap();
    assert_eq!(
        out,
        vec![
            neg(vec![iv(1), text("b"), iv(1)]),
            pos(vec![iv(1), text("b, -3"), iv(2)]),
        ]
    );
}

/// Distinct multi-column grouping keys never share state: a diff for
/// (1,2) cannot perturb the aggregate of (1,3).
#[test]
fn multi_column_groups_are_independent() {
    let mut c = setup_multicolumn(Aggregation::Count);
    c.process(&vec![pos(vec![iv(1), iv(1), iv(2)])]).unwrap();
    c.process(&vec![pos(vec![iv(1), iv(1), iv(3)])]).unwrap();
    c.process(&vec![pos(vec![iv(1), iv(1), iv(2)])]).unwrap();
    assert_eq!(c.lookup(&vec![iv(1), iv(2)]), Some(&vec![iv(1), iv(2), iv(2), iv(2)]));
    assert_eq!(c.lookup(&vec![iv(1), iv(3)]), Some(&vec![iv(1), iv(3), iv(1), iv(1)]));
}

/// Adding text into a SUM is a type error, and the failed batch leaves the
/// operator's state untouched.
#[test]
fn sum_of_text_is_type_error() {
    let mut c = setup(Aggregation::Sum);
    c.process(&vec![pos(vec![iv(1), iv(2)])]).unwrap();
    let r = c.process(&vec![pos(vec![iv(1), text("nope")])]);
    assert_eq!(r, Err(AggregateError::TypeMismatch));
    // all-or-nothing: the group still holds its old sum
    assert_eq!(c.lookup(&vec![iv(1)]), Some(&vec![iv(1), num(2, 0), iv(1)]));
}

/// A row narrower than the validated schema is an internal fault.
#[test]
fn short_row_is_internal_fault() {
    let mut c = setup(Aggregation::Count);
    let r = c.process(&vec![pos(vec![iv(1)])]);
    assert_eq!(r, Err(AggregateError::Internal));
}

/// Construction-time validation: an aggregated-over or grouping column
/// outside the schema is refused when the operator is attached, never
/// caught per row.
#[test]
fn setup_validates_over_column() {
    let c = setup(Aggregation::Count);
    assert_eq!(c.agg.setup(2), Ok(()));
    assert_eq!(c.agg.setup(1), Err(AggregateError::InvalidColumn));

    // a grouping column beyond the schema is a construction-time error too
    let g = Aggregation::Count.over(0, 0, &vec![5], &DfType::Unknown).unwrap();
    assert_eq!(g.agg.setup(3), Err(AggregateError::InvalidColumn));
    assert_eq!(g.agg.setup(6), Ok(()));
}

/// AVG stays exact under many compensating updates: after N inserts and
/// N-1 deletes of awkward decimals, the derived average is exactly the
/// surviving value.
#[test]
fn avg_exact_under_compensating_updates() {
    let mut c = setup(Aggregation::Avg);
    let mut batch = Vec::new();
    for k in 0..100i64 {
        batch.push(pos(vec![iv(1), num(3 + k, 1)]));
    }
    for k in 1..100i64 {
        batch.push(neg(vec![iv(1), num(3 + k, 1)]));
    }
    let out = c.process(&batch).unwrap();
    // the surviving multiset is exactly {0.3}
    assert_eq!(out, vec![pos(vec![iv(1), num(3, 1), iv(1)])]);
    assert_eq!(c.lookup(&vec![iv(1)]), Some(&vec![iv(1), num(3, 1), iv(1)]));
}

/// The compact description forms.
#[test]
fn it_describes_compact() {
    let c = setup(Aggregation::Count);
    assert_eq!(c.description(false), "+");
    let s = setup(Aggregation::Sum);
    assert_eq!(s.description(false), "\u{1d6f4}");
    let a = setup(Aggregation::Avg);
    assert_eq!(a.description(false), "Avg");
    let g = Aggregation::GroupConcat { separator: String::from("#") }
        .over(0, 1, &vec![0], &DfType::Unknown)
        .unwrap();
    assert_eq!(g.description(false), "||(#)");
    assert_eq!(g.description(true), "||(#, 1) \u{3b3}[0]");
}

/// GROUP_CONCAT diffs must never travel through the numeric fold path:
/// doing so is an internal contract violation.
#[test]
fn group_concat_rejected_by_numeric_fold() {
    let agg = Aggregator {
        op: Aggregation::GroupConcat { separator: String::from(",") },
        over: 1,
        group: vec![0],
        count_sum_map: grouped_aggregate::keymap::KeyMap::new(),
        out_ty: DfType::Text,
    };
    let diffs = vec![NumericalDiff { value: iv(1), positive: true, group_key: vec![iv(1)] }];
    let mut aux = AverageDataPair::zero();
    assert_eq!(agg.apply(None, &diffs, &mut aux), Err(AggregateError::Internal));
}

/// A SUM or AVG over a floating-point column infers a floating-point
/// output type, which the exact engine refuses when the first batch
/// arrives.
#[test]
fn float_output_type_is_refused() {
    let mut c = Aggregation::Sum.over(0, 1, &vec![0], &DfType::Double).unwrap();
    assert_eq!(c.agg.output_col_type(), DfType::Double);
    let r = c.process(&vec![pos(vec![iv(1), iv(2)])]);
    assert_eq!(r, Err(AggregateError::UnsupportedType));
}
