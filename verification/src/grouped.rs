//! The grouped incremental operator.
//!
//! Given a batch of signed rows, the operator partitions them by
//! grouping-key, looks each group's current output row up in its own
//! materialized state, folds the batch's diffs into a new value per group,
//! and emits the minimal retraction/assertion pair needed to bring the
//! materialized view up to date.  A batch is all-or-nothing: every state
//! change is staged and committed only once every group has folded
//! successfully.
//!
//! Every output row is `grouping-key values ++ aggregate value ++ row
//! count`; the trailing count tracks the group's surviving membership, so
//! the operator knows when a group has emptied and its row must simply be
//! retracted.

use vstd::prelude::*;

use crate::aggregate::{
    diffs_model, fold_diffs, project_key, spec_new_data, Aggregation, AverageDataPair, DiffModel,
    FoldState, NumericalDiff,
};
use crate::error::AggregateError;
use crate::keymap::row_model;
use crate::strfmt::{int_str, join_seq};
use crate::value::{DfValue, Val};

verus! {

/// Model of a signed row.
pub struct RecModel {
    pub row: Seq<Val>,
    pub positive: bool,
}

/// A signed row: the unit of incremental change.  A `Positive` record
/// asserts multiset membership of its row, a `Negative` record retracts a
/// prior contribution.
#[derive(Debug)]
pub enum Record {
    Positive(Vec<DfValue>),
    Negative(Vec<DfValue>),
}

impl View for Record {
    type V = RecModel;

    open spec fn view(&self) -> RecModel {
        match self {
            Record::Positive(r) => RecModel { row: row_model(r@), positive: true },
            Record::Negative(r) => RecModel { row: row_model(r@), positive: false },
        }
    }
}

/// Copy a row, value by value.
pub fn clone_row(r: &Vec<DfValue>) -> (c: Vec<DfValue>)
    ensures
        c@ == r@,
{
    let n = r.len();
    let mut c: Vec<DfValue> = Vec::new();
    let mut i: usize = 0;
    while i < n
        invariant
            n == r@.len(),
            0 <= i <= n,
            c@ == r@.take(i as int),
        decreases n - i,
    {
        c.push(r[i].clone());
        proof {
            assert(c@ =~= r@.take(i + 1));
        }
        i += 1;
    }
    proof {
        assert(r@.take(n as int) =~= r@);
    }
    c
}

impl Clone for Record {
    fn clone(&self) -> (res: Record)
        ensures
            res@ == self@,
    {
        match self {
            Record::Positive(r) => Record::Positive(clone_row(r)),
            Record::Negative(r) => Record::Negative(clone_row(r)),
        }
    }
}

impl PartialEq for Record {
    fn eq(&self, other: &Record) -> (r: bool) {
        match (self, other) {
            (Record::Positive(a), Record::Positive(b)) => crate::keymap::keys_eq(a, b),
            (Record::Negative(a), Record::Negative(b)) => crate::keymap::keys_eq(a, b),
            _ => false,
        }
    }
}

impl vstd::std_specs::cmp::PartialEqSpecImpl for Record {
    open spec fn obeys_eq_spec() -> bool {
        true
    }

    open spec fn eq_spec(&self, other: &Record) -> bool {
        self@ == other@
    }
}

/// The models of a sequence of records.
pub open spec fn recs_model(rs: Seq<Record>) -> Seq<RecModel> {
    rs.map_values(|r: Record| r@)
}

/// The grouping key of a record.
pub open spec fn rec_key(r: RecModel, group: Seq<usize>) -> Seq<Val> {
    project_key(r.row, group)
}

/// Whether a row is wide enough for the configured columns.
pub open spec fn row_len_ok(row_len: int, over: usize, group: Seq<usize>) -> bool {
    (over as int) < row_len && forall|j: int|
        0 <= j < group.len() ==> (group[j] as int) < row_len
}

/// Whether every row of a batch is wide enough.
pub open spec fn batch_ok(batch: Seq<RecModel>, over: usize, group: Seq<usize>) -> bool {
    forall|i: int|
        0 <= i < batch.len() ==> row_len_ok(#[trigger] batch[i].row.len() as int, over, group)
}

/// The distinct grouping keys of a batch, in order of first appearance.
pub open spec fn distinct_keys_of(batch: Seq<RecModel>, group: Seq<usize>) -> Seq<Seq<Val>>
    decreases batch.len(),
{
    if batch.len() == 0 {
        Seq::empty()
    } else {
        let prev = distinct_keys_of(batch.drop_last(), group);
        let k = rec_key(batch.last(), group);
        if prev.contains(k) {
            prev
        } else {
            prev.push(k)
        }
    }
}

/// The diff one record contributes.
pub open spec fn rec_diff(r: RecModel, over: usize, group: Seq<usize>) -> DiffModel {
    DiffModel { value: r.row[over as int], positive: r.positive, group_key: rec_key(r, group) }
}

/// The ordered sub-sequence of diffs belonging to group `k`.
pub open spec fn group_diffs(
    batch: Seq<RecModel>,
    over: usize,
    group: Seq<usize>,
    k: Seq<Val>,
) -> Seq<DiffModel>
    decreases batch.len(),
{
    if batch.len() == 0 {
        Seq::empty()
    } else {
        let prev = group_diffs(batch.drop_last(), over, group, k);
        let r = batch.last();
        if rec_key(r, group) == k {
            prev.push(rec_diff(r, over, group))
        } else {
            prev
        }
    }
}

/// The minimal signed rows that turn an old materialized row into a new
/// one: nothing when they agree, a retraction and/or an assertion
/// otherwise, always in retraction-then-assertion order.
pub open spec fn emit_pair(old_row: Option<Seq<Val>>, new_row: Option<Seq<Val>>) -> Seq<RecModel> {
    match (old_row, new_row) {
        (Option::None, Option::None) => Seq::empty(),
        (Option::None, Option::Some(n)) => seq![RecModel { row: n, positive: true }],
        (Option::Some(o), Option::None) => seq![RecModel { row: o, positive: false }],
        (Option::Some(o), Option::Some(n)) => if o == n {
            Seq::empty()
        } else {
            seq![
                RecModel { row: o, positive: false },
                RecModel { row: n, positive: true },
            ]
        },
    }
}

/// The materialized value and row count carried by a group's old output
/// row; an absent row means the identity will be used and the count starts
/// at zero.  A row of the wrong shape is an internal fault.
pub open spec fn parsed_old(k: Seq<Val>, old_row: Option<Seq<Val>>) -> Result<
    (Option<Val>, int),
    AggregateError,
> {
    match old_row {
        Option::Some(r) => {
            if r.len() == k.len() + 2 && (r[r.len() - 1] is Int) {
                Ok((Option::Some(r[k.len() as int]), r[r.len() - 1]->Int_0))
            } else {
                Err(AggregateError::Internal)
            }
        },
        Option::None => Ok((Option::None, 0)),
    }
}

/// One group's fold through the numeric path (COUNT, SUM, AVG): the new
/// materialized row, if the group keeps one, and the new auxiliary pair.
pub open spec fn numeric_outcome(
    op: Aggregation,
    out_ty: crate::aggregate::DfType,
    k: Seq<Val>,
    old_row: Option<Seq<Val>>,
    pair0: (Val, Val),
    identity: Option<Val>,
    ds: Seq<DiffModel>,
) -> Result<(Option<Seq<Val>>, (Val, Val)), AggregateError> {
    match parsed_old(k, old_row) {
        Err(e) => Err(e),
        Ok((current, c0)) => {
            let init = match current {
                Option::Some(v) => Ok(v),
                Option::None => spec_new_data(out_ty),
            };
            match init {
                Err(e) => Err(e),
                Ok(a0) => match fold_diffs(
                    op,
                    FoldState { acc: a0, sum: pair0.0, count: pair0.1 },
                    ds,
                ) {
                    Err(e) => Err(e),
                    Ok(m) => match fold_diffs(
                        Aggregation::Count,
                        FoldState { acc: Val::Int(c0), sum: Val::Numeric(0), count: Val::Int(0) },
                        ds,
                    ) {
                        Err(e) => Err(e),
                        Ok(g) => {
                            let rc = g.acc->Int_0;
                            if rc > 0 {
                                Ok((Option::Some(k + seq![m.acc, Val::Int(rc)]), (m.sum, m.count)))
                            } else {
                                match identity {
                                    Option::Some(v) => Ok(
                                        (
                                            Option::Some(k + seq![v, Val::Int(0)]),
                                            (m.sum, m.count),
                                        ),
                                    ),
                                    Option::None => Ok((Option::None, (m.sum, m.count))),
                                }
                            }
                        },
                    },
                },
            }
        },
    }
}

/// The textual form GROUP_CONCAT uses for a value: integers in decimal,
/// text as itself; other types are not concatenated.
pub open spec fn text_repr(v: Val) -> Option<Seq<char>> {
    match v {
        Val::Int(i) => Option::Some(int_str(i)),
        Val::Text(s) => Option::Some(s),
        _ => Option::None,
    }
}

/// Remove the first occurrence of `x`, if any.
pub open spec fn remove_first(items: Seq<Seq<char>>, x: Seq<char>) -> Seq<Seq<char>>
    decreases items.len(),
{
    if items.len() == 0 {
        items
    } else if items[0] == x {
        items.drop_first()
    } else {
        seq![items[0]] + remove_first(items.drop_first(), x)
    }
}

/// One GROUP_CONCAT step: a NULL diff is a no-op; a positive diff appends
/// its value's text, a negative one removes the first matching contributor
/// (and is a no-op when none matches).
pub open spec fn concat_step(items: Seq<Seq<char>>, d: DiffModel) -> Result<
    Seq<Seq<char>>,
    AggregateError,
> {
    if d.value is Null {
        Ok(items)
    } else {
        match text_repr(d.value) {
            Option::None => Err(AggregateError::UnsupportedType),
            Option::Some(s) => if d.positive {
                Ok(items.push(s))
            } else {
                Ok(remove_first(items, s))
            },
        }
    }
}

/// Folding a group's diffs over its contributor multiset, in order.
pub open spec fn concat_fold(items: Seq<Seq<char>>, ds: Seq<DiffModel>) -> Result<
    Seq<Seq<char>>,
    AggregateError,
>
    decreases ds.len(),
{
    if ds.len() == 0 {
        Ok(items)
    } else {
        match concat_fold(items, ds.drop_last()) {
            Ok(m) => concat_step(m, ds.last()),
            Err(e) => Err(e),
        }
    }
}

/// One group's fold through the GROUP_CONCAT path: the new contributor
/// list, and the new row carrying their joined text and their number.
pub open spec fn concat_outcome(
    sep: Seq<char>,
    k: Seq<Val>,
    strs0: Seq<Seq<char>>,
    emit_identity: bool,
    ds: Seq<DiffModel>,
) -> Result<(Option<Seq<Val>>, Seq<Seq<char>>), AggregateError> {
    match concat_fold(strs0, ds) {
        Err(e) => Err(e),
        Ok(s1) => {
            if s1.len() > i64::MAX as nat {
                Err(AggregateError::Overflow)
            } else if s1.len() > 0 {
                Ok(
                    (
                        Option::Some(
                            k + seq![Val::Text(join_seq(s1, sep)), Val::Int(s1.len() as int)],
                        ),
                        s1,
                    ),
                )
            } else if emit_identity {
                Ok((Option::Some(k + seq![Val::Text(Seq::empty()), Val::Int(0)]), s1))
            } else {
                Ok((Option::None, s1))
            }
        },
    }
}


/// Model of an optional stored row.
pub open spec fn opt_row_model(o: Option<Vec<DfValue>>) -> Option<Seq<Val>> {
    match o {
        Option::Some(r) => Option::Some(row_model(r@)),
        Option::None => Option::None,
    }
}

/// The fold state a row-count fold runs in.
pub open spec fn count_fold_state(c: int) -> FoldState {
    FoldState { acc: Val::Int(c), sum: Val::Numeric(0), count: Val::Int(0) }
}

/// Fold the surviving-row count of a group: one up per non-null positive
/// diff, one down per non-null negative diff.
fn row_count_fold(start: i64, diffs: &Vec<NumericalDiff>) -> (r: Result<i64, AggregateError>)
    ensures
        match r {
            Ok(c) => fold_diffs(
                Aggregation::Count,
                count_fold_state(start as int),
                diffs_model(diffs@),
            ) == Ok::<FoldState, AggregateError>(count_fold_state(c as int)),
            Err(e) => fold_diffs(
                Aggregation::Count,
                count_fold_state(start as int),
                diffs_model(diffs@),
            ) == Err::<FoldState, AggregateError>(e),
        },
{
    let ghost ds = diffs_model(diffs@);
    let ghost st0 = count_fold_state(start as int);
    let mut acc: i64 = start;
    let n = diffs.len();
    let mut i: usize = 0;
    while i < n
        invariant
            n == diffs@.len(),
            0 <= i <= n,
            ds == diffs_model(diffs@),
            st0 == count_fold_state(start as int),
            fold_diffs(Aggregation::Count, st0, ds.take(i as int)) == Ok::<
                FoldState,
                AggregateError,
            >(count_fold_state(acc as int)),
        decreases n - i,
    {
        let ghost m_pre = count_fold_state(acc as int);
        let d = &diffs[i];
        proof {
            assert(ds[i as int] == diffs@[i as int]@);
            assert(ds.take(i + 1).drop_last() =~= ds.take(i as int));
            assert(ds.take(i + 1).last() == ds[i as int]);
        }
        if !d.value.is_null() {
            let step = if d.positive {
                acc.checked_add(1)
            } else {
                acc.checked_sub(1)
            };
            match step {
                Some(v) => {
                    acc = v;
                },
                None => {
                    proof {
                        crate::aggregate::lemma_fold_error_persists(
                            Aggregation::Count,
                            st0,
                            ds,
                            i as int,
                            AggregateError::Overflow,
                        );
                    }
                    return Err(AggregateError::Overflow);
                },
            }
        }
        proof {
            assert(crate::aggregate::fold_step(Aggregation::Count, m_pre, ds[i as int]) == Ok::<
                FoldState,
                AggregateError,
            >(count_fold_state(acc as int)));
        }
        i += 1;
    }
    proof {
        assert(ds.take(n as int) =~= ds);
    }
    Ok(acc)
}

/// Fold one group through the numeric path, from its old materialized row
/// and auxiliary pair; see [`numeric_outcome`].
fn numeric_group(
    agg: &crate::aggregate::Aggregator,
    k: &Vec<DfValue>,
    old_row: &Option<Vec<DfValue>>,
    pair0: AverageDataPair,
    identity: Option<DfValue>,
    diffs: &Vec<NumericalDiff>,
) -> (r: Result<(Option<Vec<DfValue>>, AverageDataPair), AggregateError>)
    ensures
        match r {
            Ok(p) => numeric_outcome(
                agg.op,
                agg.out_ty,
                row_model(k@),
                opt_row_model(*old_row),
                (pair0.sum@, pair0.count@),
                (match identity {
                    Option::Some(v) => Option::Some(v@),
                    Option::None => Option::None,
                }),
                diffs_model(diffs@),
            ) == Ok::<(Option<Seq<Val>>, (Val, Val)), AggregateError>(
                (opt_row_model(p.0), (p.1.sum@, p.1.count@)),
            ),
            Err(e) => numeric_outcome(
                agg.op,
                agg.out_ty,
                row_model(k@),
                opt_row_model(*old_row),
                (pair0.sum@, pair0.count@),
                (match identity {
                    Option::Some(v) => Option::Some(v@),
                    Option::None => Option::None,
                }),
                diffs_model(diffs@),
            ) == Err::<(Option<Seq<Val>>, (Val, Val)), AggregateError>(e),
        },
{
    let ghost km = row_model(k@);
    let klen = k.len();
    let mut aux = pair0;
    let mut c0: i64 = 0;
    let mut current: Option<&DfValue> = None;
    match old_row {
        Some(r) => {
            if r.len() < 2 || r.len() - 2 != klen {
                return Err(AggregateError::Internal);
            }
            match r[r.len() - 1].as_int() {
                Some(c) => {
                    c0 = c;
                },
                None => {
                    return Err(AggregateError::Internal);
                },
            }
            current = Some(&r[klen]);
        },
        None => {},
    }
    proof {
        assert(parsed_old(km, opt_row_model(*old_row)) == Ok::<(Option<Val>, int), AggregateError>(
            (
                match current {
                    Option::Some(v) => Option::Some(v@),
                    Option::None => Option::None,
                },
                c0 as int,
            ),
        ));
    }
    let v = match agg.apply(current, diffs, &mut aux) {
        Ok(v) => v,
        Err(e) => {
            return Err(e);
        },
    };
    let rc = match row_count_fold(c0, diffs) {
        Ok(c) => c,
        Err(e) => {
            return Err(e);
        },
    };
    if rc > 0 {
        let mut row = clone_row(k);
        row.push(v);
        row.push(DfValue::Int(rc));
        proof {
            assert(row_model(row@) =~= km + seq![v@, Val::Int(rc as int)]);
        }
        Ok((Some(row), aux))
    } else {
        match identity {
            Some(idv) => {
                let mut row = clone_row(k);
                row.push(idv);
                row.push(DfValue::Int(0));
                proof {
                    assert(row_model(row@) =~= km + seq![identity->Some_0@, Val::Int(0)]);
                }
                Ok((Some(row), aux))
            },
            None => Ok((None, aux)),
        }
    }
}

/// The textual form GROUP_CONCAT uses for a value; see [`text_repr`].
fn value_text(v: &DfValue) -> (r: Result<String, AggregateError>)
    ensures
        match r {
            Ok(s) => text_repr(v@) == Option::Some(s@),
            Err(e) => text_repr(v@) is None && e == AggregateError::UnsupportedType,
        },
{
    match v {
        DfValue::Int(i) => Ok(crate::strfmt::i64_to_string(*i)),
        DfValue::Text(s) => Ok(s.clone()),
        _ => Err(AggregateError::UnsupportedType),
    }
}

/// Removing a found first occurrence is removing at its index.
pub proof fn lemma_remove_first_found(m: Seq<Seq<char>>, x: Seq<char>, i: int)
    requires
        0 <= i < m.len(),
        m[i] == x,
        forall|j: int| 0 <= j < i ==> m[j] != x,
    ensures
        remove_first(m, x) == m.take(i) + m.skip(i + 1),
    decreases i,
{
    if i == 0 {
        assert(remove_first(m, x) == m.drop_first());
        assert(m.drop_first() =~= m.take(0) + m.skip(1));
    } else {
        assert(m[0] != x);
        assert(m.drop_first()[i - 1] == m[i]);
        assert forall|j: int| 0 <= j < i - 1 implies m.drop_first()[j] != x by {
            assert(m.drop_first()[j] == m[j + 1]);
        }
        lemma_remove_first_found(m.drop_first(), x, i - 1);
        assert(seq![m[0]] + (m.drop_first().take(i - 1) + m.drop_first().skip(i)) =~= m.take(i)
            + m.skip(i + 1));
    }
}

/// Removing an absent element changes nothing.
pub proof fn lemma_remove_first_missing(m: Seq<Seq<char>>, x: Seq<char>)
    requires
        forall|j: int| 0 <= j < m.len() ==> m[j] != x,
    ensures
        remove_first(m, x) == m,
    decreases m.len(),
{
    if m.len() > 0 {
        assert forall|j: int| 0 <= j < m.len() - 1 implies m.drop_first()[j] != x by {
            assert(m.drop_first()[j] == m[j + 1]);
        }
        lemma_remove_first_missing(m.drop_first(), x);
        assert(seq![m[0]] + m.drop_first() =~= m);
    }
}

/// Remove the first contributor equal to `x`, if any.
fn remove_first_string(items: &mut Vec<String>, x: &String)
    ensures
        crate::strfmt::strs_model(final(items)@) == remove_first(
            crate::strfmt::strs_model(old(items)@),
            x@,
        ),
{
    let ghost m = crate::strfmt::strs_model(items@);
    let n = items.len();
    let mut i: usize = 0;
    while i < n
        invariant
            n == items@.len(),
            m == crate::strfmt::strs_model(items@),
            m == crate::strfmt::strs_model(old(items)@),
            items@ == old(items)@,
            0 <= i <= n,
            forall|j: int| 0 <= j < i ==> m[j] != x@,
        decreases n - i,
    {
        if items[i].eq(x) {
            proof {
                assert(m[i as int] == x@);
            }
            items.remove(i);
            proof {
                lemma_remove_first_found(m, x@, i as int);
                assert(crate::strfmt::strs_model(items@) =~= m.take(i as int) + m.skip(i + 1));
            }
            return ;
        }
        proof {
            assert(m[i as int] == items@[i as int]@);
        }
        i += 1;
    }
    proof {
        lemma_remove_first_missing(m, x@);
    }
}

/// Once a concat step fails, the fold of every longer prefix fails the
/// same way.
proof fn lemma_concat_error_persists(
    strs0: Seq<Seq<char>>,
    ds: Seq<DiffModel>,
    i: int,
    e: AggregateError,
)
    requires
        0 <= i < ds.len(),
        concat_fold(strs0, ds.take(i)) matches Ok(m) && concat_step(m, ds[i]) == Err::<
            Seq<Seq<char>>,
            AggregateError,
        >(e),
    ensures
        concat_fold(strs0, ds) == Err::<Seq<Seq<char>>, AggregateError>(e),
    decreases ds.len(),
{
    if ds.len() == i + 1 {
        assert(ds.take(i) =~= ds.drop_last());
        assert(ds.last() == ds[i]);
    } else {
        assert(ds.drop_last().take(i) =~= ds.take(i));
        assert(ds.drop_last()[i] == ds[i]);
        lemma_concat_error_persists(strs0, ds.drop_last(), i, e);
    }
}

/// Fold one group through the GROUP_CONCAT path, from its old row and its
/// contributor list; see [`concat_outcome`].
fn concat_group(
    separator: &String,
    k: &Vec<DfValue>,
    strs0: Vec<String>,
    emit_identity: bool,
    diffs: &Vec<NumericalDiff>,
) -> (r: Result<(Option<Vec<DfValue>>, Vec<String>), AggregateError>)
    ensures
        match r {
            Ok(p) => concat_outcome(
                separator@,
                row_model(k@),
                crate::strfmt::strs_model(strs0@),
                emit_identity,
                diffs_model(diffs@),
            ) == Ok::<(Option<Seq<Val>>, Seq<Seq<char>>), AggregateError>(
                (opt_row_model(p.0), crate::strfmt::strs_model(p.1@)),
            ),
            Err(e) => concat_outcome(
                separator@,
                row_model(k@),
                crate::strfmt::strs_model(strs0@),
                emit_identity,
                diffs_model(diffs@),
            ) == Err::<(Option<Seq<Val>>, Seq<Seq<char>>), AggregateError>(e),
        },
{
    let ghost km = row_model(k@);
    let ghost s_init = crate::strfmt::strs_model(strs0@);
    let ghost ds = diffs_model(diffs@);
    let mut items = strs0;
    let n = diffs.len();
    let mut i: usize = 0;
    while i < n
        invariant
            n == diffs@.len(),
            0 <= i <= n,
            ds == diffs_model(diffs@),
            s_init == crate::strfmt::strs_model(strs0@),
            concat_fold(s_init, ds.take(i as int)) == Ok::<Seq<Seq<char>>, AggregateError>(
                crate::strfmt::strs_model(items@),
            ),
        decreases n - i,
    {
        let ghost m_pre = crate::strfmt::strs_model(items@);
        let d = &diffs[i];
        proof {
            assert(ds[i as int] == diffs@[i as int]@);
            assert(ds.take(i + 1).drop_last() =~= ds.take(i as int));
            assert(ds.take(i + 1).last() == ds[i as int]);
        }
        if !d.value.is_null() {
            match value_text(&d.value) {
                Ok(s) => {
                    if d.positive {
                        items.push(s);
                        proof {
                            assert(crate::strfmt::strs_model(items@) =~= m_pre.push(s@));
                        }
                    } else {
                        remove_first_string(&mut items, &s);
                    }
                },
                Err(e) => {
                    proof {
                        lemma_concat_error_persists(s_init, ds, i as int, e);
                    }
                    return Err(e);
                },
            }
        }
        proof {
            assert(concat_step(m_pre, ds[i as int]) == Ok::<Seq<Seq<char>>, AggregateError>(
                crate::strfmt::strs_model(items@),
            ));
        }
        i += 1;
    }
    proof {
        assert(ds.take(n as int) =~= ds);
    }
    proof {
        assert(crate::strfmt::strs_model(items@).len() == items@.len());
    }
    if (items.len() as u64) > 9223372036854775807u64 {
        return Err(AggregateError::Overflow);
    }
    if items.len() > 0 {
        let joined = crate::strfmt::join_strings(&items, separator.as_str());
        let mut row = clone_row(k);
        row.push(DfValue::Text(joined));
        let cnt: i64 = items.len() as i64;
        row.push(DfValue::Int(cnt));
        proof {
            assert(row_model(row@) =~= km + seq![
                Val::Text(join_seq(crate::strfmt::strs_model(items@), separator@)),
                Val::Int(items@.len() as int),
            ]);
        }
        Ok((Some(row), items))
    } else if emit_identity {
        let mut row = clone_row(k);
        row.push(DfValue::Text(String::new()));
        row.push(DfValue::Int(0));
        proof {
            assert(row_model(row@) =~= km + seq![Val::Text(Seq::<char>::empty()), Val::Int(0)]);
        }
        Ok((Some(row), items))
    } else {
        Ok((None, items))
    }
}


/// The models of a vector of grouping keys.
pub open spec fn keyvecs_model(ks: Seq<Vec<DfValue>>) -> Seq<Seq<Val>> {
    ks.map_values(|k: Vec<DfValue>| row_model(k@))
}

/// Whether some collected key has model `k`.
fn contains_row(ks: &Vec<Vec<DfValue>>, k: &Vec<DfValue>) -> (b: bool)
    ensures
        b == keyvecs_model(ks@).contains(row_model(k@)),
{
    let ghost m = keyvecs_model(ks@);
    let n = ks.len();
    let mut i: usize = 0;
    while i < n
        invariant
            n == ks@.len(),
            0 <= i <= n,
            m == keyvecs_model(ks@),
            forall|j: int| 0 <= j < i ==> m[j] != row_model(k@),
        decreases n - i,
    {
        if crate::keymap::keys_eq(&ks[i], k) {
            proof {
                assert(m[i as int] == row_model(k@));
            }
            return true;
        }
        proof {
            assert(m[i as int] == row_model(ks@[i as int]@));
        }
        i += 1;
    }
    proof {
        assert(forall|j: int| 0 <= j < m.len() ==> m[j] != row_model(k@));
        assert(!m.contains(row_model(k@)));
    }
    false
}

/// Copy a contributor list, string by string.
fn clone_strings(v: &Vec<String>) -> (c: Vec<String>)
    ensures
        c@ == v@,
{
    let n = v.len();
    let mut c: Vec<String> = Vec::new();
    let mut i: usize = 0;
    while i < n
        invariant
            n == v@.len(),
            0 <= i <= n,
            c@ == v@.take(i as int),
        decreases n - i,
    {
        c.push(v[i].clone());
        proof {
            assert(c@ =~= v@.take(i + 1));
        }
        i += 1;
    }
    proof {
        assert(v@.take(n as int) =~= v@);
    }
    c
}

/// Append the retraction/assertion rows that carry a group from its old
/// row to its new one.
fn push_emissions(
    out: &mut Vec<Record>,
    old_row: &Option<Vec<DfValue>>,
    new_row: &Option<Vec<DfValue>>,
)
    ensures
        recs_model(final(out)@) == recs_model(old(out)@) + emit_pair(
            opt_row_model(*old_row),
            opt_row_model(*new_row),
        ),
{
    match (old_row, new_row) {
        (None, None) => {
            proof {
                assert(recs_model(out@) =~= recs_model(out@) + emit_pair(
                    opt_row_model(*old_row),
                    opt_row_model(*new_row),
                ));
            }
        },
        (None, Some(nr)) => {
            out.push(Record::Positive(clone_row(nr)));
            proof {
                assert(recs_model(final(out)@) =~= recs_model(old(out)@) + emit_pair(
                    opt_row_model(*old_row),
                    opt_row_model(*new_row),
                ));
            }
        },
        (Some(or), None) => {
            out.push(Record::Negative(clone_row(or)));
            proof {
                assert(recs_model(final(out)@) =~= recs_model(old(out)@) + emit_pair(
                    opt_row_model(*old_row),
                    opt_row_model(*new_row),
                ));
            }
        },
        (Some(or), Some(nr)) => {
            if crate::keymap::keys_eq(or, nr) {
                proof {
                    assert(recs_model(out@) =~= recs_model(out@) + emit_pair(
                        opt_row_model(*old_row),
                        opt_row_model(*new_row),
                    ));
                }
            } else {
                out.push(Record::Negative(clone_row(or)));
                out.push(Record::Positive(clone_row(nr)));
                proof {
                    assert(recs_model(final(out)@) =~= recs_model(old(out)@) + emit_pair(
                        opt_row_model(*old_row),
                        opt_row_model(*new_row),
                    ));
                }
            }
        },
    }
}

/// The whole abstract state of a grouped operator: its configuration and
/// the three keyed maps it owns.
pub struct OpModel {
    pub op: Aggregation,
    pub over: usize,
    pub group: Seq<usize>,
    pub out_ty: crate::aggregate::DfType,
    pub state: Map<Seq<Val>, Seq<Val>>,
    pub aux: Map<Seq<Val>, (Val, Val)>,
    pub strs: Map<Seq<Val>, Seq<Seq<char>>>,
}

/// Everything one batch decides for one group.
pub struct GroupOutcome {
    pub emissions: Seq<RecModel>,
    pub new_row: Option<Seq<Val>>,
    pub aux: Option<(Val, Val)>,
    pub strs: Option<Seq<Seq<char>>>,
}

/// The outcome of one group of a batch: its emitted rows, its new
/// materialized row (if the group keeps one), and the auxiliary state to
/// store.  Only AVG stores an auxiliary pair and only GROUP_CONCAT a
/// contributor list; a previously-unseen group starts from zero state.
pub open spec fn group_outcome(m: OpModel, batch: Seq<RecModel>, k: Seq<Val>) -> Result<
    GroupOutcome,
    AggregateError,
> {
    let ds = group_diffs(batch, m.over, m.group, k);
    let old_row = if m.state.contains_key(k) {
        Option::Some(m.state[k])
    } else {
        Option::None
    };
    let emit_identity = (m.op is Count || m.op is GroupConcat) && m.group.len() == 0;
    match m.op {
        Aggregation::GroupConcat { separator } => {
            let strs0 = if m.strs.contains_key(k) {
                m.strs[k]
            } else {
                Seq::empty()
            };
            match concat_outcome(separator@, k, strs0, emit_identity, ds) {
                Err(e) => Err(e),
                Ok(p) => Ok(
                    GroupOutcome {
                        emissions: emit_pair(old_row, p.0),
                        new_row: p.0,
                        aux: Option::None,
                        strs: Option::Some(p.1),
                    },
                ),
            }
        },
        _ => {
            let pair0 = if m.aux.contains_key(k) {
                m.aux[k]
            } else {
                (Val::Numeric(0), Val::Int(0))
            };
            match numeric_outcome(
                m.op,
                m.out_ty,
                k,
                old_row,
                pair0,
                (if emit_identity {
                    Option::Some(Val::Int(0))
                } else {
                    Option::None
                }),
                ds,
            ) {
                Err(e) => Err(e),
                Ok(p) => Ok(
                    GroupOutcome {
                        emissions: emit_pair(old_row, p.0),
                        new_row: p.0,
                        aux: if m.op is Avg {
                            Option::Some(p.1)
                        } else {
                            Option::None
                        },
                        strs: Option::None,
                    },
                ),
            }
        },
    }
}

/// The emissions of a batch: each group's emissions, in group order; the
/// first failing group decides the error.
pub open spec fn groups_result(m: OpModel, batch: Seq<RecModel>, keys: Seq<Seq<Val>>) -> Result<
    Seq<RecModel>,
    AggregateError,
>
    decreases keys.len(),
{
    if keys.len() == 0 {
        Ok(Seq::empty())
    } else {
        match groups_result(m, batch, keys.drop_last()) {
            Ok(es) => match group_outcome(m, batch, keys.last()) {
                Ok(g) => Ok(es + g.emissions),
                Err(e) => Err(e),
            },
            Err(e) => Err(e),
        }
    }
}

/// Once a group fails, every longer key prefix fails the same way.
pub proof fn lemma_groups_error_persists(
    m: OpModel,
    batch: Seq<RecModel>,
    keys: Seq<Seq<Val>>,
    i: int,
    e: AggregateError,
)
    requires
        0 <= i < keys.len(),
        groups_result(m, batch, keys.take(i)) is Ok,
        group_outcome(m, batch, keys[i]) == Err::<GroupOutcome, AggregateError>(e),
    ensures
        groups_result(m, batch, keys) == Err::<Seq<RecModel>, AggregateError>(e),
    decreases keys.len(),
{
    if keys.len() == i + 1 {
        assert(keys.take(i) =~= keys.drop_last());
        assert(keys.last() == keys[i]);
    } else {
        assert(keys.drop_last().take(i) =~= keys.take(i));
        assert(keys.drop_last()[i] == keys[i]);
        lemma_groups_error_persists(m, batch, keys.drop_last(), i, e);
    }
}

/// What one `process` call does: nothing but report an internal fault when
/// some row is narrower than the validated schema, otherwise each group's
/// outcome in order of first appearance.
pub open spec fn process_spec(m: OpModel, batch: Seq<RecModel>) -> Result<
    Seq<RecModel>,
    AggregateError,
> {
    if !batch_ok(batch, m.over, m.group) {
        Err(AggregateError::Internal)
    } else {
        groups_result(m, batch, distinct_keys_of(batch, m.group))
    }
}

/// The three maps agree with `m0` at key `k`.
pub open spec fn unchanged_at(m0: OpModel, m1: OpModel, k: Seq<Val>) -> bool {
    &&& m1.state.contains_key(k) == m0.state.contains_key(k)
    &&& m0.state.contains_key(k) ==> m1.state[k] == m0.state[k]
    &&& m1.aux.contains_key(k) == m0.aux.contains_key(k)
    &&& m0.aux.contains_key(k) ==> m1.aux[k] == m0.aux[k]
    &&& m1.strs.contains_key(k) == m0.strs.contains_key(k)
    &&& m0.strs.contains_key(k) ==> m1.strs[k] == m0.strs[k]
}

/// The maps at key `k` reflect the group's outcome for this batch.
pub open spec fn updated_at(m0: OpModel, m1: OpModel, batch: Seq<RecModel>, k: Seq<Val>) -> bool {
    match group_outcome(m0, batch, k) {
        Ok(g) => {
            &&& match g.new_row {
                Option::Some(n) => m1.state.contains_key(k) && m1.state[k] == n,
                Option::None => !m1.state.contains_key(k),
            }
            &&& match g.aux {
                Option::Some(p) => m1.aux.contains_key(k) && m1.aux[k] == p,
                Option::None => m1.aux.contains_key(k) == m0.aux.contains_key(k) && (
                m0.aux.contains_key(k) ==> m1.aux[k] == m0.aux[k]),
            }
            &&& match g.strs {
                Option::Some(v) => m1.strs.contains_key(k) && m1.strs[k] == v,
                Option::None => m1.strs.contains_key(k) == m0.strs.contains_key(k) && (
                m0.strs.contains_key(k) ==> m1.strs[k] == m0.strs[k]),
            }
        },
        Err(_) => true,
    }
}

/// After a successful batch, every group present in the batch carries its
/// outcome and every other group is untouched.
pub open spec fn post_state_ok(m0: OpModel, m1: OpModel, batch: Seq<RecModel>) -> bool {
    let keys = distinct_keys_of(batch, m0.group);
    &&& forall|k: Seq<Val>| !keys.contains(k) ==> unchanged_at(m0, m1, k)
    &&& forall|k: Seq<Val>| #[trigger] keys.contains(k) ==> updated_at(m0, m1, batch, k)
}

/// One staged group matches its outcome.
pub open spec fn staged_matches(
    m0: OpModel,
    batch: Seq<RecModel>,
    k: Seq<Val>,
    entry: (Vec<DfValue>, Option<Vec<DfValue>>, Option<AverageDataPair>, Option<Vec<String>>),
) -> bool {
    &&& row_model(entry.0@) == k
    &&& match group_outcome(m0, batch, k) {
        Ok(g) => {
            &&& opt_row_model(entry.1) == g.new_row
            &&& match (entry.2, g.aux) {
                (Option::Some(p), Option::Some(gp)) => (p.sum@, p.count@) == gp,
                (Option::None, Option::None) => true,
                _ => false,
            }
            &&& match (entry.3, g.strs) {
                (Option::Some(v), Option::Some(gs)) => crate::strfmt::strs_model(v@) == gs,
                (Option::None, Option::None) => true,
                _ => false,
            }
        },
        Err(_) => false,
    }
}

/// A grouped incremental operator: an aggregation policy wired to the
/// materialized state it keeps consistent.
///
/// The operator owns three keyed maps: its own materialized output rows
/// (re-read on every batch, the self-lookup of the dataflow), AVG's
/// auxiliary sum/count pairs, and GROUP_CONCAT's contributor lists.  All
/// three are keyed by the exact grouping-key values.
pub struct GroupedOperator {
    /// The upstream node this operator reads from.
    pub src: usize,
    /// The aggregation policy.
    pub agg: crate::aggregate::Aggregator,
    /// The operator's own materialized output, keyed by grouping key.
    pub state: crate::keymap::KeyMap<Vec<DfValue>>,
    /// GROUP_CONCAT contributor lists, keyed by grouping key.
    pub concat_state: crate::keymap::KeyMap<Vec<String>>,
}

impl GroupedOperator {
    /// The operator's keyed maps are well-formed.
    pub open spec fn wf(&self) -> bool {
        self.state.wf() && self.concat_state.wf() && self.agg.count_sum_map.wf()
    }

    /// The abstract state of the operator.
    pub open spec fn model(&self) -> OpModel {
        OpModel {
            op: self.agg.op,
            over: self.agg.over,
            group: self.agg.group@,
            out_ty: self.agg.out_ty,
            state: self.state@.map_values(|r: Vec<DfValue>| row_model(r@)),
            aux: self.agg.count_sum_map@.map_values(|p: AverageDataPair| (p.sum@, p.count@)),
            strs: self.concat_state@.map_values(|v: Vec<String>| crate::strfmt::strs_model(v@)),
        }
    }

    /// Apply one batch's staged per-group changes to the operator's maps.
    /// Each staged entry carries its group's new materialized row (or its
    /// absence) and the auxiliary state to store; entries are keyed by
    /// pairwise-distinct grouping keys, so the commits are independent.
    #[verifier::loop_isolation(false)]
    #[verifier::rlimit(100)]
    fn commit_staged(
        &mut self,
        staged: Vec<
            (Vec<DfValue>, Option<Vec<DfValue>>, Option<AverageDataPair>, Option<Vec<String>>),
        >,
        Ghost(m0): Ghost<OpModel>,
        Ghost(batchm): Ghost<Seq<RecModel>>,
        Ghost(keysm): Ghost<Seq<Seq<Val>>>,
    )
        requires
            old(self).wf(),
            old(self).model() == m0,
            keysm == distinct_keys_of(batchm, m0.group),
            forall|p: int, q: int| 0 <= p < q < keysm.len() ==> keysm[p] != keysm[q],
            staged@.len() == keysm.len(),
            forall|jj: int|
                0 <= jj < keysm.len() ==> staged_matches(
                    m0,
                    batchm,
                    keysm[jj],
                    #[trigger] staged@[jj],
                ),
        ensures
            final(self).wf(),
            final(self).src == old(self).src,
            final(self).agg.op == old(self).agg.op,
            final(self).agg.over == old(self).agg.over,
            final(self).agg.group == old(self).agg.group,
            final(self).agg.out_ty == old(self).agg.out_ty,
            post_state_ok(m0, final(self).model(), batchm),
    {
        let ghost staged0 = staged@;
        let mut staged = staged;
        let sn = staged.len();
        let mut ci: usize = 0;
        while ci < sn
            invariant
                0 <= ci <= sn,
                sn == keysm.len(),
                staged@ == staged0.skip(ci as int),
                self.wf(),
                self.src == old(self).src,
                self.agg.op == old(self).agg.op,
                self.agg.over == old(self).agg.over,
                self.agg.group == old(self).agg.group,
                self.agg.out_ty == old(self).agg.out_ty,
                forall|k: Seq<Val>|
                    !keysm.take(ci as int).contains(k) ==> unchanged_at(m0, self.model(), k),
                forall|jj: int|
                    0 <= jj < ci ==> updated_at(m0, self.model(), batchm, #[trigger] keysm[jj]),
            decreases sn - ci,
        {
            let ghost m_pre = self.model();
            proof {
                assert(staged@[0] == staged0[ci as int]);
                assert(staged_matches(m0, batchm, keysm[ci as int], staged0[ci as int]));
                assert(!keysm.take(ci as int).contains(keysm[ci as int]));
                assert(unchanged_at(m0, m_pre, keysm[ci as int]));
            }
            let (kvec, new_row_opt, aux_opt, strs_opt) = staged.remove(0);
            let ghost km = keysm[ci as int];
            match new_row_opt {
                Some(rw) => {
                    self.state.set(clone_row(&kvec), rw);
                },
                None => {
                    self.state.remove(&kvec);
                },
            }
            match aux_opt {
                Some(p) => {
                    self.agg.count_sum_map.set(clone_row(&kvec), p);
                },
                None => {},
            }
            match strs_opt {
                Some(v) => {
                    self.concat_state.set(clone_row(&kvec), v);
                },
                None => {},
            }
            proof {
                let m_now = self.model();
                assert(updated_at(m0, m_now, batchm, km));
                assert forall|k: Seq<Val>| !keysm.take(ci + 1).contains(k) implies unchanged_at(
                    m0,
                    m_now,
                    k,
                ) by {
                    assert(!keysm.take(ci as int).contains(k));
                    assert(keysm.take(ci + 1)[ci as int] == km);
                    assert(k != km);
                    assert(unchanged_at(m0, m_pre, k));
                }
                assert forall|jj: int| 0 <= jj < ci + 1 implies updated_at(
                    m0,
                    m_now,
                    batchm,
                    #[trigger] keysm[jj],
                ) by {
                    if jj < ci {
                        assert(keysm[jj] != km);
                        assert(updated_at(m0, m_pre, batchm, keysm[jj]));
                    }
                }
            }
            ci += 1;
        }
        proof {
            assert(keysm.take(sn as int) =~= keysm);
        }
    }

    /// Turn a batch of signed input rows into the batch of signed output
    /// rows that keeps the materialized aggregate view consistent.
    ///
    /// Groups are processed in order of first appearance; each emits at
    /// most one retraction followed by at most one assertion.  The batch is
    /// all-or-nothing: on any error the operator's state is exactly as it
    /// was.
    #[verifier::loop_isolation(false)]
    #[verifier::rlimit(100)]
    pub fn process(&mut self, batch: &Vec<Record>) -> (r: Result<Vec<Record>, AggregateError>)
        requires
            old(self).wf(),
        ensures
            final(self).wf(),
            final(self).src == old(self).src,
            final(self).agg.op == old(self).agg.op,
            final(self).agg.over == old(self).agg.over,
            final(self).agg.group == old(self).agg.group,
            final(self).agg.out_ty == old(self).agg.out_ty,
            match r {
                Ok(out) => process_spec(old(self).model(), recs_model(batch@)) == Ok::<
                    Seq<RecModel>,
                    AggregateError,
                >(recs_model(out@)) && post_state_ok(
                    old(self).model(),
                    final(self).model(),
                    recs_model(batch@),
                ),
                Err(e) => process_spec(old(self).model(), recs_model(batch@)) == Err::<
                    Seq<RecModel>,
                    AggregateError,
                >(e) && *final(self) == *old(self),
            },
    {
        let ghost m0 = self.model();
        let ghost batchm = recs_model(batch@);
        let n = batch.len();

        // Partition: collect the distinct grouping keys in order of first
        // appearance, validating every row's width on the way.
        let mut keys: Vec<Vec<DfValue>> = Vec::new();
        let mut i: usize = 0;
        while i < n
            invariant
                0 <= i <= n,
                keyvecs_model(keys@) == distinct_keys_of(batchm.take(i as int), m0.group),
                forall|j: int|
                    0 <= j < i ==> row_len_ok(
                        #[trigger] batchm[j].row.len() as int,
                        m0.over,
                        m0.group,
                    ),
            decreases n - i,
        {
            proof {
                assert(batchm[i as int] == batch@[i as int]@);
                assert(batchm.take(i + 1).drop_last() =~= batchm.take(i as int));
                assert(batchm.take(i + 1).last() == batchm[i as int]);
            }
            let (row, pos) = match &batch[i] {
                Record::Positive(x) => (x, true),
                Record::Negative(x) => (x, false),
            };
            match self.agg.to_diff(row, pos) {
                Ok(d) => {
                    proof {
                        assert(self.agg.row_ok(row@.len() as int));
                        assert(rec_key(batchm[i as int], m0.group) == d@.group_key);
                    }
                    if !contains_row(&keys, &d.group_key) {
                        let ghost pk = keyvecs_model(keys@);
                        keys.push(d.group_key);
                        proof {
                            assert(keyvecs_model(keys@) =~= pk.push(
                                rec_key(batchm[i as int], m0.group),
                            ));
                        }
                    }
                },
                Err(_) => {
                    proof {
                        assert(!self.agg.row_ok(row@.len() as int));
                        assert(!row_len_ok(batchm[i as int].row.len() as int, m0.over, m0.group));
                        assert(!batch_ok(batchm, m0.over, m0.group));
                    }
                    return Err(AggregateError::Internal);
                },
            }
            i += 1;
        }
        proof {
            assert(batchm.take(n as int) =~= batchm);
            assert(batch_ok(batchm, m0.over, m0.group));
        }
        let ghost keysm = keyvecs_model(keys@);
        proof {
            assert(keysm == distinct_keys_of(batchm, m0.group));
        }

        // Fold each group, staging all state changes.
        let mut out: Vec<Record> = Vec::new();
        let mut staged: Vec<(Vec<DfValue>, Option<Vec<DfValue>>, Option<AverageDataPair>, Option<
            Vec<String>,
        >)> = Vec::new();
        proof {
            assert(keysm.take(0) =~= Seq::<Seq<Val>>::empty());
            assert(recs_model(out@) =~= Seq::<RecModel>::empty());
        }
        let kn = keys.len();
        let mut gi: usize = 0;
        while gi < kn
            invariant
                0 <= gi <= kn,
                kn == keys@.len(),
                keysm == keyvecs_model(keys@),
                groups_result(m0, batchm, keysm.take(gi as int)) == Ok::<
                    Seq<RecModel>,
                    AggregateError,
                >(recs_model(out@)),
                staged@.len() == gi as int,
                forall|jj: int|
                    0 <= jj < gi ==> staged_matches(m0, batchm, keysm[jj], #[trigger] staged@[jj]),
            decreases kn - gi,
        {
            let key = &keys[gi];
            let ghost km = keysm[gi as int];
            proof {
                assert(km == row_model(key@));
                assert(keysm.take(gi + 1).drop_last() =~= keysm.take(gi as int));
                assert(keysm.take(gi + 1).last() == keysm[gi as int]);
            }

            // The ordered diffs of this group.
            let mut diffs: Vec<NumericalDiff> = Vec::new();
            let mut bi: usize = 0;
            while bi < n
                invariant
                    0 <= bi <= n,
                    diffs_model(diffs@) == group_diffs(batchm.take(bi as int), m0.over, m0.group, km),
                decreases n - bi,
            {
                proof {
                    assert(batchm[bi as int] == batch@[bi as int]@);
                    assert(batchm.take(bi + 1).drop_last() =~= batchm.take(bi as int));
                    assert(batchm.take(bi + 1).last() == batchm[bi as int]);
                }
                let (row, pos) = match &batch[bi] {
                    Record::Positive(x) => (x, true),
                    Record::Negative(x) => (x, false),
                };
                match self.agg.to_diff(row, pos) {
                    Ok(d) => {
                        proof {
                            assert(d@ == rec_diff(batchm[bi as int], m0.over, m0.group));
                        }
                        if crate::keymap::keys_eq(&d.group_key, key) {
                            let ghost pd = diffs_model(diffs@);
                            diffs.push(d);
                            proof {
                                assert(diffs_model(diffs@) =~= pd.push(
                                    rec_diff(batchm[bi as int], m0.over, m0.group),
                                ));
                            }
                        }
                    },
                    Err(_) => {
                        proof {
                            assert(row_len_ok(
                                batchm[bi as int].row.len() as int,
                                m0.over,
                                m0.group,
                            ));
                            assert(batchm[bi as int].row.len() == row@.len());
                            assert(self.agg.row_ok(row@.len() as int));
                            assert(false);
                        }
                        return Err(AggregateError::Internal);
                    },
                }
                bi += 1;
            }
            proof {
                assert(batchm.take(n as int) =~= batchm);
                assert(diffs_model(diffs@) == group_diffs(batchm, m0.over, m0.group, km));
            }

            // The group's current output row, from the operator's own
            // materialized state.
            let old_row: Option<Vec<DfValue>> = match self.state.get(key) {
                Some(rrow) => Some(clone_row(rrow)),
                None => None,
            };
            proof {
                assert(m0.state.contains_key(km) == self.state@.contains_key(km));
                assert(opt_row_model(old_row) == (if m0.state.contains_key(km) {
                    Option::Some(m0.state[km])
                } else {
                    Option::<Seq<Val>>::None
                }));
            }

            match &self.agg.op {
                Aggregation::GroupConcat { separator } => {
                    let strs0: Vec<String> = match self.concat_state.get(key) {
                        Some(v) => clone_strings(v),
                        None => Vec::new(),
                    };
                    proof {
                        assert(crate::strfmt::strs_model(strs0@) == (if m0.strs.contains_key(km) {
                            m0.strs[km]
                        } else {
                            Seq::<Seq<char>>::empty()
                        }));
                    }
                    let emit_identity = self.agg.group.len() == 0;
                    match concat_group(separator, key, strs0, emit_identity, &diffs) {
                        Ok((new_row, s1)) => {
                            push_emissions(&mut out, &old_row, &new_row);
                            let ghost g = group_outcome(m0, batchm, km)->Ok_0;
                            proof {
                                assert(group_outcome(m0, batchm, km) == Ok::<
                                    GroupOutcome,
                                    AggregateError,
                                >(
                                    GroupOutcome {
                                        emissions: emit_pair(
                                            opt_row_model(old_row),
                                            opt_row_model(new_row),
                                        ),
                                        new_row: opt_row_model(new_row),
                                        aux: Option::None,
                                        strs: Option::Some(crate::strfmt::strs_model(s1@)),
                                    },
                                ));
                            }
                            staged.push((clone_row(key), new_row, None, Some(s1)));
                            proof {
                                assert(staged_matches(
                                    m0,
                                    batchm,
                                    keysm[gi as int],
                                    staged@[gi as int],
                                ));
                                assert(groups_result(m0, batchm, keysm.take(gi + 1)) == Ok::<
                                    Seq<RecModel>,
                                    AggregateError,
                                >(recs_model(out@)));
                            }
                        },
                        Err(e) => {
                            proof {
                                lemma_groups_error_persists(m0, batchm, keysm, gi as int, e);
                            }
                            return Err(e);
                        },
                    }
                },
                _ => {
                    let pair0 = match self.agg.count_sum_map.get(key) {
                        Some(p) => p.clone(),
                        None => AverageDataPair::zero(),
                    };
                    proof {
                        assert((pair0.sum@, pair0.count@) == (if m0.aux.contains_key(km) {
                            m0.aux[km]
                        } else {
                            (Val::Numeric(0), Val::Int(0))
                        }));
                    }
                    let identity: Option<DfValue> = if self.agg.emit_empty() {
                        self.agg.empty_value()
                    } else {
                        None
                    };
                    match numeric_group(&self.agg, key, &old_row, pair0, identity, &diffs) {
                        Ok((new_row, pair)) => {
                            push_emissions(&mut out, &old_row, &new_row);
                            proof {
                                assert(group_outcome(m0, batchm, km) == Ok::<
                                    GroupOutcome,
                                    AggregateError,
                                >(
                                    GroupOutcome {
                                        emissions: emit_pair(
                                            opt_row_model(old_row),
                                            opt_row_model(new_row),
                                        ),
                                        new_row: opt_row_model(new_row),
                                        aux: if m0.op is Avg {
                                            Option::Some((pair.sum@, pair.count@))
                                        } else {
                                            Option::None
                                        },
                                        strs: Option::None,
                                    },
                                ));
                            }
                            let aux_opt: Option<AverageDataPair> = match &self.agg.op {
                                Aggregation::Avg => Some(pair),
                                _ => None,
                            };
                            staged.push((clone_row(key), new_row, aux_opt, None));
                            proof {
                                assert(staged_matches(
                                    m0,
                                    batchm,
                                    keysm[gi as int],
                                    staged@[gi as int],
                                ));
                                assert(groups_result(m0, batchm, keysm.take(gi + 1)) == Ok::<
                                    Seq<RecModel>,
                                    AggregateError,
                                >(recs_model(out@)));
                            }
                        },
                        Err(e) => {
                            proof {
                                lemma_groups_error_persists(m0, batchm, keysm, gi as int, e);
                            }
                            return Err(e);
                        },
                    }
                },
            }
            gi += 1;
        }
        proof {
            assert(keysm.take(kn as int) =~= keysm);
        }

        // Commit: every group folded, so apply the staged changes.
        proof {
            lemma_distinct_keys_distinct(batchm, m0.group);
        }
        self.commit_staged(staged, Ghost(m0), Ghost(batchm), Ghost(keysm));
        Ok(out)
    }
}

/// The keys of a batch, in order of first appearance, are pairwise
/// distinct.
pub proof fn lemma_distinct_keys_distinct(batch: Seq<RecModel>, group: Seq<usize>)
    ensures
        forall|p: int, q: int|
            0 <= p < q < distinct_keys_of(batch, group).len() ==> distinct_keys_of(batch, group)[p]
                != distinct_keys_of(batch, group)[q],
    decreases batch.len(),
{
    if batch.len() > 0 {
        lemma_distinct_keys_distinct(batch.drop_last(), group);
        let prev = distinct_keys_of(batch.drop_last(), group);
        let k = rec_key(batch.last(), group);
        if !prev.contains(k) {
            assert forall|p: int, q: int|
                0 <= p < q < prev.push(k).len() implies prev.push(k)[p] != prev.push(k)[q] by {
                if q == prev.len() as int {
                    assert(prev.push(k)[q] == k);
                    assert(prev.push(k)[p] == prev[p]);
                    assert(prev.contains(prev[p]));
                } else {
                    assert(prev.push(k)[p] == prev[p]);
                    assert(prev.push(k)[q] == prev[q]);
                }
            }
        }
    }
}


impl Aggregation {
    /// Construct a grouped operator that performs this aggregation.
    ///
    /// The operator will aggregate the value in column `over` of its input
    /// (the node `src`), group by the columns in `group_by`, and infer its
    /// output type from the aggregation kind and the declared type of the
    /// aggregated column.  For a whole-relation COUNT or GROUP_CONCAT
    /// (empty grouping key) the identity row is materialized up front, so
    /// that the view yields a zero/empty row before any input ever
    /// arrives; under every other configuration the view starts empty.
    pub fn over(
        self,
        src: usize,
        over: usize,
        group_by: &Vec<usize>,
        over_col_ty: &crate::aggregate::DfType,
    ) -> (r: Result<GroupedOperator, AggregateError>)
        ensures
            r matches Ok(g) && ({
                let identity_row = (g.agg.op is Count || g.agg.op is GroupConcat)
                    && group_by@.len() == 0;
                &&& g.wf()
                &&& g.src == src
                &&& g.agg.op == self
                &&& g.agg.over == over
                &&& g.agg.group@ == group_by@
                &&& g.agg.out_ty == crate::aggregate::infer_out_ty(self, *over_col_ty)
                &&& g.model().aux == Map::<Seq<Val>, (Val, Val)>::empty()
                &&& g.model().strs == Map::<Seq<Val>, Seq<Seq<char>>>::empty()
                &&& if identity_row {
                    g.model().state == Map::<Seq<Val>, Seq<Val>>::empty().insert(
                        Seq::empty(),
                        seq![
                            (if self is Count {
                                Val::Int(0)
                            } else {
                                Val::Text(Seq::empty())
                            }),
                            Val::Int(0),
                        ],
                    )
                } else {
                    g.model().state == Map::<Seq<Val>, Seq<Val>>::empty()
                }
            }),
    {
        let mut group: Vec<usize> = Vec::new();
        let gn = group_by.len();
        let mut i: usize = 0;
        while i < gn
            invariant
                gn == group_by@.len(),
                0 <= i <= gn,
                group@ == group_by@.take(i as int),
            decreases gn - i,
        {
            group.push(group_by[i]);
            proof {
                assert(group@ =~= group_by@.take(i + 1));
            }
            i += 1;
        }
        proof {
            assert(group_by@.take(gn as int) =~= group_by@);
        }
        let out_ty = match &self {
            Aggregation::Count => crate::aggregate::DfType::BigInt,
            Aggregation::Sum | Aggregation::Avg => {
                if over_col_ty.is_any_float() {
                    crate::aggregate::DfType::Double
                } else {
                    crate::aggregate::DfType::Numeric
                }
            },
            Aggregation::GroupConcat { .. } => crate::aggregate::DfType::Text,
        };
        let agg = crate::aggregate::Aggregator {
            op: self,
            over,
            group,
            count_sum_map: crate::keymap::KeyMap::new(),
            out_ty,
        };
        let mut g = GroupedOperator {
            src,
            agg,
            state: crate::keymap::KeyMap::new(),
            concat_state: crate::keymap::KeyMap::new(),
        };
        if g.agg.emit_empty() {
            let empty_key: Vec<DfValue> = Vec::new();
            let mut row: Vec<DfValue> = Vec::new();
            match g.agg.empty_value() {
                Some(v) => {
                    row.push(v);
                },
                None => {
                    proof {
                        assert(false);
                    }
                },
            }
            row.push(DfValue::Int(0));
            proof {
                assert(row_model(empty_key@) =~= Seq::<Val>::empty());
                assert(row_model(row@) =~= seq![
                    (if g.agg.op is Count {
                        Val::Int(0)
                    } else {
                        Val::Text(Seq::empty())
                    }),
                    Val::Int(0),
                ]);
            }
            g.state.set(empty_key, row);
        }
        proof {
            assert(g.model().aux =~= Map::<Seq<Val>, (Val, Val)>::empty());
            assert(g.model().strs =~= Map::<Seq<Val>, Seq<Seq<char>>>::empty());
            if (g.agg.op is Count || g.agg.op is GroupConcat) && group_by@.len() == 0 {
                assert(g.model().state =~= Map::<Seq<Val>, Seq<Val>>::empty().insert(
                    Seq::empty(),
                    seq![
                        (if g.agg.op is Count {
                            Val::Int(0)
                        } else {
                            Val::Text(Seq::empty())
                        }),
                        Val::Int(0),
                    ],
                ));
            } else {
                assert(g.model().state =~= Map::<Seq<Val>, Seq<Val>>::empty());
            }
        }
        Ok(g)
    }
}

impl GroupedOperator {
    /// Describe this operator; see
    /// [`crate::aggregate::spec_description`].
    pub fn description(&self, detailed: bool) -> (r: String)
        ensures
            r@ == crate::aggregate::spec_description(
                self.agg.op,
                self.agg.over,
                self.agg.group@,
                detailed,
            ),
    {
        self.agg.description(detailed)
    }

    /// The group's current materialized output row, if any: the operator's
    /// self-lookup, also usable by readers of the view.
    pub fn lookup(&self, key: &Vec<DfValue>) -> (r: Option<&Vec<DfValue>>)
        requires
            self.wf(),
        ensures
            match r {
                Some(row) => self.model().state.contains_key(row_model(key@)) && row_model(row@)
                    == self.model().state[row_model(key@)],
                None => !self.model().state.contains_key(row_model(key@)),
            },
    {
        self.state.get(key)
    }

    /// The columns the operator needs indexed on its own output (keyed by
    /// this node): always exactly the grouping-key columns.
    pub fn suggest_indexes(&self, this: usize) -> (r: (usize, Vec<usize>))
        ensures
            r.0 == this,
            r.1@ == self.agg.group@,
    {
        let mut cols: Vec<usize> = Vec::new();
        let gn = self.agg.group.len();
        let mut i: usize = 0;
        while i < gn
            invariant
                gn == self.agg.group@.len(),
                0 <= i <= gn,
                cols@ == self.agg.group@.take(i as int),
            decreases gn - i,
        {
            cols.push(self.agg.group[i]);
            proof {
                assert(cols@ =~= self.agg.group@.take(i + 1));
            }
            i += 1;
        }
        proof {
            assert(self.agg.group@.take(gn as int) =~= self.agg.group@);
        }
        (this, cols)
    }

    /// Resolve an output column to the source column it carries: the first
    /// columns of an output row are the grouping-key columns in grouping
    /// order; the aggregate value and count columns are computed and
    /// resolve to nothing.
    pub fn resolve(&self, col: usize) -> (r: Option<Vec<(usize, usize)>>)
        ensures
            match r {
                Some(v) => col < self.agg.group@.len() && v@ == seq![
                    (self.src, self.agg.group@[col as int]),
                ],
                None => col >= self.agg.group@.len(),
            },
    {
        if col < self.agg.group.len() {
            let mut v: Vec<(usize, usize)> = Vec::new();
            v.push((self.src, self.agg.group[col]));
            proof {
                assert(v@ =~= seq![(self.src, self.agg.group@[col as int])]);
            }
            Some(v)
        } else {
            None
        }
    }
}

} // verus!
