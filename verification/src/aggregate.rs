//! Aggregation policies: COUNT, SUM, AVG and GROUP_CONCAT.
//!
//! A policy turns each incoming signed row into a [`NumericalDiff`] and
//! folds diffs, in arrival order, onto a group's running value.  AVG is
//! decomposable: it keeps an exact `(sum, count)` pair per group (the
//! [`AverageDataPair`]) and derives the visible average only at the end of a
//! fold, so repeated compensating updates can never accumulate error.
//! GROUP_CONCAT is not expressible as a numeric fold under retraction and is
//! deliberately rejected by the numeric path; the grouped operator keeps a
//! per-group multiset of contributing strings for it instead.

use vstd::prelude::*;

use crate::error::AggregateError;
use crate::keymap::{row_model, KeyMap};
use crate::value::{res_model, spec_add, spec_div_count, spec_sub, DfValue, Val};

verus! {

/// The declared type of a column, as the engine needs to know it.
#[derive(Clone, Copy, Debug, PartialEq, Eq, Structural)]
pub enum DfType {
    /// Type not known to the planner.
    Unknown,
    /// 64-bit integer.
    BigInt,
    /// Double-precision floating point.  The exact engine cannot compute on
    /// values of this type; an aggregation inferring it is refused when it
    /// first processes a batch.
    Double,
    /// Single-precision floating point; refused like `Double`.
    Float,
    /// Exact fixed-point decimal.
    Numeric,
    /// Text.
    Text,
}

impl DfType {
    /// Whether this is a floating-point type.
    pub fn is_any_float(&self) -> (r: bool)
        ensures
            r == (*self is Double || *self is Float),
    {
        match self {
            DfType::Double | DfType::Float => true,
            _ => false,
        }
    }
}

/// Supported aggregation operators.
#[derive(Debug)]
pub enum Aggregation {
    /// Count the number of non-null values.
    Count,
    /// Sum the value of the `over` column for all records of each group.
    Sum,
    /// Average the value of the `over` column, tracking an exact sum and
    /// count per group.
    Avg,
    /// Concatenate the values of the `over` column, separated by the given
    /// separator.
    GroupConcat { separator: String },
}

impl Clone for Aggregation {
    fn clone(&self) -> (res: Aggregation)
        ensures
            res == *self,
    {
        match self {
            Aggregation::Count => Aggregation::Count,
            Aggregation::Sum => Aggregation::Sum,
            Aggregation::Avg => Aggregation::Avg,
            Aggregation::GroupConcat { separator } => Aggregation::GroupConcat {
                separator: separator.clone(),
            },
        }
    }
}

/// Model of a [`NumericalDiff`].
pub struct DiffModel {
    pub value: Val,
    pub positive: bool,
    pub group_key: Seq<Val>,
}

/// Diff type for numerical aggregations: the extracted contribution of one
/// signed row.
pub struct NumericalDiff {
    /// Value of the `over` column of the row.
    pub value: DfValue,
    /// True if the row asserts membership, false if it retracts it.
    pub positive: bool,
    /// The values of the group-by columns, in grouping order.  Auxiliary
    /// state is keyed by these exact values — not by a digest of them — so
    /// two distinct groups can never share state.
    pub group_key: Vec<DfValue>,
}

impl View for NumericalDiff {
    type V = DiffModel;

    open spec fn view(&self) -> DiffModel {
        DiffModel {
            value: self.value@,
            positive: self.positive,
            group_key: row_model(self.group_key@),
        }
    }
}

/// The models of a sequence of diffs.
pub open spec fn diffs_model(ds: Seq<NumericalDiff>) -> Seq<DiffModel> {
    ds.map_values(|d: NumericalDiff| d@)
}

/// Running state of one group's fold: the visible accumulator plus the
/// auxiliary sum and count used by AVG.
pub struct FoldState {
    pub acc: Val,
    pub sum: Val,
    pub count: Val,
}

/// The average a `(sum, count)` pair derives: `sum / count` when the count
/// is positive, zero otherwise.
pub open spec fn avg_derived(sum: Val, count: Val) -> Result<Val, AggregateError> {
    match count {
        Val::Int(c) => if c > 0 {
            spec_div_count(sum, c)
        } else {
            Ok(Val::Numeric(0))
        },
        _ => Err(AggregateError::TypeMismatch),
    }
}

/// One step of the numeric fold.  A diff whose value is NULL is a no-op;
/// otherwise COUNT adds or removes one, SUM adds or removes the carried
/// value, and AVG updates the auxiliary pair and re-derives the average.
/// GROUP_CONCAT diffs must never reach this path.
pub open spec fn fold_step(op: Aggregation, st: FoldState, d: DiffModel) -> Result<
    FoldState,
    AggregateError,
> {
    if d.value is Null {
        Ok(st)
    } else {
        match op {
            Aggregation::Count => match (if d.positive {
                spec_add(st.acc, Val::Int(1))
            } else {
                spec_sub(st.acc, Val::Int(1))
            }) {
                Ok(v) => Ok(FoldState { acc: v, sum: st.sum, count: st.count }),
                Err(e) => Err(e),
            },
            Aggregation::Sum => match (if d.positive {
                spec_add(st.acc, d.value)
            } else {
                spec_sub(st.acc, d.value)
            }) {
                Ok(v) => Ok(FoldState { acc: v, sum: st.sum, count: st.count }),
                Err(e) => Err(e),
            },
            Aggregation::Avg => match (if d.positive {
                spec_add(st.sum, d.value)
            } else {
                spec_sub(st.sum, d.value)
            }) {
                Ok(s) => match (if d.positive {
                    spec_add(st.count, Val::Int(1))
                } else {
                    spec_sub(st.count, Val::Int(1))
                }) {
                    Ok(c) => match avg_derived(s, c) {
                        Ok(v) => Ok(FoldState { acc: v, sum: s, count: c }),
                        Err(e) => Err(e),
                    },
                    Err(e) => Err(e),
                },
                Err(e) => Err(e),
            },
            Aggregation::GroupConcat { .. } => Err(AggregateError::Internal),
        }
    }
}

/// Folding a whole sequence of diffs, in order; the first failing step
/// decides the error.
pub open spec fn fold_diffs(op: Aggregation, st: FoldState, ds: Seq<DiffModel>) -> Result<
    FoldState,
    AggregateError,
>
    decreases ds.len(),
{
    if ds.len() == 0 {
        Ok(st)
    } else {
        match fold_diffs(op, st, ds.drop_last()) {
            Ok(m) => fold_step(op, m, ds.last()),
            Err(e) => Err(e),
        }
    }
}

/// Once a fold step fails, the fold of every longer prefix fails the same
/// way.
pub proof fn lemma_fold_error_persists(
    op: Aggregation,
    st: FoldState,
    ds: Seq<DiffModel>,
    i: int,
    e: AggregateError,
)
    requires
        0 <= i < ds.len(),
        fold_diffs(op, st, ds.take(i)) matches Ok(m) && fold_step(op, m, ds[i]) == Err::<
            FoldState,
            AggregateError,
        >(e),
    ensures
        fold_diffs(op, st, ds) == Err::<FoldState, AggregateError>(e),
    decreases ds.len(),
{
    if ds.len() == i + 1 {
        assert(ds.take(i) =~= ds.drop_last());
        assert(ds.last() == ds[i]);
    } else {
        assert(ds.drop_last().take(i) =~= ds.take(i));
        assert(ds.drop_last()[i] == ds[i]);
        lemma_fold_error_persists(op, st, ds.drop_last(), i, e);
    }
}

/// The identity value for an inferred output type: what a group starts
/// from when it has no materialized row yet.
pub open spec fn spec_new_data(t: DfType) -> Result<Val, AggregateError> {
    match t {
        DfType::BigInt => Ok(Val::Int(0)),
        DfType::Numeric => Ok(Val::Numeric(0)),
        DfType::Text => Ok(Val::Text(Seq::empty())),
        DfType::Double | DfType::Float => Err(AggregateError::UnsupportedType),
        DfType::Unknown => Err(AggregateError::Internal),
    }
}

/// The projection of a row onto the grouping-key columns.
pub open spec fn project_key(row: Seq<Val>, group: Seq<usize>) -> Seq<Val> {
    Seq::new(group.len(), |i: int| row[group[i] as int])
}

/// For storing (count, sum) in auxiliary state for AVG.
pub struct AverageDataPair {
    pub count: DfValue,
    pub sum: DfValue,
}

impl Clone for AverageDataPair {
    fn clone(&self) -> (res: AverageDataPair)
        ensures
            res == *self,
    {
        AverageDataPair { count: self.count.clone(), sum: self.sum.clone() }
    }
}

impl AverageDataPair {
    /// The pair a previously-unseen group starts from: sum 0, count 0.
    pub fn zero() -> (r: AverageDataPair)
        ensures
            r.sum@ == Val::Numeric(0),
            r.count@ == Val::Int(0),
    {
        AverageDataPair { count: DfValue::Int(0), sum: DfValue::Numeric(0) }
    }

    /// Fold one diff into the pair and derive the group's new average.
    /// Mirrors the AVG case of [`fold_step`]; on an error the pair may be
    /// left partially updated and must be discarded by the caller.
    pub fn apply_diff(&mut self, d: &NumericalDiff) -> (r: Result<DfValue, AggregateError>)
        ensures
            ({
                let s2 = if d@.positive {
                    spec_add(old(self).sum@, d@.value)
                } else {
                    spec_sub(old(self).sum@, d@.value)
                };
                match s2 {
                    Err(e) => res_model(r) == Err::<Val, AggregateError>(e),
                    Ok(s) => {
                        let c2 = if d@.positive {
                            spec_add(old(self).count@, Val::Int(1))
                        } else {
                            spec_sub(old(self).count@, Val::Int(1))
                        };
                        match c2 {
                            Err(e) => res_model(r) == Err::<Val, AggregateError>(e),
                            Ok(c) => final(self).sum@ == s && final(self).count@ == c && match
                                avg_derived(s, c) {
                                Err(e) => res_model(r) == Err::<Val, AggregateError>(e),
                                Ok(v) => res_model(r) == Ok::<Val, AggregateError>(v),
                            },
                        }
                    },
                }
            }),
    {
        if d.positive {
            let s = match self.sum.try_add(&d.value) {
                Ok(v) => v,
                Err(e) => {
                    return Err(e);
                },
            };
            self.sum = s;
            let c = match self.count.try_add(&DfValue::Int(1)) {
                Ok(v) => v,
                Err(e) => {
                    return Err(e);
                },
            };
            self.count = c;
        } else {
            let s = match self.sum.try_sub(&d.value) {
                Ok(v) => v,
                Err(e) => {
                    return Err(e);
                },
            };
            self.sum = s;
            let c = match self.count.try_sub(&DfValue::Int(1)) {
                Ok(v) => v,
                Err(e) => {
                    return Err(e);
                },
            };
            self.count = c;
        }
        match self.count.as_int() {
            Some(c) => {
                if c > 0 {
                    self.sum.try_div_count(c)
                } else {
                    Ok(DfValue::Numeric(0))
                }
            },
            None => Err(AggregateError::TypeMismatch),
        }
    }
}

/// The aggregation policy of one grouped operator: the operation, the
/// aggregated-over column, the grouping-key columns, the inferred output
/// type, and — only used by AVG — the per-group auxiliary state.
pub struct Aggregator {
    pub op: Aggregation,
    pub over: usize,
    pub group: Vec<usize>,
    pub count_sum_map: KeyMap<AverageDataPair>,
    pub out_ty: DfType,
}

impl Aggregator {
    /// Validate this aggregator against the width of its upstream schema.
    /// An aggregated-over or grouping column outside the schema is a
    /// construction-time error, caught once when the operator is attached
    /// to its upstream — never per row.
    pub fn setup(&self, parent_columns: usize) -> (r: Result<(), AggregateError>)
        ensures
            r is Ok <==> (self.over < parent_columns && forall|j: int|
                0 <= j < self.group@.len() ==> (self.group@[j] as int) < parent_columns),
            r is Err ==> r == Err::<(), AggregateError>(AggregateError::InvalidColumn),
    {
        if self.over >= parent_columns {
            return Err(AggregateError::InvalidColumn);
        }
        let n = self.group.len();
        let mut j: usize = 0;
        while j < n
            invariant
                0 <= j <= n,
                n == self.group@.len(),
                self.over < parent_columns,
                forall|p: int| 0 <= p < j ==> (self.group@[p] as int) < parent_columns,
            decreases n - j,
        {
            if self.group[j] >= parent_columns {
                return Err(AggregateError::InvalidColumn);
            }
            j += 1;
        }
        Ok(())
    }

    /// The columns this operator groups by.
    pub fn group_by(&self) -> (r: &Vec<usize>)
        ensures
            r@ == self.group@,
    {
        &self.group
    }

    /// The column this operator aggregates over.
    pub fn over_column(&self) -> (r: usize)
        ensures
            r == self.over,
    {
        self.over
    }

    /// The inferred type of the output (aggregate value) column.
    pub fn output_col_type(&self) -> (r: DfType)
        ensures
            r == self.out_ty,
    {
        self.out_ty
    }

    /// The identity value for a group that has never seen a row, if this
    /// policy materializes one: 0 for COUNT, the empty string for
    /// GROUP_CONCAT, nothing for SUM and AVG.
    pub fn empty_value(&self) -> (r: Option<DfValue>)
        ensures
            match r {
                Some(v) => (self.op is Count && v@ == Val::Int(0)) || (self.op is GroupConcat
                    && v@ == Val::Text(Seq::empty())),
                None => !(self.op is Count) && !(self.op is GroupConcat),
            },
    {
        match &self.op {
            Aggregation::Count => Some(DfValue::Int(0)),
            Aggregation::GroupConcat { .. } => Some(DfValue::Text(String::new())),
            _ => None,
        }
    }

    /// Whether a group with zero members must still emit its identity row:
    /// true only for COUNT and GROUP_CONCAT over a whole relation (empty
    /// grouping key), so that counting an empty table yields one zero row.
    pub fn emit_empty(&self) -> (r: bool)
        ensures
            r == ((self.op is Count || self.op is GroupConcat) && self.group@.len() == 0),
    {
        match &self.op {
            Aggregation::Count | Aggregation::GroupConcat { .. } => self.group.len() == 0,
            _ => false,
        }
    }

    /// The value a fold starts from when the group has no materialized row,
    /// per the inferred output type; see [`spec_new_data`].
    pub fn new_data(&self) -> (r: Result<DfValue, AggregateError>)
        ensures
            res_model(r) == spec_new_data(self.out_ty),
    {
        match self.out_ty {
            DfType::BigInt => Ok(DfValue::Int(0)),
            DfType::Numeric => Ok(DfValue::Numeric(0)),
            DfType::Text => Ok(DfValue::Text(String::new())),
            DfType::Double | DfType::Float => Err(AggregateError::UnsupportedType),
            DfType::Unknown => Err(AggregateError::Internal),
        }
    }

    /// Whether a row is wide enough for this aggregator's configured
    /// columns.
    pub open spec fn row_ok(&self, row_len: int) -> bool {
        self.over < row_len && forall|i: int|
            0 <= i < self.group@.len() ==> (self.group@[i] as int) < row_len
    }

    /// Extract the diff a signed row contributes: the `over` value, the
    /// sign, and the exact grouping-key values.  A row narrower than the
    /// validated schema is an internal fault.
    pub fn to_diff(&self, r: &Vec<DfValue>, pos: bool) -> (res: Result<
        NumericalDiff,
        AggregateError,
    >)
        ensures
            self.row_ok(r@.len() as int) ==> (res matches Ok(d)
                && d@.value == row_model(r@)[self.over as int]
                && d@.positive == pos
                && d@.group_key == project_key(row_model(r@), self.group@)),
            !self.row_ok(r@.len() as int) ==> res == Err::<NumericalDiff, AggregateError>(
                AggregateError::Internal,
            ),
    {
        if self.over >= r.len() {
            return Err(AggregateError::Internal);
        }
        let klen = self.group.len();
        let mut key: Vec<DfValue> = Vec::new();
        let mut i: usize = 0;
        while i < klen
            invariant
                klen == self.group@.len(),
                0 <= i <= klen,
                forall|j: int| 0 <= j < i ==> (self.group@[j] as int) < r@.len(),
                key@.len() == i as int,
                forall|j: int| 0 <= j < i ==> #[trigger] key@[j]@ == r@[self.group@[j] as int]@,
            decreases klen - i,
        {
            let col = self.group[i];
            if col >= r.len() {
                return Err(AggregateError::Internal);
            }
            key.push(r[col].clone());
            i += 1;
        }
        proof {
            assert forall|j: int| 0 <= j < klen implies row_model(key@)[j] == project_key(
                row_model(r@),
                self.group@,
            )[j] by {
                assert(row_model(key@)[j] == key@[j]@);
                assert(row_model(r@)[self.group@[j] as int] == r@[self.group@[j] as int]@);
            }
            assert(row_model(key@) =~= project_key(row_model(r@), self.group@));
        }
        Ok(NumericalDiff { value: r[self.over].clone(), positive: pos, group_key: key })
    }

    /// Fold a group's diffs, in order, onto its current value.
    ///
    /// `current` is the group's materialized value (`None` when the group
    /// has no row yet, in which case the fold starts from the policy's
    /// identity).  `aux` is the group's auxiliary pair; only AVG reads or
    /// writes it — under every other operation it comes back untouched —
    /// and on an AVG error it may be left partially updated and must be
    /// discarded, never committed.  GROUP_CONCAT diffs are an internal
    /// contract violation here: they are kept out of the numeric fold path
    /// by design.
    #[verifier::rlimit(50)]
    pub fn apply(
        &self,
        current: Option<&DfValue>,
        diffs: &Vec<NumericalDiff>,
        aux: &mut AverageDataPair,
    ) -> (r: Result<DfValue, AggregateError>)
        ensures
            !(self.op is Avg) ==> *final(aux) == *old(aux),
            ({
                let init = match current {
                    Some(v) => Ok(v@),
                    None => spec_new_data(self.out_ty),
                };
                match init {
                    Err(e) => res_model(r) == Err::<Val, AggregateError>(e),
                    Ok(a0) => {
                        let f = fold_diffs(
                            self.op,
                            FoldState { acc: a0, sum: old(aux).sum@, count: old(aux).count@ },
                            diffs_model(diffs@),
                        );
                        match f {
                            Ok(m) => res_model(r) == Ok::<Val, AggregateError>(m.acc)
                                && final(aux).sum@ == m.sum
                                && final(aux).count@ == m.count,
                            Err(e) => res_model(r) == Err::<Val, AggregateError>(e),
                        }
                    },
                }
            }),
    {
        let ghost ds = diffs_model(diffs@);
        let ghost sum0 = aux.sum@;
        let ghost count0 = aux.count@;
        let mut acc: DfValue = match current {
            Some(v) => v.clone(),
            None => match self.new_data() {
                Ok(v) => v,
                Err(e) => {
                    return Err(e);
                },
            },
        };
        let ghost st0 = FoldState { acc: acc@, sum: sum0, count: count0 };
        let n = diffs.len();
        let mut i: usize = 0;
        while i < n
            invariant
                n == diffs@.len(),
                0 <= i <= n,
                ds == diffs_model(diffs@),
                st0.sum == old(aux).sum@,
                st0.count == old(aux).count@,
                !(self.op is Avg) ==> *aux == *old(aux),
                match current {
                    Some(v) => st0.acc == v@,
                    None => spec_new_data(self.out_ty) == Ok::<Val, AggregateError>(st0.acc),
                },
                fold_diffs(self.op, st0, ds.take(i as int)) == Ok::<FoldState, AggregateError>(
                    FoldState { acc: acc@, sum: aux.sum@, count: aux.count@ },
                ),
            decreases n - i,
        {
            let ghost m_pre = FoldState { acc: acc@, sum: aux.sum@, count: aux.count@ };
            let d = &diffs[i];
            proof {
                assert(ds[i as int] == diffs@[i as int]@);
                assert(ds.take(i + 1).drop_last() =~= ds.take(i as int));
                assert(ds.take(i + 1).last() == ds[i as int]);
            }
            if !d.value.is_null() {
                match &self.op {
                    Aggregation::Count => {
                        let step = if d.positive {
                            acc.try_add(&DfValue::Int(1))
                        } else {
                            acc.try_sub(&DfValue::Int(1))
                        };
                        match step {
                            Ok(v) => {
                                acc = v;
                            },
                            Err(e) => {
                                proof {
                                    lemma_fold_error_persists(self.op, st0, ds, i as int, e);
                                }
                                return Err(e);
                            },
                        }
                    },
                    Aggregation::Sum => {
                        let step = if d.positive {
                            acc.try_add(&d.value)
                        } else {
                            acc.try_sub(&d.value)
                        };
                        match step {
                            Ok(v) => {
                                acc = v;
                            },
                            Err(e) => {
                                proof {
                                    lemma_fold_error_persists(self.op, st0, ds, i as int, e);
                                }
                                return Err(e);
                            },
                        }
                    },
                    Aggregation::Avg => {
                        match aux.apply_diff(d) {
                            Ok(v) => {
                                acc = v;
                            },
                            Err(e) => {
                                proof {
                                    lemma_fold_error_persists(self.op, st0, ds, i as int, e);
                                }
                                return Err(e);
                            },
                        }
                    },
                    Aggregation::GroupConcat { .. } => {
                        proof {
                            lemma_fold_error_persists(
                                self.op,
                                st0,
                                ds,
                                i as int,
                                AggregateError::Internal,
                            );
                        }
                        return Err(AggregateError::Internal);
                    },
                }
            }
            proof {
                assert(fold_step(self.op, m_pre, ds[i as int]) == Ok::<FoldState, AggregateError>(
                    FoldState { acc: acc@, sum: aux.sum@, count: aux.count@ },
                ));
                assert(fold_diffs(self.op, st0, ds.take(i + 1)) == Ok::<
                    FoldState,
                    AggregateError,
                >(FoldState { acc: acc@, sum: aux.sum@, count: aux.count@ }));
            }
            i += 1;
        }
        proof {
            assert(ds.take(n as int) =~= ds);
        }
        Ok(acc)
    }
}


/// The output type an aggregation infers from the type of the column it
/// aggregates over: COUNT yields a 64-bit integer, SUM and AVG a double
/// for floating-point inputs and an exact decimal otherwise, GROUP_CONCAT
/// text.  The inferred type is fixed for the operator's lifetime.
pub open spec fn infer_out_ty(op: Aggregation, t: DfType) -> DfType {
    match op {
        Aggregation::Count => DfType::BigInt,
        Aggregation::Sum | Aggregation::Avg => if t is Double || t is Float {
            DfType::Double
        } else {
            DfType::Numeric
        },
        Aggregation::GroupConcat { .. } => DfType::Text,
    }
}

/// The column list of a detailed description, joined with ", ".
pub open spec fn spec_group_list(group: Seq<usize>) -> Seq<char>
    decreases group.len(),
{
    if group.len() == 0 {
        Seq::empty()
    } else if group.len() == 1 {
        crate::strfmt::dec_str(group[0] as nat)
    } else {
        spec_group_list(group.drop_last()) + ", "@ + crate::strfmt::dec_str(group.last() as nat)
    }
}

/// The human-readable description of an aggregator: a compact symbol, or
/// the operator with its aggregated column and its grouping columns.
pub open spec fn spec_description(
    op: Aggregation,
    over: usize,
    group: Seq<usize>,
    detailed: bool,
) -> Seq<char> {
    if !detailed {
        match op {
            Aggregation::Count => "+"@,
            Aggregation::Sum => "\u{1d6f4}"@,
            Aggregation::Avg => "Avg"@,
            Aggregation::GroupConcat { separator } => "||("@ + separator@ + ")"@,
        }
    } else {
        let op_str = match op {
            Aggregation::Count => "|*|"@,
            Aggregation::Sum => "\u{1d6f4}("@ + crate::strfmt::dec_str(over as nat) + ")"@,
            Aggregation::Avg => "Avg("@ + crate::strfmt::dec_str(over as nat) + ")"@,
            Aggregation::GroupConcat { separator } => "||("@ + separator@ + ", "@
                + crate::strfmt::dec_str(over as nat) + ")"@,
        };
        op_str + " \u{3b3}["@ + spec_group_list(group) + "]"@
    }
}

impl Aggregator {
    /// Append the grouping columns, joined with ", ".
    fn push_group_list(&self, s: &mut String)
        ensures
            final(s)@ == old(s)@ + spec_group_list(self.group@),
    {
        let n = self.group.len();
        let ghost g = self.group@;
        let mut i: usize = 0;
        while i < n
            invariant
                n == g.len(),
                g == self.group@,
                0 <= i <= n,
                s@ == old(s)@ + spec_group_list(g.take(i as int)),
            decreases n - i,
        {
            proof {
                assert(g.take(i + 1).drop_last() =~= g.take(i as int));
                assert(g.take(i + 1).last() == g[i as int]);
            }
            if i > 0 {
                s.append(", ");
            }
            crate::strfmt::push_u64_dec(s, self.group[i] as u64);
            proof {
                if i == 0 {
                    assert(g.take(1).len() == 1);
                    assert(g.take(1)[0] == g[0]);
                    assert(s@ =~= old(s)@ + spec_group_list(g.take(1)));
                } else {
                    assert(s@ =~= old(s)@ + spec_group_list(g.take(i + 1)));
                }
            }
            i += 1;
        }
        proof {
            assert(g.take(n as int) =~= g);
        }
    }

    /// Describe this aggregator, either as a compact symbol or in full;
    /// see [`spec_description`].
    pub fn description(&self, detailed: bool) -> (r: String)
        ensures
            r@ == spec_description(self.op, self.over, self.group@, detailed),
    {
        if !detailed {
            let mut s = String::new();
            match &self.op {
                Aggregation::Count => {
                    s.append("+");
                },
                Aggregation::Sum => {
                    s.append("\u{1d6f4}");
                },
                Aggregation::Avg => {
                    s.append("Avg");
                },
                Aggregation::GroupConcat { separator } => {
                    s.append("||(");
                    s.append(separator.as_str());
                    s.append(")");
                },
            }
            proof {
                assert(s@ =~= spec_description(self.op, self.over, self.group@, false));
            }
            return s;
        }
        let mut s = String::new();
        match &self.op {
            Aggregation::Count => {
                s.append("|*|");
            },
            Aggregation::Sum => {
                s.append("\u{1d6f4}(");
                crate::strfmt::push_u64_dec(&mut s, self.over as u64);
                s.append(")");
            },
            Aggregation::Avg => {
                s.append("Avg(");
                crate::strfmt::push_u64_dec(&mut s, self.over as u64);
                s.append(")");
            },
            Aggregation::GroupConcat { separator } => {
                s.append("||(");
                s.append(separator.as_str());
                s.append(", ");
                crate::strfmt::push_u64_dec(&mut s, self.over as u64);
                s.append(")");
            },
        }
        s.append(" \u{3b3}[");
        self.push_group_list(&mut s);
        s.append("]");
        proof {
            assert(s@ =~= spec_description(self.op, self.over, self.group@, true));
        }
        s
    }
}

} // verus!
