//! The engine's cross-cutting guarantees, stated and proved once for all
//! inputs: incremental folds agree with recomputing over the net multiset
//! of surviving rows, emissions always retract before they assert, a batch
//! with no net effect emits nothing, and a batch never perturbs a group it
//! does not touch.

use vstd::multiset::Multiset;
use vstd::prelude::*;

use crate::aggregate::{avg_derived, fold_diffs, Aggregation, DiffModel, FoldState};
use crate::error::AggregateError;
use crate::grouped::{
    distinct_keys_of, emit_pair, post_state_ok, rec_key, unchanged_at, OpModel, RecModel,
};
use crate::value::{trunc_div, val_mantissa, Val};

verus! {

/// The mantissa weight a value contributes to an exact sum; a non-numeric
/// value weighs nothing (it can never enter a successful fold).
pub open spec fn val_weight(v: Val) -> int {
    match val_mantissa(v) {
        Option::Some(x) => x,
        Option::None => 0,
    }
}

/// The exact sum of the weights of a multiset of values.
pub open spec fn mset_sum(m: Multiset<Val>) -> int
    decreases m.len(),
    via mset_sum_dec
{
    if m.len() == 0 {
        0
    } else {
        val_weight(m.choose()) + mset_sum(m.remove(m.choose()))
    }
}

#[via_fn]
proof fn mset_sum_dec(m: Multiset<Val>) {
    if m.len() != 0 {
        let v = m.choose();
        assert(m.count(v) > 0);
        assert(Multiset::singleton(v).subset_of(m)) by {
            assert(forall|w: Val| Multiset::singleton(v).count(w) <= m.count(w));
        }
        assert(m.remove(v).len() == m.len() - 1);
    }
}

/// Inserting a value raises the multiset sum by its weight.
pub proof fn lemma_mset_sum_insert(m: Multiset<Val>, v: Val)
    ensures
        mset_sum(m.insert(v)) == mset_sum(m) + val_weight(v),
    decreases m.len(),
{
    let mi = m.insert(v);
    assert(mi.len() == m.len() + 1);
    let u = mi.choose();
    assert(mi.count(u) > 0);
    if u == v {
        assert(mi.remove(u) =~= m);
        assert(mset_sum(mi) == val_weight(v) + mset_sum(m));
    } else {
        assert(m.count(u) > 0);
        assert(m.len() > 0);
        let m1 = m.remove(u);
        assert(Multiset::singleton(u).subset_of(m)) by {
            assert(forall|w: Val| Multiset::singleton(u).count(w) <= m.count(w));
        }
        assert(m1.len() == m.len() - 1);
        assert(mi.remove(u) =~= m1.insert(v));
        lemma_mset_sum_insert(m1, v);
        lemma_mset_sum_insert(m1, u);
        assert(m1.insert(u) =~= m);
        assert(mset_sum(mi) == val_weight(u) + mset_sum(mi.remove(u)));
    }
}

/// Removing a present value lowers the multiset sum by its weight.
pub proof fn lemma_mset_sum_remove(m: Multiset<Val>, v: Val)
    requires
        m.count(v) > 0,
    ensures
        mset_sum(m.remove(v)) == mset_sum(m) - val_weight(v),
{
    assert(m.remove(v).insert(v) =~= m);
    lemma_mset_sum_insert(m.remove(v), v);
}

/// Removing a present value shrinks the multiset by one.
pub proof fn lemma_mset_len_remove(m: Multiset<Val>, v: Val)
    requires
        m.count(v) > 0,
    ensures
        m.remove(v).len() == m.len() - 1,
{
    assert(Multiset::singleton(v).subset_of(m)) by {
        assert(forall|w: Val| Multiset::singleton(v).count(w) <= m.count(w));
    }
}

/// The net multiset of contributing values after a sequence of diffs:
/// each non-null positive diff adds its value, each non-null negative one
/// removes a matching occurrence.
pub open spec fn net_values(m: Multiset<Val>, ds: Seq<DiffModel>) -> Multiset<Val>
    decreases ds.len(),
{
    if ds.len() == 0 {
        m
    } else {
        let prev = net_values(m, ds.drop_last());
        let d = ds.last();
        if d.value is Null {
            prev
        } else if d.positive {
            prev.insert(d.value)
        } else {
            prev.remove(d.value)
        }
    }
}

/// A diff sequence is balanced over a starting multiset when no negative
/// diff ever retracts a value the group does not currently hold: every
/// retraction matches an earlier (or initial) contribution.
pub open spec fn balanced(m: Multiset<Val>, ds: Seq<DiffModel>) -> bool
    decreases ds.len(),
{
    if ds.len() == 0 {
        true
    } else {
        balanced(m, ds.drop_last()) && (ds.last().positive || ds.last().value is Null
            || net_values(m, ds.drop_last()).count(ds.last().value) > 0)
    }
}

/// Idempotent re-derivation for COUNT: folding any balanced diff sequence
/// incrementally from the group's current count yields exactly the size of
/// the net multiset of surviving contributions — the same value a full
/// recount would produce.
pub proof fn lemma_count_rederivation(
    m: Multiset<Val>,
    ds: Seq<DiffModel>,
    s0: Val,
    c0: Val,
    st: FoldState,
)
    requires
        balanced(m, ds),
        fold_diffs(
            Aggregation::Count,
            FoldState { acc: Val::Int(m.len() as int), sum: s0, count: c0 },
            ds,
        ) == Ok::<FoldState, AggregateError>(st),
    ensures
        st.acc == Val::Int(net_values(m, ds).len() as int),
        st.sum == s0,
        st.count == c0,
    decreases ds.len(),
{
    if ds.len() == 0 {
    } else {
        let prev = fold_diffs(
            Aggregation::Count,
            FoldState { acc: Val::Int(m.len() as int), sum: s0, count: c0 },
            ds.drop_last(),
        );
        let st_prev = prev->Ok_0;
        lemma_count_rederivation(m, ds.drop_last(), s0, c0, st_prev);
        let d = ds.last();
        let net_prev = net_values(m, ds.drop_last());
        if d.value is Null {
        } else if d.positive {
            assert(net_prev.insert(d.value).len() == net_prev.len() + 1);
        } else {
            assert(net_prev.count(d.value) > 0);
            lemma_mset_len_remove(net_prev, d.value);
        }
    }
}

/// Idempotent re-derivation for SUM: folding any balanced diff sequence
/// incrementally from the group's current exact sum yields exactly the
/// weight of the net multiset of surviving contributions — the same value
/// a full recomputation would produce.
pub proof fn lemma_sum_rederivation(
    m: Multiset<Val>,
    ds: Seq<DiffModel>,
    s0: Val,
    c0: Val,
    st: FoldState,
)
    requires
        balanced(m, ds),
        fold_diffs(
            Aggregation::Sum,
            FoldState { acc: Val::Numeric(mset_sum(m)), sum: s0, count: c0 },
            ds,
        ) == Ok::<FoldState, AggregateError>(st),
    ensures
        st.acc == Val::Numeric(mset_sum(net_values(m, ds))),
        st.sum == s0,
        st.count == c0,
    decreases ds.len(),
{
    if ds.len() == 0 {
    } else {
        let prev = fold_diffs(
            Aggregation::Sum,
            FoldState { acc: Val::Numeric(mset_sum(m)), sum: s0, count: c0 },
            ds.drop_last(),
        );
        let st_prev = prev->Ok_0;
        lemma_sum_rederivation(m, ds.drop_last(), s0, c0, st_prev);
        let d = ds.last();
        let net_prev = net_values(m, ds.drop_last());
        if d.value is Null {
        } else if d.positive {
            lemma_mset_sum_insert(net_prev, d.value);
        } else {
            assert(net_prev.count(d.value) > 0);
            lemma_mset_sum_remove(net_prev, d.value);
        }
    }
}

/// Idempotent re-derivation for AVG: the auxiliary pair tracks exactly the
/// net multiset's sum and size, and — whenever the batch touched the group
/// at all — the derived average is re-derived from that exact pair, not
/// adjusted incrementally, so it can never drift as diffs accumulate.
pub proof fn lemma_avg_rederivation(m: Multiset<Val>, ds: Seq<DiffModel>, a0: Val, st: FoldState)
    requires
        balanced(m, ds),
        fold_diffs(
            Aggregation::Avg,
            FoldState {
                acc: a0,
                sum: Val::Numeric(mset_sum(m)),
                count: Val::Int(m.len() as int),
            },
            ds,
        ) == Ok::<FoldState, AggregateError>(st),
    ensures
        st.sum == Val::Numeric(mset_sum(net_values(m, ds))),
        st.count == Val::Int(net_values(m, ds).len() as int),
        (exists|i: int| 0 <= i < ds.len() && !(#[trigger] ds[i].value is Null)) ==> avg_derived(
            st.sum,
            st.count,
        ) == Ok::<Val, AggregateError>(st.acc),
        (forall|i: int| 0 <= i < ds.len() ==> (#[trigger] ds[i].value is Null)) ==> st.acc == a0,
    decreases ds.len(),
{
    if ds.len() == 0 {
    } else {
        let prev = fold_diffs(
            Aggregation::Avg,
            FoldState {
                acc: a0,
                sum: Val::Numeric(mset_sum(m)),
                count: Val::Int(m.len() as int),
            },
            ds.drop_last(),
        );
        let st_prev = prev->Ok_0;
        lemma_avg_rederivation(m, ds.drop_last(), a0, st_prev);
        let d = ds.last();
        let net_prev = net_values(m, ds.drop_last());
        if d.value is Null {
            assert forall|i: int|
                0 <= i < ds.len() && !(#[trigger] ds[i].value is Null) implies exists|j: int|
                0 <= j < ds.drop_last().len() && !(#[trigger] ds.drop_last()[j].value
                    is Null) by {
                assert(ds.drop_last()[i] == ds[i]);
            }
            assert forall|i: int|
                0 <= i < ds.drop_last().len() && !(#[trigger] ds.drop_last()[i].value
                    is Null) implies exists|j: int|
                0 <= j < ds.len() && !(#[trigger] ds[j].value is Null) by {
                assert(ds[i] == ds.drop_last()[i]);
            }
        } else {
            if d.positive {
                lemma_mset_sum_insert(net_prev, d.value);
                assert(net_prev.insert(d.value).len() == net_prev.len() + 1);
            } else {
                assert(net_prev.count(d.value) > 0);
                lemma_mset_sum_remove(net_prev, d.value);
                lemma_mset_len_remove(net_prev, d.value);
            }
            assert(ds[ds.len() - 1] == d);
        }
    }
}

/// A balanced batch with no net effect leaves a group's count exactly
/// where it was: combined with [`lemma_no_op_emits_nothing`], such a batch
/// emits no rows for the group even though it was folded through.
pub proof fn lemma_no_net_change_count(
    m: Multiset<Val>,
    ds: Seq<DiffModel>,
    s0: Val,
    c0: Val,
    st: FoldState,
)
    requires
        balanced(m, ds),
        net_values(m, ds) == m,
        fold_diffs(
            Aggregation::Count,
            FoldState { acc: Val::Int(m.len() as int), sum: s0, count: c0 },
            ds,
        ) == Ok::<FoldState, AggregateError>(st),
    ensures
        st.acc == Val::Int(m.len() as int),
{
    lemma_count_rederivation(m, ds, s0, c0, st);
}

/// A balanced batch with no net effect leaves a group's exact sum exactly
/// where it was.
pub proof fn lemma_no_net_change_sum(
    m: Multiset<Val>,
    ds: Seq<DiffModel>,
    s0: Val,
    c0: Val,
    st: FoldState,
)
    requires
        balanced(m, ds),
        net_values(m, ds) == m,
        fold_diffs(
            Aggregation::Sum,
            FoldState { acc: Val::Numeric(mset_sum(m)), sum: s0, count: c0 },
            ds,
        ) == Ok::<FoldState, AggregateError>(st),
    ensures
        st.acc == Val::Numeric(mset_sum(m)),
{
    lemma_sum_rederivation(m, ds, s0, c0, st);
}

/// When the tracked sum divides exactly by the tracked count, the derived
/// average is exact: average times count gives back the sum, with no
/// rounding at all.
pub proof fn lemma_avg_division_exact(s: int, c: int)
    requires
        c > 0,
        s % c == 0,
    ensures
        trunc_div(s, c) * c == s,
{
    vstd::arithmetic::div_mod::lemma_fundamental_div_mod(s, c);
    let q = s / c;
    assert(s == c * q);
    assert(c * q == q * c) by (nonlinear_arith);
    if s >= 0 {
        assert(trunc_div(s, c) == q);
    } else {
        assert((-q) * c + 0 == -s) by (nonlinear_arith)
            requires
                s == q * c,
        ;
        vstd::arithmetic::div_mod::lemma_fundamental_div_mod_converse(-s, c, -q, 0);
        assert((-s) / c == -q);
        assert(trunc_div(s, c) == q);
    }
}

/// Retraction-then-assertion ordering: whenever a group's materialized row
/// changes from one row to another, the emitted records are exactly one
/// retraction of the old row immediately followed by one assertion of the
/// new one — never the reverse order, and never omitted when the rows
/// differ.
pub proof fn lemma_retraction_then_assertion(o: Seq<Val>, n: Seq<Val>)
    requires
        o != n,
    ensures
        emit_pair(Option::Some(o), Option::Some(n)) == seq![
            RecModel { row: o, positive: false },
            RecModel { row: n, positive: true },
        ],
        emit_pair(Option::Some(o), Option::Some(n))[0].positive == false,
        emit_pair(Option::Some(o), Option::Some(n))[1].positive == true,
{
}

/// No-op updates emit nothing: when a batch leaves a group's materialized
/// row exactly as it was — including the case where the group had and
/// keeps no row — no records are emitted for it, even though auxiliary
/// state may have moved.
pub proof fn lemma_no_op_emits_nothing(row: Option<Seq<Val>>)
    ensures
        emit_pair(row, row) == Seq::<RecModel>::empty(),
{
    match row {
        Option::Some(o) => {
            assert(emit_pair(row, row) =~= Seq::<RecModel>::empty());
        },
        Option::None => {
            assert(emit_pair(row, row) =~= Seq::<RecModel>::empty());
        },
    }
}

/// A group's key appears among a batch's keys exactly when some record of
/// the batch projects to it.
pub proof fn lemma_keys_complete(batch: Seq<RecModel>, group: Seq<usize>, k: Seq<Val>)
    ensures
        distinct_keys_of(batch, group).contains(k) <==> exists|i: int|
            0 <= i < batch.len() && rec_key(#[trigger] batch[i], group) == k,
    decreases batch.len(),
{
    if batch.len() == 0 {
    } else {
        lemma_keys_complete(batch.drop_last(), group, k);
        let prev = distinct_keys_of(batch.drop_last(), group);
        let kl = rec_key(batch.last(), group);
        assert(batch[batch.len() - 1] == batch.last());
        if distinct_keys_of(batch, group).contains(k) {
            if k == kl {
            } else {
                assert(prev.contains(k));
                let i = choose|i: int|
                    0 <= i < batch.drop_last().len() && rec_key(
                        #[trigger] batch.drop_last()[i],
                        group,
                    ) == k;
                assert(batch[i] == batch.drop_last()[i]);
            }
        }
        if exists|i: int| 0 <= i < batch.len() && rec_key(#[trigger] batch[i], group) == k {
            let i = choose|i: int|
                0 <= i < batch.len() && rec_key(#[trigger] batch[i], group) == k;
            if i == batch.len() - 1 {
                if !prev.contains(kl) {
                    assert(prev.push(kl)[prev.len() as int] == kl);
                }
            } else {
                assert(batch.drop_last()[i] == batch[i]);
                assert(prev.contains(k));
                if !prev.contains(kl) {
                    let j = choose|j: int| 0 <= j < prev.len() && prev[j] == k;
                    assert(prev.push(kl)[j] == k);
                }
            }
        }
    }
}

/// Multi-column group isolation: after a successful batch, a group whose
/// grouping-key values no record of the batch carries is untouched — its
/// materialized row, auxiliary pair and contributor list all stay exactly
/// as they were.
pub proof fn lemma_group_isolation(m0: OpModel, m1: OpModel, batch: Seq<RecModel>, k: Seq<Val>)
    requires
        post_state_ok(m0, m1, batch),
        forall|i: int| 0 <= i < batch.len() ==> rec_key(#[trigger] batch[i], m0.group) != k,
    ensures
        unchanged_at(m0, m1, k),
{
    lemma_keys_complete(batch, m0.group, k);
}


/// The net multiset of textual contributions after a sequence of diffs:
/// each non-null positive diff contributes its value's text, each
/// non-null negative one withdraws a matching occurrence (and withdraws
/// nothing when none matches).
pub open spec fn net_texts(m: Multiset<Seq<char>>, ds: Seq<DiffModel>) -> Multiset<Seq<char>>
    decreases ds.len(),
{
    if ds.len() == 0 {
        m
    } else {
        let prev = net_texts(m, ds.drop_last());
        let d = ds.last();
        if d.value is Null {
            prev
        } else {
            match crate::grouped::text_repr(d.value) {
                Option::None => prev,
                Option::Some(s) => if d.positive {
                    prev.insert(s)
                } else {
                    prev.remove(s)
                },
            }
        }
    }
}

/// A non-empty sequence has a first occurrence of any element it
/// contains.
proof fn lemma_first_occurrence(m: Seq<Seq<char>>, x: Seq<char>)
    requires
        m.contains(x),
    ensures
        exists|i: int|
            0 <= i < m.len() && m[i] == x && (forall|j: int| 0 <= j < i ==> m[j] != x),
    decreases m.len(),
{
    if m[0] == x {
        assert(0 <= 0 < m.len() && m[0] == x && (forall|j: int| 0 <= j < 0 ==> m[j] != x));
    } else {
        let k = choose|k: int| 0 <= k < m.len() && m[k] == x;
        assert(m.drop_first()[k - 1] == x);
        assert(m.drop_first().contains(x));
        lemma_first_occurrence(m.drop_first(), x);
        let i = choose|i: int|
            0 <= i < m.drop_first().len() && m.drop_first()[i] == x && (forall|j: int|
                0 <= j < i ==> m.drop_first()[j] != x);
        assert forall|j: int| 0 <= j < i + 1 implies m[j] != x by {
            if j > 0 {
                assert(m.drop_first()[j - 1] == m[j]);
            }
        }
        assert(m[i + 1] == m.drop_first()[i]);
    }
}

/// Withdrawing the first matching contributor is exactly a multiset
/// removal.
proof fn lemma_remove_first_is_multiset_remove(m: Seq<Seq<char>>, x: Seq<char>)
    ensures
        crate::grouped::remove_first(m, x).to_multiset() == m.to_multiset().remove(x),
{
    broadcast use vstd::seq_lib::group_to_multiset_ensures;

    if m.contains(x) {
        lemma_first_occurrence(m, x);
        let i = choose|i: int|
            0 <= i < m.len() && m[i] == x && (forall|j: int| 0 <= j < i ==> m[j] != x);
        crate::grouped::lemma_remove_first_found(m, x, i);
        assert(m.take(i) + m.skip(i + 1) =~= m.remove(i));
        assert(m.remove(i).to_multiset() =~= m.to_multiset().remove(m[i]));
    } else {
        assert(forall|j: int| 0 <= j < m.len() ==> m[j] != x);
        crate::grouped::lemma_remove_first_missing(m, x);
        assert(m.to_multiset().count(x) == 0);
        assert(m.to_multiset().remove(x) =~= m.to_multiset());
    }
}

/// Idempotent re-derivation for GROUP_CONCAT: the contributor list tracks
/// the true multiset of surviving textual contributions, so a retraction
/// always withdraws exactly one matching earlier contribution and the
/// concatenated value is rebuilt from real membership, never by undoing
/// string concatenation.
pub proof fn lemma_concat_tracks_multiset(
    items0: Seq<Seq<char>>,
    ds: Seq<DiffModel>,
    out: Seq<Seq<char>>,
)
    requires
        crate::grouped::concat_fold(items0, ds) == Ok::<Seq<Seq<char>>, AggregateError>(out),
    ensures
        out.to_multiset() == net_texts(items0.to_multiset(), ds),
    decreases ds.len(),
{
    broadcast use vstd::seq_lib::group_to_multiset_ensures;

    if ds.len() == 0 {
    } else {
        let prev = crate::grouped::concat_fold(items0, ds.drop_last());
        let mid = prev->Ok_0;
        lemma_concat_tracks_multiset(items0, ds.drop_last(), mid);
        let d = ds.last();
        if d.value is Null {
        } else {
            let s = crate::grouped::text_repr(d.value)->Some_0;
            if d.positive {
                assert(out == mid.push(s));
            } else {
                assert(out == crate::grouped::remove_first(mid, s));
                lemma_remove_first_is_multiset_remove(mid, s);
            }
        }
    }
}

} // verus!
