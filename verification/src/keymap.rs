//! A small verified association map keyed by a tuple of scalar values.
//!
//! The engine keys two kinds of state by grouping-key values: its own
//! materialized output rows and the auxiliary running state of decomposable
//! aggregates.  Keys are compared by value (on the [`Val`] model), so two
//! distinct groups can never share state — the map is keyed by the exact
//! grouping-key tuple, not by a digest of it.

use vstd::prelude::*;

use crate::value::{DfValue, Val};

verus! {

/// Model of a row: the sequence of value models.
pub open spec fn row_model(r: Seq<DfValue>) -> Seq<Val> {
    r.map_values(|v: DfValue| v@)
}

/// The key model of the entry at index `i`.
pub open spec fn key_at<V>(entries: Seq<(Vec<DfValue>, V)>, i: int) -> Seq<Val> {
    row_model(entries[i].0@)
}

/// Whether some entry has key model `k`.
pub open spec fn has_key<V>(entries: Seq<(Vec<DfValue>, V)>, k: Seq<Val>) -> bool {
    exists|i: int| 0 <= i < entries.len() && key_at(entries, i) == k
}

/// The index of the entry with key model `k` (meaningful when the keys are
/// distinct and `k` is present).
pub open spec fn index_of<V>(entries: Seq<(Vec<DfValue>, V)>, k: Seq<Val>) -> int {
    choose|i: int| 0 <= i < entries.len() && key_at(entries, i) == k
}

/// The map an entry sequence denotes.
pub open spec fn map_of<V>(entries: Seq<(Vec<DfValue>, V)>) -> Map<Seq<Val>, V> {
    Map::new(
        |k: Seq<Val>| has_key(entries, k),
        |k: Seq<Val>| entries[index_of(entries, k)].1,
    )
}

/// Compare two rows by value.
pub fn keys_eq(a: &Vec<DfValue>, b: &Vec<DfValue>) -> (r: bool)
    ensures
        r == (row_model(a@) == row_model(b@)),
{
    if a.len() != b.len() {
        proof {
            assert(row_model(a@).len() != row_model(b@).len());
        }
        return false;
    }
    let n = a.len();
    let mut i: usize = 0;
    while i < n
        invariant
            n == a.len() == b.len(),
            0 <= i <= n,
            forall|j: int| 0 <= j < i ==> #[trigger] row_model(a@)[j] == row_model(b@)[j],
        decreases n - i,
    {
        if !((&a[i]).eq(&b[i])) {
            proof {
                assert(row_model(a@)[i as int] != row_model(b@)[i as int]);
            }
            return false;
        }
        proof {
            assert(row_model(a@)[i as int] == row_model(b@)[i as int]);
        }
        i += 1;
    }
    proof {
        assert(row_model(a@) =~= row_model(b@));
    }
    true
}

/// An association map from a grouping-key tuple to `V`, compared by value.
pub struct KeyMap<V> {
    entries: Vec<(Vec<DfValue>, V)>,
}

impl<V> View for KeyMap<V> {
    type V = Map<Seq<Val>, V>;

    closed spec fn view(&self) -> Map<Seq<Val>, V> {
        map_of(self.entries@)
    }
}

impl<V> KeyMap<V> {
    /// Well-formedness: entry keys are pairwise distinct, so each key model
    /// names exactly one entry.
    pub closed spec fn wf(&self) -> bool {
        forall|i: int, j: int|
            0 <= i < j < self.entries@.len() ==> key_at(self.entries@, i) != key_at(
                self.entries@,
                j,
            )
    }

    /// An empty map.
    pub fn new() -> (r: KeyMap<V>)
        ensures
            r.wf(),
            r@ == Map::<Seq<Val>, V>::empty(),
    {
        let r = KeyMap { entries: Vec::new() };
        proof {
            assert(r@ =~= Map::<Seq<Val>, V>::empty());
        }
        r
    }

    /// Look the key up, returning a reference to its value if present.
    pub fn get(&self, k: &Vec<DfValue>) -> (r: Option<&V>)
        requires
            self.wf(),
        ensures
            match r {
                Some(v) => self@.contains_key(row_model(k@)) && *v == self@[row_model(k@)],
                None => !self@.contains_key(row_model(k@)),
            },
    {
        let ghost km = row_model(k@);
        let n = self.entries.len();
        let mut i: usize = 0;
        while i < n
            invariant
                self.wf(),
                n == self.entries@.len(),
                0 <= i <= n,
                km == row_model(k@),
                forall|j: int| 0 <= j < i ==> key_at(self.entries@, j) != km,
            decreases n - i,
        {
            if keys_eq(&self.entries[i].0, k) {
                proof {
                    assert(key_at(self.entries@, i as int) == km);
                    assert(has_key(self.entries@, km));
                    let w = index_of(self.entries@, km);
                    assert(0 <= w < self.entries@.len() && key_at(self.entries@, w) == km);
                    assert(w == i as int);
                }
                return Some(&self.entries[i].1);
            }
            i += 1;
        }
        proof {
            assert(!has_key(self.entries@, km));
        }
        None
    }

    /// Insert or replace the value for the key.
    pub fn set(&mut self, k: Vec<DfValue>, v: V)
        requires
            old(self).wf(),
        ensures
            final(self).wf(),
            final(self)@ == old(self)@.insert(row_model(k@), v),
    {
        let ghost km = row_model(k@);
        let ghost e0 = self.entries@;
        let n = self.entries.len();
        let mut i: usize = 0;
        while i < n
            invariant
                self.wf(),
                self.entries@ == e0,
                e0 == old(self).entries@,
                n == e0.len(),
                0 <= i <= n,
                km == row_model(k@),
                forall|j: int| 0 <= j < i ==> key_at(e0, j) != km,
            decreases n - i,
        {
            if keys_eq(&self.entries[i].0, &k) {
                proof {
                    assert(key_at(e0, i as int) == km);
                }
                self.entries.set(i, (k, v));
                proof {
                    let e1 = self.entries@;
                    assert forall|p: int, q: int| 0 <= p < q < e1.len() implies key_at(e1, p)
                        != key_at(e1, q) by {
                        assert(key_at(e1, p) == key_at(e0, p));
                        assert(key_at(e1, q) == key_at(e0, q));
                    }
                    assert(self.wf());
                    assert forall|kk: Seq<Val>| true implies has_key(e1, kk) == has_key(
                        e0,
                        kk,
                    ) by {
                        assert forall|j: int| 0 <= j < e1.len() implies key_at(e1, j) == key_at(
                            e0,
                            j,
                        ) by {}
                        if has_key(e0, kk) {
                            let w = choose|w: int|
                                0 <= w < e0.len() && key_at(e0, w) == kk;
                            assert(key_at(e1, w) == kk);
                        }
                        if has_key(e1, kk) {
                            let w = choose|w: int|
                                0 <= w < e1.len() && key_at(e1, w) == kk;
                            assert(key_at(e0, w) == kk);
                        }
                    }
                    assert(has_key(e0, km));
                    assert forall|kk: Seq<Val>| map_of(e1).dom().contains(kk) implies map_of(
                        e1,
                    )[kk] == map_of(e0).insert(km, v)[kk] by {
                        let w = index_of(e1, kk);
                        assert(0 <= w < e1.len() && key_at(e1, w) == kk);
                        if kk == km {
                            assert(key_at(e1, i as int) == km);
                            assert(w == i as int);
                            assert(map_of(e1)[kk] == v);
                        } else {
                            assert(key_at(e0, w) == kk);
                            assert(w != i as int);
                            assert(e1[w].1 == e0[w].1);
                            let w0 = index_of(e0, kk);
                            assert(0 <= w0 < e0.len() && key_at(e0, w0) == kk);
                            assert(w0 == w);
                        }
                    }
                    assert(map_of(e1) =~= map_of(e0).insert(km, v));
                }
                return ;
            }
            i += 1;
        }
        proof {
            assert(!has_key(e0, km));
        }
        self.entries.push((k, v));
        proof {
            let e1 = self.entries@;
            assert(e1 == e0.push((k, v)));
            assert(key_at(e1, e0.len() as int) == km);
            assert forall|j: int| 0 <= j < e0.len() implies key_at(e1, j) == key_at(e0, j) by {}
            assert forall|p: int, q: int| 0 <= p < q < e1.len() implies key_at(e1, p) != key_at(
                e1,
                q,
            ) by {
                if q < e0.len() {
                } else {
                    assert(key_at(e1, q) == km);
                    assert(key_at(e1, p) == key_at(e0, p));
                }
            }
            assert forall|kk: Seq<Val>| map_of(e1).dom().contains(kk) implies map_of(e0).insert(
                km,
                v,
            ).dom().contains(kk) && map_of(e1)[kk] == map_of(e0).insert(km, v)[kk] by {
                let w = index_of(e1, kk);
                assert(0 <= w < e1.len() && key_at(e1, w) == kk);
                if kk == km {
                    assert(w == e0.len() as int);
                    assert(map_of(e1)[kk] == v);
                } else {
                    assert(w < e0.len());
                    assert(key_at(e0, w) == kk);
                    let w0 = index_of(e0, kk);
                    assert(0 <= w0 < e0.len() && key_at(e0, w0) == kk);
                    assert(w0 == w);
                }
            }
            assert forall|kk: Seq<Val>| map_of(e0).insert(km, v).dom().contains(kk) implies map_of(
                e1,
            ).dom().contains(kk) by {
                if kk == km {
                    assert(key_at(e1, e0.len() as int) == kk);
                } else {
                    let w0 = index_of(e0, kk);
                    assert(0 <= w0 < e0.len() && key_at(e0, w0) == kk);
                    assert(key_at(e1, w0) == kk);
                }
            }
            assert(map_of(e1) =~= map_of(e0).insert(km, v));
        }
    }

    /// Remove the key if present.
    pub fn remove(&mut self, k: &Vec<DfValue>)
        requires
            old(self).wf(),
        ensures
            final(self).wf(),
            final(self)@ == old(self)@.remove(row_model(k@)),
    {
        let ghost km = row_model(k@);
        let ghost e0 = self.entries@;
        let n = self.entries.len();
        let mut i: usize = 0;
        while i < n
            invariant
                self.wf(),
                self.entries@ == e0,
                e0 == old(self).entries@,
                n == e0.len(),
                0 <= i <= n,
                km == row_model(k@),
                forall|j: int| 0 <= j < i ==> key_at(e0, j) != km,
            decreases n - i,
        {
            if keys_eq(&self.entries[i].0, k) {
                proof {
                    assert(key_at(e0, i as int) == km);
                }
                self.entries.remove(i);
                proof {
                    let e1 = self.entries@;
                    assert(e1.len() == e0.len() - 1);
                    assert forall|j: int| 0 <= j < e1.len() implies key_at(e1, j) == (
                    if j < i as int {
                        key_at(e0, j)
                    } else {
                        key_at(e0, j + 1)
                    }) by {}
                    assert forall|p: int, q: int| 0 <= p < q < e1.len() implies key_at(e1, p)
                        != key_at(e1, q) by {}
                    assert forall|kk: Seq<Val>| map_of(e1).dom().contains(kk) implies map_of(
                        e0,
                    ).remove(km).dom().contains(kk) && map_of(e1)[kk] == map_of(e0).remove(
                        km,
                    )[kk] by {
                        let w = index_of(e1, kk);
                        assert(0 <= w < e1.len() && key_at(e1, w) == kk);
                        let w0: int = if w < i as int {
                            w
                        } else {
                            w + 1
                        };
                        assert(key_at(e0, w0) == kk);
                        assert(w0 != i as int);
                        assert(kk != km);
                        let wc = index_of(e0, kk);
                        assert(0 <= wc < e0.len() && key_at(e0, wc) == kk);
                        assert(wc == w0);
                        assert(e1[w].1 == e0[w0].1);
                    }
                    assert forall|kk: Seq<Val>| map_of(e0).remove(km).dom().contains(
                        kk,
                    ) implies map_of(e1).dom().contains(kk) by {
                        let w0 = index_of(e0, kk);
                        assert(0 <= w0 < e0.len() && key_at(e0, w0) == kk);
                        assert(kk != km);
                        assert(w0 != i as int);
                        if w0 < i as int {
                            assert(key_at(e1, w0) == kk);
                        } else {
                            assert(key_at(e1, w0 - 1) == kk);
                        }
                    }
                    assert(map_of(e1) =~= map_of(e0).remove(km));
                }
                return ;
            }
            i += 1;
        }
        proof {
            assert(!has_key(e0, km));
            assert(map_of(e0) =~= map_of(e0).remove(km));
        }
    }
}

} // verus!
