//! A table of rows kept in strictly increasing key order.

use vstd::prelude::*;

use crate::order;
use crate::order::{relate, Relation};

verus! {

/// A row that is found by a byte-string key.
pub trait Keyed: Sized {
    /// The key.
    spec fn key(&self) -> Seq<u8>;

    /// The bytes of the key.
    fn key_bytes(&self) -> (k: &[u8])
        ensures
            k@ == self.key(),
    ;
}

/// Keys strictly increase from row to row.
pub open spec fn strictly_sorted<T: Keyed>(rows: Seq<T>) -> bool {
    forall|i: int, j: int|
        #![trigger rows[i], rows[j]]
        0 <= i < j < rows.len() ==> order::lex_lt(rows[i].key(), rows[j].key())
}

/// Some row has the key `k`.
pub open spec fn has_key<T: Keyed>(rows: Seq<T>, k: Seq<u8>) -> bool {
    exists|i: int| 0 <= i < rows.len() && (#[trigger] rows[i]).key() == k
}

/// The row with the key `k`.
pub open spec fn row_of<T: Keyed>(rows: Seq<T>, k: Seq<u8>) -> T {
    rows[choose|i: int| 0 <= i < rows.len() && (#[trigger] rows[i]).key() == k]
}

/// The rows as a map from keys.
pub open spec fn as_map<T: Keyed>(rows: Seq<T>) -> Map<Seq<u8>, T> {
    Map::new(|k: Seq<u8>| has_key(rows, k), |k: Seq<u8>| row_of(rows, k))
}

/// Rows, at most one for each key, in key order.
#[derive(Debug)]
pub struct Table<T: Keyed> {
    rows: Vec<T>,
}

/// Where a key stands in a table.
#[derive(Clone, Copy, Debug)]
pub enum Slot {
    /// The row at this position has the key.
    Taken(usize),
    /// No row has the key; a row with it belongs at this position.
    Free(usize),
}

/// `s` is where the key `k` stands in sorted rows.
pub open spec fn is_slot<T: Keyed>(rows: Seq<T>, k: Seq<u8>, s: Slot) -> bool {
    match s {
        Slot::Taken(i) => {
            &&& i < rows.len()
            &&& rows[i as int].key() == k
            &&& as_map(rows).dom().contains(k)
            &&& as_map(rows)[k] == rows[i as int]
        },
        Slot::Free(i) => {
            &&& i <= rows.len()
            &&& !has_key(rows, k)
            &&& !as_map(rows).dom().contains(k)
            &&& forall|j: int| 0 <= j < i ==> order::lex_lt((#[trigger] rows[j]).key(), k)
            &&& forall|j: int| i <= j < rows.len() ==> order::lex_lt(k, (#[trigger] rows[j]).key())
        },
    }
}

/// Finds the position of `key` in sorted rows by bisection.
pub fn locate<T: Keyed>(rows: &Vec<T>, key: &[u8]) -> (s: Slot)
    requires
        strictly_sorted(rows@),
    ensures
        is_slot(rows@, key@, s),
{
    let mut lo: usize = 0;
    let mut hi: usize = rows.len();
    while lo < hi
        invariant
            strictly_sorted(rows@),
            lo <= hi <= rows@.len(),
            forall|j: int| 0 <= j < lo ==> order::lex_lt((#[trigger] rows@[j]).key(), key@),
            forall|j: int|
                hi <= j < rows@.len() ==> order::lex_lt(key@, (#[trigger] rows@[j]).key()),
        decreases hi - lo,
    {
        let mid: usize = lo + (hi - lo) / 2;
        let ghost mk = rows@[mid as int].key();
        match relate(rows[mid].key_bytes(), key) {
            Relation::Same => {
                proof {
                    lemma_row_of(rows@, mid as int);
                }
                return Slot::Taken(mid);
            },
            Relation::Before => {
                assert forall|j: int| 0 <= j < mid + 1 implies order::lex_lt(
                    (#[trigger] rows@[j]).key(),
                    key@,
                ) by {
                    if j < mid {
                        assert(order::lex_lt(rows@[j].key(), mk));
                        order::lex_lt_transitive(rows@[j].key(), mk, key@);
                    }
                }
                lo = mid + 1;
            },
            Relation::After => {
                assert forall|j: int| mid <= j < rows@.len() implies order::lex_lt(
                    key@,
                    (#[trigger] rows@[j]).key(),
                ) by {
                    if j > mid {
                        assert(order::lex_lt(mk, rows@[j].key()));
                        order::lex_lt_transitive(key@, mk, rows@[j].key());
                    }
                }
                hi = mid;
            },
        }
    }
    proof {
        if has_key(rows@, key@) {
            let j = choose|j: int| 0 <= j < rows@.len() && (#[trigger] rows@[j]).key() == key@;
            order::lex_lt_irreflexive(key@);
            assert(false);
        }
    }
    Slot::Free(lo)
}

impl<T: Keyed> Table<T> {
    /// The rows in order.
    pub closed spec fn view(&self) -> Seq<T> {
        self.rows@
    }

    /// Keys strictly increase.
    pub open spec fn wf(&self) -> bool {
        strictly_sorted(self.view())
    }

    /// The map from keys to rows.
    pub open spec fn map(&self) -> Map<Seq<u8>, T> {
        as_map(self.view())
    }

    /// The table without rows.
    pub fn new() -> (t: Self)
        ensures
            t.wf(),
            t.view().len() == 0,
            t.map() == Map::<Seq<u8>, T>::empty(),
    {
        let t = Table { rows: Vec::new() };
        assert(t.map() =~= Map::<Seq<u8>, T>::empty());
        t
    }

    /// The number of rows.
    pub fn len(&self) -> (n: usize)
        ensures
            n == self.view().len(),
    {
        self.rows.len()
    }

    /// The row at position `i`.
    pub fn row(&self, i: usize) -> (r: &T)
        requires
            i < self.view().len(),
        ensures
            *r == self.view()[i as int],
    {
        &self.rows[i]
    }

    /// Gives up the rows.
    pub fn into_rows(self) -> (rows: Vec<T>)
        ensures
            rows@ == self.view(),
    {
        self.rows
    }

    /// Finds the position of `key` by bisection.
    pub fn find(&self, key: &[u8]) -> (s: Slot)
        requires
            self.wf(),
        ensures
            is_slot(self.view(), key@, s),
    {
        locate(&self.rows, key)
    }

    /// Whether some row has `key`.
    pub fn contains(&self, key: &[u8]) -> (b: bool)
        requires
            self.wf(),
        ensures
            b == self.map().dom().contains(key@),
    {
        match self.find(key) {
            Slot::Taken(_) => true,
            Slot::Free(_) => false,
        }
    }

    /// The row with `key`.
    pub fn get(&self, key: &[u8]) -> (r: Option<&T>)
        requires
            self.wf(),
        ensures
            match r {
                Some(row) => self.map().dom().contains(key@) && self.map()[key@] == *row && row.key()
                    == key@,
                None => !self.map().dom().contains(key@),
            },
    {
        match self.find(key) {
            Slot::Taken(i) => Some(&self.rows[i]),
            Slot::Free(_) => None,
        }
    }

    /// Adds `row`, in place of the row with the same key if there is one.
    pub fn put(&mut self, row: T)
        requires
            old(self).wf(),
        ensures
            final(self).wf(),
            final(self).map() == old(self).map().insert(row.key(), row),
            final(self).view().len() == old(self).view().len() + (if old(self).map().dom().contains(
                row.key(),
            ) {
                0int
            } else {
                1int
            }),
    {
        let ghost before = self.rows@;
        let ghost k = row.key();
        match self.find(row.key_bytes()) {
            Slot::Taken(i) => {
                self.rows.set(i, row);
                proof {
                    assert(self.rows@ == before.update(i as int, row));
                    assert forall|a: int, b: int|
                        #![trigger self.rows@[a], self.rows@[b]]
                        0 <= a < b < self.rows@.len() implies order::lex_lt(
                        self.rows@[a].key(),
                        self.rows@[b].key(),
                    ) by {
                        assert(self.rows@[a].key() == before[a].key());
                        assert(self.rows@[b].key() == before[b].key());
                    }
                    assert forall|j: int| 0 <= j < before.len() && j != i implies (
                    #[trigger] before[j]).key() != k by {
                        order::lex_lt_irreflexive(k);
                        assert(before[i as int].key() == k);
                        if j < i {
                            assert(order::lex_lt(before[j].key(), before[i as int].key()));
                        } else {
                            assert(order::lex_lt(before[i as int].key(), before[j].key()));
                        }
                    }
                    lemma_map_update(before, self.rows@, i as int);
                }
            },
            Slot::Free(i) => {
                self.rows.insert(i, row);
                proof {
                    assert(self.rows@ == before.insert(i as int, row));
                    assert forall|a: int, b: int|
                        #![trigger self.rows@[a], self.rows@[b]]
                        0 <= a < b < self.rows@.len() implies order::lex_lt(
                        self.rows@[a].key(),
                        self.rows@[b].key(),
                    ) by {
                        let pa = if a < i {
                            a
                        } else {
                            a - 1
                        };
                        let pb = if b < i {
                            b
                        } else {
                            b - 1
                        };
                        if a != i {
                            assert(self.rows@[a] == before[pa]);
                        }
                        if b != i {
                            assert(self.rows@[b] == before[pb]);
                        }
                        if a != i && b != i {
                            assert(order::lex_lt(before[pa].key(), before[pb].key()));
                        }
                    }
                    lemma_map_insert(before, i as int, row);
                }
            },
        }
    }

    /// Takes out the row with `key`.
    pub fn take(&mut self, key: &[u8]) -> (r: Option<T>)
        requires
            old(self).wf(),
        ensures
            final(self).wf(),
            final(self).map() == old(self).map().remove(key@),
            match r {
                Some(row) => old(self).map().dom().contains(key@) && old(self).map()[key@] == row,
                None => !old(self).map().dom().contains(key@),
            },
            final(self).view().len() == old(self).view().len() - (if r is Some {
                1int
            } else {
                0int
            }),
    {
        let ghost before = self.rows@;
        match self.find(key) {
            Slot::Taken(i) => {
                let row = self.rows.remove(i);
                proof {
                    assert(self.rows@ == before.remove(i as int));
                    assert forall|a: int, b: int|
                        #![trigger self.rows@[a], self.rows@[b]]
                        0 <= a < b < self.rows@.len() implies order::lex_lt(
                        self.rows@[a].key(),
                        self.rows@[b].key(),
                    ) by {
                        let pa = if a < i {
                            a
                        } else {
                            a + 1
                        };
                        let pb = if b < i {
                            b
                        } else {
                            b + 1
                        };
                        assert(self.rows@[a] == before[pa]);
                        assert(self.rows@[b] == before[pb]);
                        assert(order::lex_lt(before[pa].key(), before[pb].key()));
                    }
                    lemma_map_remove(before, i as int);
                }
                Some(row)
            },
            Slot::Free(_) => {
                assert(self.map().remove(key@) =~= self.map());
                None
            },
        }
    }
}

/// In sorted rows a position is the only one with its key.
pub proof fn lemma_row_of<T: Keyed>(rows: Seq<T>, i: int)
    requires
        strictly_sorted(rows),
        0 <= i < rows.len(),
    ensures
        has_key(rows, rows[i].key()),
        row_of(rows, rows[i].key()) == rows[i],
        as_map(rows).dom().contains(rows[i].key()),
        as_map(rows)[rows[i].key()] == rows[i],
        forall|j: int| 0 <= j < rows.len() && (#[trigger] rows[j]).key() == rows[i].key() ==> j == i,
{
    let k = rows[i].key();
    assert forall|j: int| 0 <= j < rows.len() && (#[trigger] rows[j]).key() == k implies j == i by {
        order::lex_lt_irreflexive(k);
        if j < i {
            assert(order::lex_lt(rows[j].key(), rows[i].key()));
        } else if i < j {
            assert(order::lex_lt(rows[i].key(), rows[j].key()));
        }
    }
}

proof fn lemma_map_update<T: Keyed>(before: Seq<T>, after: Seq<T>, i: int)
    requires
        strictly_sorted(before),
        strictly_sorted(after),
        0 <= i < before.len(),
        after == before.update(i, after[i]),
        after[i].key() == before[i].key(),
    ensures
        as_map(after) == as_map(before).insert(after[i].key(), after[i]),
        has_key(before, after[i].key()),
{
    let k = after[i].key();
    assert forall|q: Seq<u8>| has_key(after, q) == has_key(before, q) by {
        if has_key(after, q) {
            let j = choose|j: int| 0 <= j < after.len() && (#[trigger] after[j]).key() == q;
            assert(before[j].key() == q);
        }
        if has_key(before, q) {
            let j = choose|j: int| 0 <= j < before.len() && (#[trigger] before[j]).key() == q;
            assert(after[j].key() == q);
        }
    }
    assert(before[i].key() == k);
    assert(has_key(before, k));
    assert forall|q: Seq<u8>| has_key(after, q) implies row_of(after, q) == (if q == k {
        after[i]
    } else {
        row_of(before, q)
    }) by {
        let j = choose|j: int| 0 <= j < after.len() && (#[trigger] after[j]).key() == q;
        lemma_row_of(after, j);
        lemma_row_of(after, i);
        lemma_row_of(before, j);
        assert(before[j].key() == q);
    }
    assert(as_map(after) =~= as_map(before).insert(k, after[i]));
}

proof fn lemma_map_insert<T: Keyed>(before: Seq<T>, i: int, row: T)
    requires
        strictly_sorted(before),
        strictly_sorted(before.insert(i, row)),
        0 <= i <= before.len(),
    ensures
        as_map(before.insert(i, row)) == as_map(before).insert(row.key(), row),
{
    let after = before.insert(i, row);
    let k = row.key();
    assert(after[i] == row);
    lemma_row_of(after, i);
    assert forall|j: int| 0 <= j < before.len() implies exists|p: int|
        0 <= p < after.len() && p != i && after[p] == #[trigger] before[j] by {
        let p = if j < i {
            j
        } else {
            j + 1
        };
        assert(after[p] == before[j]);
    }
    assert forall|p: int| 0 <= p < after.len() && p != i implies exists|j: int|
        0 <= j < before.len() && before[j] == #[trigger] after[p] by {
        let j = if p < i {
            p
        } else {
            p - 1
        };
        assert(after[p] == before[j]);
    }
    assert forall|q: Seq<u8>| #[trigger]
        has_key(after, q) == (has_key(before, q) || q == k) by {
        if has_key(after, q) {
            let p = choose|p: int| 0 <= p < after.len() && (#[trigger] after[p]).key() == q;
            if p != i {
                let j = choose|j: int| 0 <= j < before.len() && before[j] == after[p];
                assert(before[j].key() == q);
            }
        }
        if has_key(before, q) {
            let j = choose|j: int| 0 <= j < before.len() && (#[trigger] before[j]).key() == q;
            let p = choose|p: int| 0 <= p < after.len() && p != i && after[p] == before[j];
            assert(after[p].key() == q);
        }
    }
    assert forall|q: Seq<u8>| has_key(before, q) && q != k implies row_of(after, q) == row_of(
        before,
        q,
    ) by {
        let j = choose|j: int| 0 <= j < before.len() && (#[trigger] before[j]).key() == q;
        lemma_row_of(before, j);
        let p = choose|p: int| 0 <= p < after.len() && p != i && after[p] == before[j];
        lemma_row_of(after, p);
    }
    assert(as_map(after) =~= as_map(before).insert(k, row));
}

proof fn lemma_map_remove<T: Keyed>(before: Seq<T>, i: int)
    requires
        strictly_sorted(before),
        strictly_sorted(before.remove(i)),
        0 <= i < before.len(),
    ensures
        as_map(before.remove(i)) == as_map(before).remove(before[i].key()),
{
    let after = before.remove(i);
    assert(after.insert(i, before[i]) =~= before);
    lemma_map_insert(after, i, before[i]);
    let k = before[i].key();
    lemma_row_of(before, i);
    assert(!has_key(after, k)) by {
        if has_key(after, k) {
            let p = choose|p: int| 0 <= p < after.len() && (#[trigger] after[p]).key() == k;
            let j = if p < i {
                p
            } else {
                p + 1
            };
            assert(before[j] == after[p]);
            assert(j == i);
        }
    }
    assert(as_map(after) =~= as_map(before).remove(k));
}

/// The map of a table has a key exactly where a row has it, and leads from it
/// to such a row.
pub proof fn law_map_is_of_the_rows<T: Keyed>(rows: Seq<T>, k: Seq<u8>)
    ensures
        as_map(rows).dom().contains(k) <==> exists|i: int|
            0 <= i < rows.len() && (#[trigger] rows[i]).key() == k,
        as_map(rows).dom().contains(k) ==> as_map(rows)[k].key() == k && rows.contains(
            as_map(rows)[k],
        ),
{
}

} // verus!
