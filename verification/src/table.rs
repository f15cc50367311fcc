//! Tables of rows, each found by its key.

use crate::text::same_text;
use vstd::prelude::*;

verus! {

/// A key of a [`Table`].
pub trait Key: Sized {
    /// What the key stands for.
    type Model;

    spec fn value(&self) -> Self::Model;

    /// Whether two keys stand for the same value.
    fn same(&self, other: &Self) -> (r: bool)
        ensures
            r == (self.value() == other.value()),
    ;
}

impl Key for u64 {
    type Model = u64;

    open spec fn value(&self) -> u64 {
        *self
    }

    fn same(&self, other: &Self) -> (r: bool) {
        *self == *other
    }
}

impl Key for (u64, u64) {
    type Model = (u64, u64);

    open spec fn value(&self) -> (u64, u64) {
        *self
    }

    fn same(&self, other: &Self) -> (r: bool) {
        self.0 == other.0 && self.1 == other.1
    }
}

impl Key for (u64, String) {
    type Model = (u64, Seq<char>);

    open spec fn value(&self) -> (u64, Seq<char>) {
        (self.0, self.1@)
    }

    fn same(&self, other: &Self) -> (r: bool) {
        self.0 == other.0 && same_text(self.1.as_str(), other.1.as_str())
    }
}

impl Key for String {
    type Model = Seq<char>;

    open spec fn value(&self) -> Seq<char> {
        self@
    }

    fn same(&self, other: &Self) -> (r: bool) {
        same_text(self.as_str(), other.as_str())
    }
}

/// What a row of a [`Table`] holds beside its key.
pub trait Row: Sized {
    /// What the row stands for.
    type Model;

    spec fn row(&self) -> Self::Model;

    /// The row is well formed in itself.
    spec fn ok(&self) -> bool;
}

/// A mark that a key is there, with nothing beside it.
#[derive(Debug, Clone, Copy)]
pub struct Mark;

impl Row for Mark {
    type Model = ();

    open spec fn row(&self) -> () {
        ()
    }

    open spec fn ok(&self) -> bool {
        true
    }
}

/// Rows with different keys.
#[derive(Debug)]
pub struct Table<K: Key, R: Row> {
    pub rows: Vec<(K, R)>,
}

/// Row `i` has the key `k`.
pub open spec fn row_has_key<K: Key, R: Row>(rows: Seq<(K, R)>, i: int, k: K::Model) -> bool {
    0 <= i < rows.len() && rows[i].0.value() == k
}

/// The contents of `rows`: the last row with a key counts.
pub open spec fn rows_map<K: Key, R: Row>(rows: Seq<(K, R)>) -> Map<K::Model, R::Model>
    decreases rows.len(),
{
    if rows.len() == 0 {
        Map::empty()
    } else {
        rows_map(rows.drop_last()).insert(rows.last().0.value(), rows.last().1.row())
    }
}

/// No two rows have the same key.
pub open spec fn distinct_keys<K: Key, R: Row>(rows: Seq<(K, R)>) -> bool {
    forall|i: int, j: int|
        0 <= i < j < rows.len() ==> (#[trigger] rows[i]).0.value() != (#[trigger] rows[j]).0.value()
}

/// Every row is well formed.
pub open spec fn rows_ok<K: Key, R: Row>(rows: Seq<(K, R)>) -> bool {
    forall|i: int| 0 <= i < rows.len() ==> (#[trigger] rows[i]).1.ok()
}

/// The contents hold exactly the keys of the rows, each with its row.
pub proof fn lemma_rows_map<K: Key, R: Row>(rows: Seq<(K, R)>)
    requires
        distinct_keys(rows),
    ensures
        forall|i: int|
            0 <= i < rows.len() ==> rows_map(rows).contains_key((#[trigger] rows[i]).0.value())
                && rows_map(rows)[rows[i].0.value()] == rows[i].1.row(),
        forall|k: K::Model| #[trigger]
            rows_map(rows).contains_key(k) ==> exists|i: int| row_has_key(rows, i, k),
        rows_map(rows).dom().finite(),
        rows_map(rows).len() == rows.len(),
    decreases rows.len(),
{
    if rows.len() > 0 {
        let front = rows.drop_last();
        let last = rows.last();
        assert(distinct_keys(front)) by {
            assert forall|i: int, j: int| 0 <= i < j < front.len() implies (
            #[trigger] front[i]).0.value() != (#[trigger] front[j]).0.value() by {
                assert(front[i] == rows[i] && front[j] == rows[j]);
            }
        }
        lemma_rows_map(front);
        assert(rows[rows.len() - 1] == last);
        assert(!rows_map(front).contains_key(last.0.value())) by {
            if rows_map(front).contains_key(last.0.value()) {
                let i = choose|i: int| row_has_key(front, i, last.0.value());
                assert(front[i] == rows[i]);
            }
        }
        assert forall|i: int| 0 <= i < rows.len() implies rows_map(rows).contains_key(
            (#[trigger] rows[i]).0.value(),
        ) && rows_map(rows)[rows[i].0.value()] == rows[i].1.row() by {
            if i < front.len() {
                assert(front[i] == rows[i]);
            }
        }
        assert forall|k: K::Model| #[trigger] rows_map(rows).contains_key(k) implies exists|i: int|
            row_has_key(rows, i, k) by {
            if k == last.0.value() {
                assert(row_has_key(rows, rows.len() - 1, k));
            } else {
                let i = choose|i: int| row_has_key(front, i, k);
                assert(row_has_key(rows, i, k));
            }
        }
    }
}

/// Two lists of distinct rows that hold the same rows have the same contents.
pub proof fn lemma_same_rows<K: Key, R: Row>(
    rows: Seq<(K, R)>,
    m: Map<K::Model, R::Model>,
)
    requires
        distinct_keys(rows),
        forall|i: int|
            0 <= i < rows.len() ==> m.contains_key((#[trigger] rows[i]).0.value())
                && m[rows[i].0.value()] == rows[i].1.row(),
        forall|k: K::Model| #[trigger] m.contains_key(k) ==> exists|i: int| row_has_key(rows, i, k),
    ensures
        rows_map(rows) == m,
{
    lemma_rows_map(rows);
    assert forall|k: K::Model| rows_map(rows).contains_key(k) == m.contains_key(k) by {
        if rows_map(rows).contains_key(k) {
            let i = choose|i: int| row_has_key(rows, i, k);
            assert(m.contains_key(rows[i].0.value()));
        }
        if m.contains_key(k) {
            let i = choose|i: int| row_has_key(rows, i, k);
            assert(rows_map(rows).contains_key(rows[i].0.value()));
        }
    }
    assert forall|k: K::Model| rows_map(rows).contains_key(k) implies rows_map(rows)[k]
        == m[k] by {
        let i = choose|i: int| row_has_key(rows, i, k);
        assert(m[rows[i].0.value()] == rows[i].1.row());
    }
    assert(rows_map(rows) =~= m);
}

impl<K: Key, R: Row> View for Table<K, R> {
    type V = Map<K::Model, R::Model>;

    open spec fn view(&self) -> Map<K::Model, R::Model> {
        rows_map(self.rows@)
    }
}

impl<K: Key, R: Row> Table<K, R> {
    /// Keys are distinct, and every row is well formed.
    pub open spec fn wf(&self) -> bool {
        distinct_keys(self.rows@) && rows_ok(self.rows@)
    }

    /// A table without rows.
    pub fn new() -> (r: Self)
        ensures
            r.wf(),
            r@ == Map::<K::Model, R::Model>::empty(),
    {
        Table { rows: Vec::new() }
    }

    /// A table with the given rows. Where two have the same key the later one
    /// counts.
    pub fn from_rows(rows: Vec<(K, R)>) -> (r: Self)
        requires
            rows_ok(rows@),
        ensures
            r.wf(),
            r@ == rows_map(rows@),
    {
        let ghost all = rows@;
        let mut rest = rows;
        let mut seen: Vec<(K, R)> = Vec::new();
        while rest.len() > 0
            invariant
                rest@ + seen@.reverse() == all,
            decreases rest@.len(),
        {
            let ghost before = rest@;
            let ghost done = seen@;
            match rest.pop() {
                Some(row) => {
                    seen.push(row);
                    assert(before == rest@.push(row));
                    assert(rest@ + seen@.reverse() =~= before + done.reverse());
                },
                None => {},
            }
        }
        let mut t = Table::new();
        let ghost order = seen@.reverse();
        assert(order =~= all);
        while seen.len() > 0
            invariant
                t.wf(),
                rows_ok(order),
                seen@.len() <= order.len(),
                seen@.reverse() == order.skip(order.len() - seen@.len()),
                t@ == rows_map(order.take(order.len() - seen@.len())),
            decreases seen@.len(),
        {
            let ghost n = order.len() - seen@.len();
            let ghost before = seen@;
            match seen.pop() {
                Some((k, row)) => {
                    proof {
                        assert(before == seen@.push((k, row)));
                        assert(before.reverse()[0] == (k, row));
                        assert(order[n] == order.skip(n)[0]);
                        assert(order.take(n + 1).drop_last() =~= order.take(n));
                        assert(seen@.reverse() =~= before.reverse().skip(1));
                        assert(order.skip(n).skip(1) =~= order.skip(n + 1));
                    }
                    t.put(k, row);
                },
                None => {},
            }
        }
        assert(order.take(order.len() as int) =~= order);
        t
    }

    /// How many rows there are.
    pub fn len(&self) -> (r: usize)
        requires
            self.wf(),
        ensures
            r == self@.len(),
            self@.dom().finite(),
    {
        proof {
            lemma_rows_map(self.rows@);
        }
        self.rows.len()
    }

    /// Where the row with key `k` stands.
    pub fn find(&self, k: &K) -> (r: Option<usize>)
        requires
            self.wf(),
        ensures
            match r {
                Some(i) => row_has_key(self.rows@, i as int, k.value()) && self@.contains_key(
                    k.value(),
                ) && self@[k.value()] == self.rows@[i as int].1.row(),
                None => !self@.contains_key(k.value()),
            },
    {
        proof {
            lemma_rows_map(self.rows@);
        }
        let mut i: usize = 0;
        while i < self.rows.len()
            invariant
                self.wf(),
                i <= self.rows@.len(),
                forall|j: int| 0 <= j < i ==> !row_has_key(self.rows@, j, k.value()),
            decreases self.rows@.len() - i,
        {
            if self.rows[i].0.same(k) {
                proof {
                    lemma_rows_map(self.rows@);
                }
                return Some(i);
            }
            i += 1;
        }
        None
    }

    /// The row with key `k`.
    pub fn get(&self, k: &K) -> (r: Option<&R>)
        requires
            self.wf(),
        ensures
            match r {
                Some(row) => self@.contains_key(k.value()) && row.row() == self@[k.value()]
                    && row.ok(),
                None => !self@.contains_key(k.value()),
            },
    {
        match self.find(k) {
            Some(i) => Some(&self.rows[i].1),
            None => None,
        }
    }

    /// Makes `row` the row with key `k`.
    pub fn put(&mut self, k: K, row: R)
        requires
            old(self).wf(),
            row.ok(),
        ensures
            final(self).wf(),
            final(self)@ == old(self)@.insert(k.value(), row.row()),
    {
        let ghost before = self.rows@;
        let ghost m = self@.insert(k.value(), row.row());
        proof {
            lemma_rows_map(before);
        }
        match self.find(&k) {
            Some(i) => {
                let ghost new = (k, row);
                self.rows[i] = (k, row);
                proof {
                    let rows = self.rows@;
                    assert(rows == before.update(i as int, new));
                    assert forall|kk: K::Model| #[trigger] m.contains_key(kk) implies exists|
                        j: int,
                    | row_has_key(rows, j, kk) by {
                        let j = choose|j: int| row_has_key(before, j, kk);
                        assert(row_has_key(rows, j, kk));
                    }
                    lemma_same_rows(rows, m);
                }
            },
            None => {
                let ghost new = (k, row);
                self.rows.push((k, row));
                proof {
                    let rows = self.rows@;
                    assert(rows == before.push(new));
                    assert forall|i: int| 0 <= i < before.len() implies (
                    #[trigger] before[i]).0.value() != new.0.value() by {
                        assert(old(self)@.contains_key(before[i].0.value()));
                    }
                    assert(rows.drop_last() =~= before);
                }
            },
        }
    }

    /// Removes row `i` and hands it out. The last row takes its place.
    pub fn take_at(&mut self, i: usize) -> (r: (K, R))
        requires
            old(self).wf(),
            i < old(self).rows@.len(),
        ensures
            final(self).wf(),
            final(self).rows@ == old(self).rows@.update(
                i as int,
                old(self).rows@.last(),
            ).drop_last(),
            final(self)@ == old(self)@.remove(old(self).rows@[i as int].0.value()),
            r == old(self).rows@[i as int],
            r.1.ok(),
    {
        let ghost before = self.rows@;
        let ghost m = self@.remove(before[i as int].0.value());
        proof {
            lemma_rows_map(before);
        }
        let r = self.rows.swap_remove(i);
        proof {
            let rows = self.rows@;
            assert forall|j: int| 0 <= j < rows.len() implies #[trigger] rows[j] == (if j == i {
                before.last()
            } else {
                before[j]
            }) by {}
            assert(distinct_keys(rows));
            assert forall|kk: K::Model| #[trigger] m.contains_key(kk) implies exists|j: int|
                row_has_key(rows, j, kk) by {
                let j = choose|j: int| row_has_key(before, j, kk);
                if j == before.len() - 1 {
                    assert(row_has_key(rows, i as int, kk));
                } else {
                    assert(row_has_key(rows, j, kk));
                }
            }
            lemma_same_rows(rows, m);
        }
        r
    }

    /// Removes row `i`. The last row takes its place.
    pub fn remove_at(&mut self, i: usize)
        requires
            old(self).wf(),
            i < old(self).rows@.len(),
        ensures
            final(self).wf(),
            final(self).rows@ == old(self).rows@.update(
                i as int,
                old(self).rows@.last(),
            ).drop_last(),
            final(self)@ == old(self)@.remove(old(self).rows@[i as int].0.value()),
    {
        let _ = self.take_at(i);
    }

    /// Removes the row with key `k` and hands it out, if there is one.
    pub fn take(&mut self, k: &K) -> (r: Option<R>)
        requires
            old(self).wf(),
        ensures
            final(self).wf(),
            final(self)@ == old(self)@.remove(k.value()),
            match r {
                Some(row) => old(self)@.contains_key(k.value()) && row.row() == old(
                    self,
                )@[k.value()] && row.ok(),
                None => !old(self)@.contains_key(k.value()),
            },
    {
        match self.find(k) {
            Some(i) => Some(self.take_at(i).1),
            None => {
                assert(self@ =~= self@.remove(k.value()));
                None
            },
        }
    }

    /// Removes the row with key `k`, if there is one.
    pub fn remove(&mut self, k: &K)
        requires
            old(self).wf(),
        ensures
            final(self).wf(),
            final(self)@ == old(self)@.remove(k.value()),
    {
        match self.find(k) {
            Some(i) => self.remove_at(i),
            None => {
                assert(self@ =~= self@.remove(k.value()));
            },
        }
    }
}

} // verus!
