//! A map from numeric ids, walked in ascending id order.

use vstd::prelude::*;

verus! {

/// Rows in strictly ascending id order.
pub struct IdMap<V> {
    rows: Vec<(u64, V)>,
}

pub open spec fn ascending<V>(rows: Seq<(u64, V)>) -> bool {
    forall|i: int, j: int| 0 <= i < j < rows.len() ==> rows[i].0 < rows[j].0
}

/// Whether some row has the id `id`.
pub open spec fn has_row<V>(rows: Seq<(u64, V)>, id: u64) -> bool {
    exists|i: int| 0 <= i < rows.len() && rows[i].0 == id
}

/// The position of the row with the id `id`.
pub open spec fn row_of<V>(rows: Seq<(u64, V)>, id: u64) -> int {
    choose|i: int| 0 <= i < rows.len() && rows[i].0 == id
}

/// The map that the rows stand for.
pub open spec fn rows_map<V>(rows: Seq<(u64, V)>) -> Map<u64, V> {
    Map::new(|id: u64| has_row(rows, id), |id: u64| rows[row_of(rows, id)].1)
}

pub proof fn lemma_row_of<V>(rows: Seq<(u64, V)>, i: int)
    requires
        ascending(rows),
        0 <= i < rows.len(),
    ensures
        has_row(rows, rows[i].0),
        row_of(rows, rows[i].0) == i,
        rows_map(rows).dom().contains(rows[i].0),
        rows_map(rows)[rows[i].0] == rows[i].1,
{
    let j = row_of(rows, rows[i].0);
    assert(0 <= j < rows.len() && rows[j].0 == rows[i].0);
    if j < i {
        assert(rows[j].0 < rows[i].0);
    }
    if i < j {
        assert(rows[i].0 < rows[j].0);
    }
}

pub proof fn lemma_front_rows<V>(rows: Seq<(u64, V)>, k: u64)
    requires
        ascending(rows),
        rows.len() > 0,
    ensures
        has_row(rows.drop_last(), k) == (has_row(rows, k) && k != rows.last().0),
{
    let front = rows.drop_last();
    if has_row(front, k) {
        let m = row_of(front, k);
        assert(rows[m].0 == k);
        assert(rows[m].0 < rows[rows.len() - 1].0);
    }
    if has_row(rows, k) && k != rows.last().0 {
        let m = row_of(rows, k);
        assert(front[m].0 == k);
    }
}

/// There is a row for each id.
pub proof fn lemma_rows_count<V>(rows: Seq<(u64, V)>)
    requires
        ascending(rows),
    ensures
        rows_map(rows).dom().finite(),
        rows_map(rows).dom().len() == rows.len(),
    decreases rows.len(),
{
    let ids = rows_map(rows).dom();
    if rows.len() == 0 {
        assert(ids =~= Set::<u64>::empty());
    } else {
        let front = rows_map(rows.drop_last()).dom();
        lemma_rows_count(rows.drop_last());
        assert forall|k: u64| ids.contains(k) == #[trigger] front.insert(rows.last().0).contains(
            k,
        ) by {
            lemma_front_rows(rows, k);
            lemma_row_of(rows, rows.len() - 1);
        }
        assert(ids =~= front.insert(rows.last().0));
        lemma_front_rows(rows, rows.last().0);
    }
}

/// Rows in ascending order are determined by the map that they stand for.
pub proof fn lemma_rows_determined<V>(a: Seq<(u64, V)>, b: Seq<(u64, V)>)
    requires
        ascending(a),
        ascending(b),
        rows_map(a) == rows_map(b),
    ensures
        a == b,
    decreases a.len() + b.len(),
{
    if a.len() == 0 {
        if b.len() > 0 {
            lemma_row_of(b, 0);
            assert(has_row(a, b[0].0));
        }
        assert(a =~= b);
    } else if b.len() == 0 {
        lemma_row_of(a, 0);
        assert(has_row(b, a[0].0));
    } else {
        let la = a.last();
        let lb = b.last();
        lemma_row_of(a, a.len() - 1);
        lemma_row_of(b, b.len() - 1);
        assert(has_row(b, la.0));
        assert(has_row(a, lb.0));
        let i = row_of(b, la.0);
        let j = row_of(a, lb.0);
        if la.0 != lb.0 {
            if i < b.len() - 1 {
                assert(b[i].0 < b[b.len() - 1].0);
            }
            if j < a.len() - 1 {
                assert(a[j].0 < a[a.len() - 1].0);
            }
        }
        assert(la.0 == lb.0);
        assert(la.1 == lb.1);
        let fa = a.drop_last();
        let fb = b.drop_last();
        assert forall|k: u64| has_row(fa, k) implies #[trigger] rows_map(fa)[k] == rows_map(fb)[k] by {
            lemma_front_rows(a, k);
            lemma_front_rows(b, k);
            assert(rows_map(a).dom().contains(k));
            assert(rows_map(b).dom().contains(k));
            let m = row_of(fa, k);
            lemma_row_of(fa, m);
            lemma_row_of(a, m);
            assert(has_row(fb, k));
            let n = row_of(fb, k);
            lemma_row_of(fb, n);
            lemma_row_of(b, n);
        }
        assert forall|k: u64| rows_map(fa).dom().contains(k) == rows_map(fb).dom().contains(k) by {
            assert(rows_map(a).dom().contains(k) == has_row(a, k));
            assert(rows_map(b).dom().contains(k) == has_row(b, k));
            assert(rows_map(fa).dom().contains(k) == has_row(fa, k));
            assert(rows_map(fb).dom().contains(k) == has_row(fb, k));
            lemma_front_rows(a, k);
            lemma_front_rows(b, k);
        }
        assert(rows_map(fa) =~= rows_map(fb));
        lemma_rows_determined(fa, fb);
        assert(a =~= fa.push(la));
        assert(b =~= fb.push(lb));
    }
}

pub proof fn lemma_row_update<V>(rows: Seq<(u64, V)>, at: int, v: V)
    requires
        ascending(rows),
        0 <= at < rows.len(),
    ensures
        ascending(rows.update(at, (rows[at].0, v))),
        rows_map(rows.update(at, (rows[at].0, v))) == rows_map(rows).insert(rows[at].0, v),
{
    let id = rows[at].0;
    let after = rows.update(at, (id, v));
    assert(ascending(after));
    assert forall|k: u64| has_row(after, k) == (has_row(rows, k) || k == id) by {
        if has_row(rows, k) {
            let i = row_of(rows, k);
            assert(after[i].0 == k);
        }
        if has_row(after, k) {
            let i = row_of(after, k);
            assert(rows[i].0 == k);
        }
        assert(after[at].0 == id);
    }
    assert forall|k: u64| has_row(after, k) implies rows_map(after)[k] == rows_map(rows).insert(
        id,
        v,
    )[k] by {
        let i = row_of(after, k);
        lemma_row_of(after, i);
        lemma_row_of(rows, i);
        lemma_row_of(after, at);
    }
    assert(rows_map(after) =~= rows_map(rows).insert(id, v));
}

/// Distinct ids in ascending order are at least as large as their positions.
proof fn lemma_ascending_floor<V>(rows: Seq<(u64, V)>, i: int)
    requires
        ascending(rows),
        0 <= i < rows.len(),
    ensures
        rows[i].0 >= i,
    decreases i,
{
    if i > 0 {
        lemma_ascending_floor(rows, i - 1);
        assert(rows[i - 1].0 < rows[i].0);
    }
}

proof fn lemma_row_remove<V>(rows: Seq<(u64, V)>, at: int)
    requires
        ascending(rows),
        0 <= at < rows.len(),
    ensures
        ascending(rows.remove(at)),
        rows_map(rows.remove(at)) == rows_map(rows).remove(rows[at].0),
{
    let id = rows[at].0;
    let after = rows.remove(at);
    assert forall|i: int, j: int| 0 <= i < j < after.len() implies after[i].0 < after[j].0 by {
        let a = if i < at {
            i
        } else {
            i + 1
        };
        let b = if j < at {
            j
        } else {
            j + 1
        };
        assert(after[i] == rows[a] && after[j] == rows[b]);
    }
    assert forall|k: u64| has_row(after, k) == (has_row(rows, k) && k != id) by {
        if has_row(rows, k) && k != id {
            let i = row_of(rows, k);
            if i < at {
                assert(after[i].0 == k);
            } else {
                assert(after[i - 1].0 == k);
            }
        }
        if has_row(after, k) {
            let i = row_of(after, k);
            let j = if i < at {
                i
            } else {
                i + 1
            };
            assert(rows[j].0 == k);
            if k == id {
                lemma_row_of(rows, j);
                lemma_row_of(rows, at);
            }
        }
    }
    assert forall|k: u64| has_row(after, k) implies rows_map(after)[k] == rows_map(rows)[k] by {
        let i = row_of(after, k);
        let j = if i < at {
            i
        } else {
            i + 1
        };
        lemma_row_of(after, i);
        lemma_row_of(rows, j);
    }
    assert(rows_map(after) =~= rows_map(rows).remove(id));
}

/// What the values of all rows weigh together.
pub open spec fn weigh<V>(rows: Seq<(u64, V)>, w: spec_fn(V) -> nat) -> nat
    decreases rows.len(),
{
    if rows.len() == 0 {
        0
    } else {
        weigh(rows.drop_last(), w) + w(rows.last().1)
    }
}

proof fn lemma_weigh_at<V>(rows: Seq<(u64, V)>, w: spec_fn(V) -> nat, at: int)
    requires
        0 <= at < rows.len(),
    ensures
        weigh(rows, w) == weigh(rows.remove(at), w) + w(rows[at].1),
    decreases rows.len(),
{
    if at == rows.len() - 1 {
        assert(rows.remove(at) =~= rows.drop_last());
    } else {
        lemma_weigh_at(rows.drop_last(), w, at);
        assert(rows.remove(at).drop_last() =~= rows.drop_last().remove(at));
        assert(rows.remove(at).last() == rows.last());
    }
}

/// Taking one value away takes its weight away.
pub proof fn lemma_weigh_remove<V>(
    before: IdMap<V>,
    after: IdMap<V>,
    id: u64,
    w: spec_fn(V) -> nat,
)
    requires
        before.wf(),
        after.wf(),
        before@.dom().contains(id),
        after@ == before@.remove(id),
    ensures
        weigh(before.spec_rows(), w) == weigh(after.spec_rows(), w) + w(before@[id]),
{
    let rows = before.spec_rows();
    let at = row_of(rows, id);
    lemma_row_of(rows, at);
    lemma_row_remove(rows, at);
    lemma_rows_determined(after.spec_rows(), rows.remove(at));
    lemma_weigh_at(rows, w, at);
}

/// One value weighs no more than all.
pub proof fn lemma_weigh_member<V>(m: IdMap<V>, id: u64, w: spec_fn(V) -> nat)
    requires
        m.wf(),
        m@.dom().contains(id),
    ensures
        w(m@[id]) <= weigh(m.spec_rows(), w),
{
    let rows = m.spec_rows();
    let at = row_of(rows, id);
    lemma_row_of(rows, at);
    lemma_weigh_at(rows, w, at);
}

/// Setting one value, new or not, changes the weight by what that value weighs
/// more or less.
pub proof fn lemma_weigh_insert<V>(
    before: IdMap<V>,
    after: IdMap<V>,
    id: u64,
    w: spec_fn(V) -> nat,
)
    requires
        before.wf(),
        after.wf(),
        after@ == before@.insert(id, after@[id]),
    ensures
        before@.dom().contains(id) ==> weigh(after.spec_rows(), w) + w(before@[id]) == weigh(
            before.spec_rows(),
            w,
        ) + w(after@[id]),
        !before@.dom().contains(id) ==> weigh(after.spec_rows(), w) == weigh(
            before.spec_rows(),
            w,
        ) + w(after@[id]),
{
    let rows = after.spec_rows();
    let at = row_of(rows, id);
    assert(after@.dom().contains(id));
    lemma_row_of(rows, at);
    lemma_row_remove(rows, at);
    lemma_weigh_at(rows, w, at);
    if before@.dom().contains(id) {
        let olds = before.spec_rows();
        let o = row_of(olds, id);
        lemma_row_of(olds, o);
        lemma_row_remove(olds, o);
        lemma_weigh_at(olds, w, o);
        assert(after@.remove(id) =~= before@.remove(id));
        lemma_rows_determined(rows.remove(at), olds.remove(o));
    } else {
        assert(after@.remove(id) =~= before@);
        lemma_rows_determined(rows.remove(at), before.spec_rows());
    }
}

impl<V> IdMap<V> {
    /// The rows, in ascending id order.
    pub closed spec fn spec_rows(self) -> Seq<(u64, V)> {
        self.rows@
    }

    pub closed spec fn wf(self) -> bool {
        ascending(self.rows@)
    }

    pub open spec fn view(self) -> Map<u64, V> {
        rows_map(self.spec_rows())
    }

    pub proof fn lemma_rows(self)
        requires
            self.wf(),
        ensures
            ascending(self.spec_rows()),
    {
    }

    /// A map has as many rows as ids.
    pub proof fn lemma_count(self)
        requires
            self.wf(),
        ensures
            self@.dom().finite(),
            self@.dom().len() == self.spec_rows().len(),
    {
        lemma_rows_count(self.spec_rows());
    }

    /// A map is determined by what it holds.
    pub proof fn lemma_same(self, other: Self)
        requires
            self.wf(),
            other.wf(),
            self@ == other@,
        ensures
            self.spec_rows() == other.spec_rows(),
    {
        lemma_rows_determined(self.spec_rows(), other.spec_rows());
    }

    /// A map that holds nothing has no rows.
    pub proof fn lemma_empty(self)
        requires
            self.wf(),
            self@ == Map::<u64, V>::empty(),
        ensures
            self.spec_rows().len() == 0,
    {
        let rows = self.spec_rows();
        if rows.len() > 0 {
            lemma_row_of(rows, 0);
            assert(self@.dom().contains(rows[0].0));
        }
    }

    /// The least id that no row has.
    pub fn free_id(&self) -> (id: u64)
        requires
            self.wf(),
        ensures
            !self@.dom().contains(id),
            forall|k: u64| k < id ==> #[trigger] self@.dom().contains(k),
    {
        let ghost rows = self.rows@;
        let mut i: usize = 0;
        while i < self.rows.len() && self.rows[i].0 == i as u64
            invariant
                self.wf(),
                rows == self.rows@,
                i <= rows.len(),
                forall|k: int| 0 <= k < i ==> (#[trigger] rows[k]).0 == k,
            decreases rows.len() - i,
        {
            i = i + 1;
        }
        proof {
            assert forall|k: int| 0 <= k < rows.len() implies (#[trigger] rows[k]).0 != i by {
                if k >= i {
                    if k > i {
                        assert(rows[i as int].0 < rows[k].0);
                    }
                    lemma_ascending_floor(rows, i as int);
                }
            }
            assert forall|k: u64| k < i implies #[trigger] self@.dom().contains(k) by {
                assert(rows[k as int].0 == k);
            }
        }
        i as u64
    }

    pub fn new() -> (m: Self)
        ensures
            m.wf(),
            m.spec_rows() == Seq::<(u64, V)>::empty(),
            m@ == Map::<u64, V>::empty(),
    {
        let m = IdMap { rows: Vec::new() };
        proof {
            assert(m@ =~= Map::<u64, V>::empty());
        }
        m
    }

    pub fn len(&self) -> (n: usize)
        ensures
            n == self.spec_rows().len(),
    {
        self.rows.len()
    }

    /// The first position whose id is not below `id`.
    fn find(&self, id: u64) -> (at: usize)
        requires
            self.wf(),
        ensures
            at <= self.rows@.len(),
            forall|k: int| 0 <= k < at ==> self.rows@[k].0 < id,
            forall|k: int| at <= k < self.rows@.len() ==> self.rows@[k].0 >= id,
    {
        let mut lo: usize = 0;
        let mut hi: usize = self.rows.len();
        while lo < hi
            invariant
                self.wf(),
                lo <= hi <= self.rows@.len(),
                forall|k: int| 0 <= k < lo ==> self.rows@[k].0 < id,
                forall|k: int| hi <= k < self.rows@.len() ==> self.rows@[k].0 >= id,
            decreases hi - lo,
        {
            let mid: usize = lo + (hi - lo) / 2;
            if self.rows[mid].0 < id {
                proof {
                    assert forall|k: int| 0 <= k < mid + 1 implies self.rows@[k].0 < id by {
                        if k < mid {
                            assert(self.rows@[k].0 < self.rows@[mid as int].0);
                        }
                    }
                }
                lo = mid + 1;
            } else {
                proof {
                    assert forall|k: int| mid <= k < self.rows@.len() implies self.rows@[k].0
                        >= id by {
                        if k > mid {
                            assert(self.rows@[mid as int].0 < self.rows@[k].0);
                        }
                    }
                }
                hi = mid;
            }
        }
        lo
    }

    /// The position of the row with the id `id`, if there is one.
    pub fn position(&self, id: u64) -> (r: Option<usize>)
        requires
            self.wf(),
        ensures
            r is Some == self@.dom().contains(id),
            match r {
                Some(i) => i < self.spec_rows().len() && self.spec_rows()[i as int].0 == id
                    && self@[id] == self.spec_rows()[i as int].1,
                None => forall|k: int|
                    0 <= k < self.spec_rows().len() ==> (#[trigger] self.spec_rows()[k]).0 != id,
            },
    {
        let at = self.find(id);
        if at < self.rows.len() && self.rows[at].0 == id {
            proof {
                lemma_row_of(self.rows@, at as int);
            }
            Some(at)
        } else {
            None
        }
    }

    pub fn contains(&self, id: u64) -> (r: bool)
        requires
            self.wf(),
        ensures
            r == self@.dom().contains(id),
    {
        self.position(id).is_some()
    }

    pub fn get(&self, id: u64) -> (r: Option<&V>)
        requires
            self.wf(),
        ensures
            match r {
                Some(v) => self@.dom().contains(id) && *v == self@[id],
                None => !self@.dom().contains(id),
            },
    {
        match self.position(id) {
            Some(i) => Some(&self.rows[i].1),
            None => None,
        }
    }

    /// The id of the row at `i`.
    pub fn id_at(&self, i: usize) -> (id: u64)
        requires
            self.wf(),
            i < self.spec_rows().len(),
        ensures
            id == self.spec_rows()[i as int].0,
            self@.dom().contains(id),
            self@[id] == self.spec_rows()[i as int].1,
    {
        proof {
            lemma_row_of(self.rows@, i as int);
        }
        self.rows[i].0
    }

    /// The value of the row at `i`.
    pub fn value_at(&self, i: usize) -> (v: &V)
        requires
            self.wf(),
            i < self.spec_rows().len(),
        ensures
            *v == self.spec_rows()[i as int].1,
            self@.dom().contains(self.spec_rows()[i as int].0),
            self@[self.spec_rows()[i as int].0] == *v,
    {
        proof {
            lemma_row_of(self.rows@, i as int);
        }
        &self.rows[i].1
    }

    /// The value of the row at a position, to be changed in place.
    pub fn at_mut(&mut self, i: usize) -> (v: &mut V)
        requires
            old(self).wf(),
            i < old(self).spec_rows().len(),
        ensures
            *v == old(self).spec_rows()[i as int].1,
            final(self).wf(),
            final(self).spec_rows() == old(self).spec_rows().update(
                i as int,
                (old(self).spec_rows()[i as int].0, *final(v)),
            ),
            final(self)@ == old(self)@.insert(old(self).spec_rows()[i as int].0, *final(v)),
    {
        proof {
            assert forall|x: V| ascending(
                #[trigger] self.rows@.update(i as int, (self.rows@[i as int].0, x)),
            ) && rows_map(self.rows@.update(i as int, (self.rows@[i as int].0, x))) == rows_map(
                self.rows@,
            ).insert(self.rows@[i as int].0, x) by {
                lemma_row_update(self.rows@, i as int, x);
            }
        }
        &mut self.rows[i].1
    }

    /// The value for `id`, open to change in place.
    pub fn get_mut(&mut self, id: u64) -> (r: Option<&mut V>)
        requires
            old(self).wf(),
        ensures
            match r {
                Some(v) => {
                    &&& old(self)@.dom().contains(id)
                    &&& *v == old(self)@[id]
                    &&& final(self).wf()
                    &&& final(self)@ == old(self)@.insert(id, *final(v))
                },
                None => !old(self)@.dom().contains(id) && *final(self) == *old(self),
            },
    {
        let found = self.position(id);
        match found {
            Some(at) => {
                proof {
                    assert forall|v: V|
                        ascending(#[trigger] self.rows@.update(at as int, (id, v))) && rows_map(
                            self.rows@.update(at as int, (id, v)),
                        ) == rows_map(self.rows@).insert(id, v) by {
                        lemma_row_update(self.rows@, at as int, v);
                    }
                }
                let row = &mut self.rows[at];
                Some(&mut row.1)
            },
            None => None,
        }
    }

    /// Sets the value for `id`, adding a row where there is none.
    pub fn insert(&mut self, id: u64, v: V)
        requires
            old(self).wf(),
        ensures
            final(self).wf(),
            final(self)@ == old(self)@.insert(id, v),
    {
        let at = self.find(id);
        let ghost before = self.rows@;
        if at < self.rows.len() && self.rows[at].0 == id {
            proof {
                lemma_row_update(before, at as int, v);
            }
            self.rows.set(at, (id, v));
        } else {
            self.rows.insert(at, (id, v));
            proof {
                let after = self.rows@;
                assert(after =~= before.insert(at as int, (id, v)));
                assert forall|i: int, j: int| 0 <= i < j < after.len() implies after[i].0
                    < after[j].0 by {
                    if i < at && j > at {
                        assert(before[i].0 < id);
                    }
                }
                assert forall|k: u64| has_row(after, k) == (has_row(before, k) || k == id) by {
                    if has_row(before, k) {
                        let i = row_of(before, k);
                        if i < at {
                            assert(after[i].0 == k);
                        } else {
                            assert(after[i + 1].0 == k);
                        }
                    }
                    if has_row(after, k) {
                        let i = row_of(after, k);
                        if i < at {
                            assert(before[i].0 == k);
                        } else if i > at {
                            assert(before[i - 1].0 == k);
                        }
                    }
                    assert(after[at as int].0 == id);
                }
                assert forall|k: u64| has_row(after, k) implies rows_map(after)[k]
                    == rows_map(before).insert(id, v)[k] by {
                    let i = row_of(after, k);
                    lemma_row_of(after, i);
                    if i < at {
                        lemma_row_of(before, i);
                    } else if i > at {
                        lemma_row_of(before, i - 1);
                    }
                }
                assert(rows_map(after) =~= rows_map(before).insert(id, v));
            }
        }
    }

    /// Takes the row with the id `id` out.
    pub fn remove(&mut self, id: u64) -> (r: Option<V>)
        requires
            old(self).wf(),
        ensures
            final(self).wf(),
            final(self)@ == old(self)@.remove(id),
            match r {
                Some(v) => old(self)@.dom().contains(id) && v == old(self)@[id],
                None => !old(self)@.dom().contains(id) && final(self)@ == old(self)@,
            },
    {
        let found = self.position(id);
        let ghost before = self.rows@;
        match found {
            Some(at) => {
                let row = self.rows.remove(at);
                proof {
                    let after = self.rows@;
                    assert(after =~= before.remove(at as int));
                    assert forall|k: u64| has_row(after, k) == (has_row(before, k) && k != id) by {
                        if has_row(before, k) && k != id {
                            let i = row_of(before, k);
                            if i < at {
                                assert(after[i].0 == k);
                            } else {
                                assert(after[i - 1].0 == k);
                            }
                        }
                        if has_row(after, k) {
                            let i = row_of(after, k);
                            if i < at {
                                assert(before[i].0 == k);
                            } else {
                                assert(before[i + 1].0 == k);
                            }
                        }
                    }
                    assert forall|k: u64| has_row(after, k) implies rows_map(after)[k]
                        == rows_map(before)[k] by {
                        let i = row_of(after, k);
                        lemma_row_of(after, i);
                        if i < at {
                            lemma_row_of(before, i);
                        } else {
                            lemma_row_of(before, i + 1);
                        }
                    }
                    assert(rows_map(after) =~= rows_map(before).remove(id));
                }
                Some(row.1)
            },
            None => {
                proof {
                    assert(self@.remove(id) =~= self@);
                }
                None
            },
        }
    }
}

} // verus!
