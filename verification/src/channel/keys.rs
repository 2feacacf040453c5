//! A map from channels, walked in the order in which they were added.

use vstd::prelude::*;

verus! {

/// A channel as its endpoint names it.
#[derive(Clone, Copy, Debug, PartialEq, Eq, Structural)]
pub struct ChannelKey {
    pub endpoint: u64,
    pub channel_id: u32,
}

/// Rows with distinct keys.
pub struct KeyMap<V> {
    rows: Vec<(ChannelKey, V)>,
}

pub open spec fn distinct<V>(rows: Seq<(ChannelKey, V)>) -> bool {
    forall|i: int, j: int|
        0 <= i < rows.len() && 0 <= j < rows.len() && (#[trigger] rows[i]).0 == (
        #[trigger] rows[j]).0 ==> i == j
}

/// Whether some row has the key.
pub open spec fn keyed<V>(rows: Seq<(ChannelKey, V)>, key: ChannelKey) -> bool {
    exists|i: int| 0 <= i < rows.len() && (#[trigger] rows[i]).0 == key
}

/// The position of the row with the key.
pub open spec fn place<V>(rows: Seq<(ChannelKey, V)>, key: ChannelKey) -> int {
    choose|i: int| 0 <= i < rows.len() && (#[trigger] rows[i]).0 == key
}

/// The map that the rows stand for.
pub open spec fn keyed_map<V>(rows: Seq<(ChannelKey, V)>) -> Map<ChannelKey, V> {
    Map::new(|key: ChannelKey| keyed(rows, key), |key: ChannelKey| rows[place(rows, key)].1)
}

/// The keys of one endpoint, in order.
pub open spec fn owned<V>(rows: Seq<(ChannelKey, V)>, endpoint: u64) -> Seq<ChannelKey>
    decreases rows.len(),
{
    if rows.len() == 0 {
        Seq::empty()
    } else {
        let rest = owned(rows.drop_last(), endpoint);
        if rows.last().0.endpoint == endpoint {
            rest.push(rows.last().0)
        } else {
            rest
        }
    }
}

pub proof fn lemma_place<V>(rows: Seq<(ChannelKey, V)>, i: int)
    requires
        distinct(rows),
        0 <= i < rows.len(),
    ensures
        keyed(rows, rows[i].0),
        place(rows, rows[i].0) == i,
        keyed_map(rows).dom().contains(rows[i].0),
        keyed_map(rows)[rows[i].0] == rows[i].1,
{
    let key = rows[i].0;
    assert(rows[i].0 == key);
    let j = place(rows, key);
    assert(0 <= j < rows.len() && rows[j].0 == key);
}

proof fn lemma_pushed<V>(before: Seq<(ChannelKey, V)>, row: (ChannelKey, V))
    requires
        distinct(before),
        !keyed(before, row.0),
    ensures
        distinct(before.push(row)),
        keyed_map(before.push(row)) == keyed_map(before).insert(row.0, row.1),
{
    let after = before.push(row);
    assert forall|i: int, j: int|
        0 <= i < after.len() && 0 <= j < after.len() && (#[trigger] after[i]).0 == (
        #[trigger] after[j]).0 implies i == j by {
        if i < before.len() && j == before.len() {
            assert(before[i].0 == row.0);
        }
        if j < before.len() && i == before.len() {
            assert(before[j].0 == row.0);
        }
        if i < before.len() && j < before.len() {
            assert(before[i].0 == before[j].0);
        }
    }
    lemma_place(after, before.len() as int);
    assert forall|k: ChannelKey| keyed(after, k) == (keyed(before, k) || k == row.0) by {
        if keyed(before, k) {
            let i = place(before, k);
            assert(after[i].0 == k);
        }
        if keyed(after, k) {
            let i = place(after, k);
            if i < before.len() {
                assert(before[i].0 == k);
            }
        }
    }
    assert forall|k: ChannelKey| keyed(after, k) implies keyed_map(after)[k] == keyed_map(
        before,
    ).insert(row.0, row.1)[k] by {
        let i = place(after, k);
        lemma_place(after, i);
        if i < before.len() {
            lemma_place(before, i);
            assert(before[i] == after[i]);
        }
    }
    assert(keyed_map(after) =~= keyed_map(before).insert(row.0, row.1));
}

proof fn lemma_removed<V>(before: Seq<(ChannelKey, V)>, at: int)
    requires
        distinct(before),
        0 <= at < before.len(),
    ensures
        distinct(before.remove(at)),
        keyed_map(before.remove(at)) == keyed_map(before).remove(before[at].0),
{
    let after = before.remove(at);
    let key = before[at].0;
    assert forall|i: int| 0 <= i < after.len() implies #[trigger] after[i] == before[if i < at {
        i
    } else {
        i + 1
    }] by {}
    assert forall|k: ChannelKey| keyed(after, k) == (keyed(before, k) && k != key) by {
        if keyed(before, k) && k != key {
            let i = place(before, k);
            if i < at {
                assert(after[i].0 == k);
            } else {
                assert(after[i - 1].0 == k);
            }
        }
        if keyed(after, k) {
            let i = place(after, k);
            let j = if i < at {
                i
            } else {
                i + 1
            };
            assert(before[j].0 == k);
            assert(before[at].0 == key);
        }
    }
    assert forall|k: ChannelKey| keyed(after, k) implies keyed_map(after)[k] == keyed_map(
        before,
    )[k] by {
        let i = place(after, k);
        let j = if i < at {
            i
        } else {
            i + 1
        };
        lemma_place(after, i);
        lemma_place(before, j);
    }
    assert(keyed_map(after) =~= keyed_map(before).remove(key));
}

pub proof fn lemma_row_set<V>(before: Seq<(ChannelKey, V)>, at: int, v: V)
    requires
        distinct(before),
        0 <= at < before.len(),
    ensures
        distinct(before.update(at, (before[at].0, v))),
        keyed_map(before.update(at, (before[at].0, v))) == keyed_map(before).insert(
            before[at].0,
            v,
        ),
{
    let after = before.update(at, (before[at].0, v));
    let key = before[at].0;
    assert forall|i: int| 0 <= i < after.len() implies (#[trigger] after[i]).0 == before[i].0 by {}
    assert forall|k: ChannelKey| keyed(after, k) == (keyed(before, k) || k == key) by {
        if keyed(before, k) {
            let i = place(before, k);
            assert(after[i].0 == k);
        }
        if keyed(after, k) {
            let i = place(after, k);
            assert(before[i].0 == k);
        }
        assert(after[at].0 == key);
    }
    assert forall|k: ChannelKey| keyed(after, k) implies keyed_map(after)[k] == keyed_map(
        before,
    ).insert(key, v)[k] by {
        let i = place(after, k);
        lemma_place(after, i);
        lemma_place(before, i);
    }
    assert(keyed_map(after) =~= keyed_map(before).insert(key, v));
}

/// The keys of an endpoint are those of its rows, each once.
pub proof fn lemma_owned<V>(rows: Seq<(ChannelKey, V)>, endpoint: u64)
    requires
        distinct(rows),
    ensures
        forall|k: ChannelKey| #[trigger]
            owned(rows, endpoint).contains(k) == (keyed(rows, k) && k.endpoint == endpoint),
    decreases rows.len(),
{
    let mine = owned(rows, endpoint);
    if rows.len() > 0 {
        let rest = rows.drop_last();
        let key = rows.last().0;
        assert forall|i: int, j: int|
            0 <= i < rest.len() && 0 <= j < rest.len() && (#[trigger] rest[i]).0 == (
            #[trigger] rest[j]).0 implies i == j by {
            assert(rows[i].0 == rows[j].0);
        }
        lemma_owned(rest, endpoint);
        assert forall|k: ChannelKey| #[trigger] mine.contains(k) == (keyed(rows, k) && k.endpoint
            == endpoint) by {
            let earlier = owned(rest, endpoint);
            assert(earlier.contains(k) == (keyed(rest, k) && k.endpoint == endpoint));
            if keyed(rest, k) {
                let i = place(rest, k);
                assert(rows[i].0 == k);
            }
            if keyed(rows, k) {
                let i = place(rows, k);
                if i < rest.len() {
                    assert(rest[i].0 == k);
                }
            }
            assert(rows[rows.len() - 1].0 == key);
            if key.endpoint == endpoint {
                assert(mine == earlier.push(key));
                assert(mine[earlier.len() as int] == key);
                if earlier.contains(k) {
                    let i = choose|i: int| 0 <= i < earlier.len() && earlier[i] == k;
                    assert(mine[i] == k);
                }
                if mine.contains(k) {
                    let i = choose|i: int| 0 <= i < mine.len() && mine[i] == k;
                    if i < earlier.len() {
                        assert(earlier[i] == k);
                    }
                }
            }
        }
    }
}

impl<V> KeyMap<V> {
    pub closed spec fn spec_rows(self) -> Seq<(ChannelKey, V)> {
        self.rows@
    }

    pub closed spec fn wf(self) -> bool {
        distinct(self.rows@)
    }

    pub open spec fn view(self) -> Map<ChannelKey, V> {
        keyed_map(self.spec_rows())
    }

    pub proof fn lemma_rows(self)
        requires
            self.wf(),
        ensures
            distinct(self.spec_rows()),
    {
    }

    pub fn new() -> (m: Self)
        ensures
            m.wf(),
            m.spec_rows().len() == 0,
            m@ == Map::<ChannelKey, V>::empty(),
    {
        let m = KeyMap { rows: Vec::new() };
        proof {
            assert(m@ =~= Map::<ChannelKey, V>::empty());
        }
        m
    }

    pub fn len(&self) -> (n: usize)
        ensures
            n == self.spec_rows().len(),
    {
        self.rows.len()
    }

    fn position(&self, key: ChannelKey) -> (r: Option<usize>)
        requires
            self.wf(),
        ensures
            match r {
                Some(i) => i < self.spec_rows().len() && self.spec_rows()[i as int].0 == key,
                None => !keyed(self.spec_rows(), key),
            },
    {
        let mut i: usize = 0;
        while i < self.rows.len()
            invariant
                i <= self.rows@.len(),
                forall|j: int| 0 <= j < i ==> (#[trigger] self.rows@[j]).0 != key,
            decreases self.rows@.len() - i,
        {
            if self.rows[i].0 == key {
                return Some(i);
            }
            i = i + 1;
        }
        None
    }

    pub fn contains(&self, key: ChannelKey) -> (r: bool)
        requires
            self.wf(),
        ensures
            r == self@.dom().contains(key),
    {
        match self.position(key) {
            Some(i) => {
                proof {
                    lemma_place(self.rows@, i as int);
                }
                true
            },
            None => false,
        }
    }

    pub fn get(&self, key: ChannelKey) -> (r: Option<&V>)
        requires
            self.wf(),
        ensures
            match r {
                Some(v) => self@.dom().contains(key) && *v == self@[key],
                None => !self@.dom().contains(key),
            },
    {
        match self.position(key) {
            Some(i) => {
                proof {
                    lemma_place(self.rows@, i as int);
                }
                Some(&self.rows[i].1)
            },
            None => None,
        }
    }

    pub fn get_mut(&mut self, key: ChannelKey) -> (r: Option<&mut V>)
        requires
            old(self).wf(),
        ensures
            match r {
                Some(v) => {
                    &&& old(self)@.dom().contains(key)
                    &&& *v == old(self)@[key]
                    &&& final(self).wf()
                    &&& final(self)@ == old(self)@.insert(key, *final(v))
                },
                None => !old(self)@.dom().contains(key) && *final(self) == *old(self),
            },
    {
        match self.position(key) {
            Some(at) => {
                proof {
                    lemma_place(self.rows@, at as int);
                    assert forall|v: V|
                        distinct(#[trigger] self.rows@.update(at as int, (key, v))) && keyed_map(
                            self.rows@.update(at as int, (key, v)),
                        ) == keyed_map(self.rows@).insert(key, v) by {
                        lemma_row_set(self.rows@, at as int, v);
                    }
                }
                let row = &mut self.rows[at];
                Some(&mut row.1)
            },
            None => None,
        }
    }

    /// The key of the row at a position.
    pub fn key_at(&self, i: usize) -> (key: ChannelKey)
        requires
            self.wf(),
            i < self.spec_rows().len(),
        ensures
            key == self.spec_rows()[i as int].0,
            self@.dom().contains(key),
            self@[key] == self.spec_rows()[i as int].1,
    {
        proof {
            lemma_place(self.rows@, i as int);
        }
        self.rows[i].0
    }

    /// The value of the row at a position.
    pub fn value_at(&self, i: usize) -> (v: &V)
        requires
            self.wf(),
            i < self.spec_rows().len(),
        ensures
            *v == self.spec_rows()[i as int].1,
    {
        &self.rows[i].1
    }

    /// Adds a row with a key that has none.
    pub fn insert(&mut self, key: ChannelKey, v: V)
        requires
            old(self).wf(),
            !old(self)@.dom().contains(key),
        ensures
            final(self).wf(),
            final(self).spec_rows() == old(self).spec_rows().push((key, v)),
            final(self)@ == old(self)@.insert(key, v),
    {
        proof {
            lemma_pushed(self.rows@, (key, v));
        }
        self.rows.push((key, v));
    }

    /// Takes the row with the key out.
    pub fn remove(&mut self, key: ChannelKey) -> (r: Option<V>)
        requires
            old(self).wf(),
        ensures
            final(self).wf(),
            final(self)@ == old(self)@.remove(key),
            match r {
                Some(v) => old(self)@.dom().contains(key) && v == old(self)@[key],
                None => !old(self)@.dom().contains(key) && *final(self) == *old(self),
            },
    {
        match self.position(key) {
            Some(at) => {
                proof {
                    lemma_place(self.rows@, at as int);
                    lemma_removed(self.rows@, at as int);
                }
                let row = self.rows.remove(at);
                Some(row.1)
            },
            None => {
                proof {
                    assert(self@.remove(key) =~= self@);
                }
                None
            },
        }
    }

    /// The keys of one endpoint, in order.
    pub fn keys_of(&self, endpoint: u64) -> (out: Vec<ChannelKey>)
        requires
            self.wf(),
        ensures
            out@ == owned(self.spec_rows(), endpoint),
    {
        let ghost rows = self.rows@;
        let mut out: Vec<ChannelKey> = Vec::new();
        let mut i: usize = 0;
        proof {
            assert(rows.take(0) =~= Seq::empty());
        }
        while i < self.rows.len()
            invariant
                i <= rows.len(),
                rows == self.rows@,
                out@ == owned(rows.take(i as int), endpoint),
            decreases rows.len() - i,
        {
            proof {
                assert(rows.take(i + 1).drop_last() =~= rows.take(i as int));
                assert(rows.take(i + 1).last() == rows[i as int]);
            }
            let key: ChannelKey = self.rows[i].0;
            if key.endpoint == endpoint {
                out.push(key);
            }
            i = i + 1;
        }
        proof {
            assert(rows.take(rows.len() as int) =~= rows);
        }
        out
    }
}

} // verus!
