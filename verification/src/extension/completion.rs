//! Work that other work waits for.
//!
//! The cleanup of a connection waits for the supervisors of the definitions
//! that were attached to it, and an upload of a connection waits for the one
//! before it.

use vstd::prelude::*;

use crate::extension::endpoints::Orphan;
use crate::id_map::{ascending, lemma_row_of, row_of, IdMap};

verus! {

/// Pieces of work that have begun and not completed. Each has a number of its
/// own and belongs to something: a definition or a connection.
pub struct Completions {
    pub open: IdMap<u64>,
    pub next: u64,
}

/// Whether numbers are those of the open work of the orphans, in ascending
/// order.
pub open spec fn awaited(open: Map<u64, u64>, orphans: Seq<Orphan>, list: Seq<u64>) -> bool {
    &&& forall|i: int, j: int| 0 <= i < j < list.len() ==> list[i] < list[j]
    &&& forall|i: int|
        0 <= i < list.len() ==> open.dom().contains(#[trigger] list[i]) && orphaned(
            orphans,
            open[list[i]],
        )
    &&& forall|n: u64| #[trigger]
        open.dom().contains(n) && orphaned(orphans, open[n]) ==> list.contains(n)
}

/// Whether a definition is among the orphans.
pub open spec fn orphaned(orphans: Seq<Orphan>, id: u64) -> bool {
    exists|i: int| 0 <= i < orphans.len() && (#[trigger] orphans[i]).extension_id == id
}

impl Completions {
    pub open spec fn wf(self) -> bool {
        &&& self.open.wf()
        &&& forall|n: u64| #[trigger] self.open@.dom().contains(n) ==> n < self.next
    }

    /// Whether a piece of work is over.
    pub open spec fn complete_at(self, n: u64) -> bool {
        n < self.next && !self.open@.dom().contains(n)
    }

    pub fn new() -> (c: Completions)
        ensures
            c.wf(),
            c.open@ == Map::<u64, u64>::empty(),
            c.next == 0,
    {
        Completions { open: IdMap::new(), next: 0 }
    }

    /// A piece of work begins. There is none to begin once all numbers were
    /// given out.
    pub fn begin(&mut self, owner: u64) -> (r: Option<u64>)
        requires
            old(self).wf(),
        ensures
            final(self).wf(),
            r is None <==> old(self).next == u64::MAX,
            r is None ==> *final(self) == *old(self),
            r matches Some(n) ==> {
                &&& n == old(self).next
                &&& final(self).next == n + 1
                &&& final(self).open@ == old(self).open@.insert(n, owner)
                &&& !old(self).open@.dom().contains(n)
            },
    {
        if self.next == u64::MAX {
            return None;
        }
        let n: u64 = self.next;
        self.open.insert(n, owner);
        self.next = n + 1;
        Some(n)
    }

    /// A piece of work is over. It may be told more than once.
    pub fn complete(&mut self, n: u64)
        requires
            old(self).wf(),
        ensures
            final(self).wf(),
            final(self).next == old(self).next,
            final(self).open@ == old(self).open@.remove(n),
    {
        let _ = self.open.remove(n);
    }

    pub fn is_complete(&self, n: u64) -> (r: bool)
        requires
            self.wf(),
        ensures
            r == self.complete_at(n),
    {
        n < self.next && !self.open.contains(n)
    }

    /// What the cleanup of a connection waits for: the work of the supervisors
    /// of its orphans.
    pub fn waits_for(&self, orphans: &Vec<Orphan>) -> (list: Vec<u64>)
        requires
            self.wf(),
        ensures
            awaited(self.open@, orphans@, list@),
    {
        let mut list: Vec<u64> = Vec::new();
        let ghost rows = self.open.spec_rows();
        proof {
            self.open.lemma_rows();
        }
        let mut i: usize = 0;
        while i < self.open.len()
            invariant
                i <= rows.len(),
                self.wf(),
                rows == self.open.spec_rows(),
                ascending(rows),
                forall|a: int, b: int| 0 <= a < b < list@.len() ==> list@[a] < list@[b],
                forall|k: int|
                    0 <= k < list@.len() ==> from_rows(rows, i as int, #[trigger] list@[k])
                        && orphaned(orphans@, self.open@[list@[k]]),
                forall|x: int|
                    0 <= x < i && orphaned(orphans@, (#[trigger] rows[x]).1) ==> list@.contains(
                        rows[x].0,
                    ),
            decreases rows.len() - i,
        {
            let n: u64 = self.open.id_at(i);
            let owner: u64 = *self.open.value_at(i);
            let ghost before = list@;
            proof {
                lemma_row_of(rows, i as int);
            }
            if is_orphaned(orphans, owner) {
                list.push(n);
            }
            proof {
                assert forall|k: int| 0 <= k < list@.len() implies from_rows(
                    rows,
                    i + 1,
                    #[trigger] list@[k],
                ) && orphaned(orphans@, self.open@[list@[k]]) by {
                    if k < before.len() {
                        assert(list@[k] == before[k]);
                        let x = choose|x: int| 0 <= x < i && (#[trigger] rows[x]).0 == before[k];
                        assert(rows[x].0 == list@[k]);
                    } else {
                        assert(rows[i as int].0 == list@[k]);
                    }
                }
                assert forall|a: int, b: int| 0 <= a < b < list@.len() implies list@[a]
                    < list@[b] by {
                    if b == before.len() {
                        assert(from_rows(rows, i as int, before[a]));
                        let x = choose|x: int| 0 <= x < i && (#[trigger] rows[x]).0 == before[a];
                        assert(rows[x].0 < rows[i as int].0);
                    }
                }
                assert forall|x: int|
                    0 <= x < i + 1 && orphaned(orphans@, (#[trigger] rows[x]).1) implies list@.contains(
                    rows[x].0,
                ) by {
                    if x < i {
                        let k = choose|k: int| 0 <= k < before.len() && before[k] == rows[x].0;
                        assert(list@[k] == rows[x].0);
                    } else {
                        assert(list@[before.len() as int] == rows[x].0);
                    }
                }
            }
            i = i + 1;
        }
        proof {
            assert forall|k: int| 0 <= k < list@.len() implies self.open@.dom().contains(
                #[trigger] list@[k],
            ) by {
                let x = choose|x: int| 0 <= x < i && (#[trigger] rows[x]).0 == list@[k];
                lemma_row_of(rows, x);
            }
            assert forall|n: u64| #[trigger]
                self.open@.dom().contains(n) && orphaned(
                    orphans@,
                    self.open@[n],
                ) implies list@.contains(n) by {
                let x = row_of(rows, n);
                lemma_row_of(rows, x);
                assert(orphaned(orphans@, rows[x].1));
            }
        }
        list
    }

    /// Whether all of the work that a cleanup waits for is over.
    pub fn all_complete(&self, list: &Vec<u64>) -> (r: bool)
        requires
            self.wf(),
        ensures
            r == over(*self, list@),
    {
        let mut i: usize = 0;
        while i < list.len()
            invariant
                i <= list@.len(),
                self.wf(),
                forall|k: int| 0 <= k < i ==> self.complete_at(#[trigger] list@[k]),
            decreases list@.len() - i,
        {
            if !self.is_complete(list[i]) {
                assert(!self.complete_at(list@[i as int]));
                return false;
            }
            i = i + 1;
        }
        true
    }
}

/// Whether all of a list of work is over.
pub open spec fn over(c: Completions, list: Seq<u64>) -> bool {
    forall|i: int| 0 <= i < list.len() ==> c.complete_at(#[trigger] list[i])
}

/// Whether a number is that of one of the first rows.
spec fn from_rows(rows: Seq<(u64, u64)>, i: int, n: u64) -> bool {
    exists|x: int| 0 <= x < i && (#[trigger] rows[x]).0 == n
}

fn is_orphaned(orphans: &Vec<Orphan>, id: u64) -> (r: bool)
    ensures
        r == orphaned(orphans@, id),
{
    let mut i: usize = 0;
    while i < orphans.len()
        invariant
            i <= orphans@.len(),
            forall|k: int| 0 <= k < i ==> (#[trigger] orphans@[k]).extension_id != id,
        decreases orphans@.len() - i,
    {
        if orphans[i].extension_id == id {
            return true;
        }
        i = i + 1;
    }
    false
}

/// The place of an upload among those of its connection.
#[derive(Clone, Copy, Debug, PartialEq, Eq, Structural)]
pub struct UploadOrder {
    /// The upload before it, if there is one.
    pub previous: Option<u64>,
    pub current: u64,
}

/// The uploads under way, and the last of each connection.
pub struct Uploads {
    pub work: Completions,
    pub tails: IdMap<u64>,
}

/// Whether an upload need not wait any longer.
pub open spec fn may_begin(c: Completions, o: UploadOrder) -> bool {
    o.previous matches Some(n) ==> c.complete_at(n)
}

impl Uploads {
    pub open spec fn wf(self) -> bool {
        &&& self.work.wf()
        &&& self.tails.wf()
        &&& forall|e: u64| #[trigger]
            self.tails@.dom().contains(e) ==> self.tails@[e] < self.work.next
    }

    pub fn new() -> (u: Uploads)
        ensures
            u.wf(),
            u.work.open@ == Map::<u64, u64>::empty(),
            u.work.next == 0,
            u.tails@ == Map::<u64, u64>::empty(),
    {
        Uploads { work: Completions::new(), tails: IdMap::new() }
    }

    /// An upload takes its place behind the last of its connection, in the
    /// order in which the connection is read.
    pub fn line_up(&mut self, endpoint: u64) -> (r: Option<UploadOrder>)
        requires
            old(self).wf(),
        ensures
            final(self).wf(),
            r is None <==> old(self).work.next == u64::MAX,
            r is None ==> *final(self) == *old(self),
            r matches Some(o) ==> {
                &&& o.current == old(self).work.next
                &&& o.previous == if old(self).tails@.dom().contains(endpoint) {
                    Some(old(self).tails@[endpoint])
                } else {
                    None
                }
                &&& final(self).tails@ == old(self).tails@.insert(endpoint, o.current)
                &&& final(self).work.next == old(self).work.next + 1
                &&& final(self).work.open@ == old(self).work.open@.insert(o.current, endpoint)
            },
    {
        let current: u64 = match self.work.begin(endpoint) {
            None => {
                return None;
            },
            Some(n) => n,
        };
        let previous: Option<u64> = match self.tails.get(endpoint) {
            None => None,
            Some(n) => Some(*n),
        };
        self.tails.insert(endpoint, current);
        Some(UploadOrder { previous, current })
    }

    pub fn may_proceed(&self, o: &UploadOrder) -> (r: bool)
        requires
            self.wf(),
        ensures
            r == may_begin(self.work, *o),
    {
        match o.previous {
            None => true,
            Some(n) => self.work.is_complete(n),
        }
    }

    /// An upload was answered, or given up.
    pub fn finish(&mut self, o: &UploadOrder)
        requires
            old(self).wf(),
        ensures
            final(self).wf(),
            final(self).tails == old(self).tails,
            final(self).work.next == old(self).work.next,
            final(self).work.open@ == old(self).work.open@.remove(o.current),
    {
        self.work.complete(o.current);
    }

    /// A connection went away. Its uploads need not be waited for any longer.
    pub fn forget(&mut self, endpoint: u64)
        requires
            old(self).wf(),
        ensures
            final(self).wf(),
            final(self).work == old(self).work,
            final(self).tails@ == old(self).tails@.remove(endpoint),
    {
        let _ = self.tails.remove(endpoint);
    }
}

/// What is over stays over, whatever begins or ends.
pub proof fn law_completion_is_final(before: Completions, after: Completions, n: u64, m: u64, owner: u64)
    requires
        before.wf(),
        before.complete_at(n),
        (after.next == before.next && after.open@ == before.open@.remove(m)) || (after.next
            == before.next + 1 && after.open@ == before.open@.insert(before.next, owner)),
    ensures
        after.complete_at(n),
{
}

/// The uploads of a connection go one after the other: where none was given up
/// before its turn, one may begin only once all before it are over. So a chunk
/// in the middle does not overtake a first one that still waits for a place.
pub proof fn law_uploads_keep_their_order(c: Completions, line: Seq<UploadOrder>, i: int, j: int)
    requires
        forall|k: int|
            0 < k < line.len() ==> (#[trigger] line[k]).previous == Some(line[k - 1].current),
        forall|k: int|
            0 <= k < line.len() && c.complete_at((#[trigger] line[k]).current) ==> may_begin(
                c,
                line[k],
            ),
        0 <= i < j < line.len(),
        may_begin(c, line[j]),
    ensures
        c.complete_at(line[i].current),
    decreases j,
{
    assert(line[j].previous == Some(line[j - 1].current));
    if i < j - 1 {
        law_uploads_keep_their_order(c, line, i, j - 1);
    }
}

/// The cleanup of a connection reaches all descendants. `chain` are supervisors,
/// each of a definition that is attached to a connection of the one before, and
/// `waits` is what the cleanup of each one's connection waits for. A supervisor
/// is over only after the cleanup of its own connection, so once the cleanup of
/// the first connection is, all of them are.
pub proof fn law_cleanup_reaches_descendants(
    c: Completions,
    first: Seq<u64>,
    chain: Seq<u64>,
    waits: Seq<Seq<u64>>,
    i: int,
)
    requires
        waits.len() == chain.len(),
        over(c, first),
        0 <= i < chain.len(),
        first.contains(chain[0]),
        forall|k: int| 0 < k < chain.len() ==> waits[k - 1].contains(#[trigger] chain[k]),
        forall|k: int|
            0 <= k < chain.len() && c.complete_at(#[trigger] chain[k]) ==> over(c, waits[k]),
    ensures
        c.complete_at(chain[i]),
        over(c, waits[i]),
    decreases i,
{
    if i == 0 {
        let k = choose|k: int| 0 <= k < first.len() && first[k] == chain[0];
        assert(c.complete_at(first[k]));
    } else {
        law_cleanup_reaches_descendants(c, first, chain, waits, i - 1);
        let w = waits[i - 1];
        assert(w.contains(chain[i]));
        let k = choose|k: int| 0 <= k < w.len() && w[k] == chain[i];
        assert(c.complete_at(w[k]));
    }
}

} // verus!
