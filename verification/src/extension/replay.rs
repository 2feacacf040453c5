//! Followers of an extension's output and what each of them is offered next.

use vstd::prelude::*;

use crate::extension::announce::put_out;
use crate::extension::definition::{Definition, FollowerCursor, Record};
use crate::extension::output::{
    backed_at, evicts, evicts_at, freed_by, gives, in_history, in_order, in_terminal, is_suffix,
    lemma_definition_replaced, lemma_payloads_kept, lemma_still_backed, lemma_trimmed, new_record,
    no_history, output_ok, payload, payloads_kept, retention, total_len, trimmed_for, Registry,
    Room, OUTPUT_RETAIN_PER_EXTENSION,
};
use crate::extension::packets::{
    charges, lemma_charges_update, only_released, released_at, released_but, Packet, PacketStore,
};
use crate::id_map::{ascending, lemma_row_of, row_of, IdMap};

verus! {

/// Everything that a follower can be given.
pub open spec fn replayable(d: Definition) -> Seq<Record> {
    d.retained@ + d.terminal_replay@
}

/// Whether `s` is the least sequence number of `records`.
pub open spec fn least_sequence(records: Seq<Record>, s: u64) -> bool {
    &&& exists|i: int| 0 <= i < records.len() && (#[trigger] records[i]).sequence == s
    &&& forall|i: int| 0 <= i < records.len() ==> s <= (#[trigger] records[i]).sequence
}

/// Where a replay can begin: the oldest record, or the next one to come.
pub open spec fn replay_start(d: Definition, s: u64) -> bool {
    if replayable(d).len() == 0 {
        s == d.next_output_sequence
    } else {
        least_sequence(replayable(d), s)
    }
}

pub open spec fn within(r: Record, cursor: u64, through: u64) -> bool {
    cursor <= r.sequence <= through
}

/// Whether `r` comes first among the records from `cursor` through `through`.
pub open spec fn comes_next(records: Seq<Record>, r: Record, cursor: u64, through: u64) -> bool {
    &&& records.contains(r)
    &&& within(r, cursor, through)
    &&& forall|k: int|
        0 <= k < records.len() && within(#[trigger] records[k], cursor, through) ==> r.sequence
            <= records[k].sequence
}

/// Whether no record lies from `cursor` through `through`.
pub open spec fn none_within(records: Seq<Record>, cursor: u64, through: u64) -> bool {
    forall|k: int| 0 <= k < records.len() ==> !within(#[trigger] records[k], cursor, through)
}

pub fn oldest_replay_sequence(d: &Definition) -> (s: u64)
    ensures
        replay_start(*d, s),
{
    let mut best: Option<u64> = None;
    let ghost all = replayable(*d);
    let n: usize = d.retained.len();
    let mut i: usize = 0;
    while i < n
        invariant
            i <= n,
            n == d.retained@.len(),
            all == d.retained@ + d.terminal_replay@,
            match best {
                Some(s) => least_sequence(all.take(i as int), s),
                None => i == 0,
            },
        decreases n - i,
    {
        let s: u64 = d.retained[i].sequence;
        proof {
            lemma_least_step(all, i as int, best);
        }
        best = Some(
            match best {
                Some(b) => if b <= s {
                    b
                } else {
                    s
                },
                None => s,
            },
        );
        i = i + 1;
    }
    let m: usize = d.terminal_replay.len();
    let mut j: usize = 0;
    while j < m
        invariant
            j <= m,
            n == d.retained@.len(),
            m == d.terminal_replay@.len(),
            all == d.retained@ + d.terminal_replay@,
            match best {
                Some(s) => least_sequence(all.take(n + j), s),
                None => n + j == 0,
            },
        decreases m - j,
    {
        let s: u64 = d.terminal_replay[j].sequence;
        proof {
            assert(all[n + j] == d.terminal_replay@[j as int]);
            lemma_least_step(all, n + j, best);
        }
        best = Some(
            match best {
                Some(b) => if b <= s {
                    b
                } else {
                    s
                },
                None => s,
            },
        );
        j = j + 1;
    }
    proof {
        assert(all.take(all.len() as int) =~= all);
    }
    match best {
        Some(s) => s,
        None => d.next_output_sequence,
    }
}

proof fn lemma_least_step(all: Seq<Record>, i: int, best: Option<u64>)
    requires
        0 <= i < all.len(),
        match best {
            Some(s) => least_sequence(all.take(i), s),
            None => i == 0,
        },
    ensures
        least_sequence(
            all.take(i + 1),
            match best {
                Some(b) if b <= all[i].sequence => b,
                _ => all[i].sequence,
            },
        ),
{
    let longer = all.take(i + 1);
    assert(longer[i] == all[i]);
    assert forall|k: int| 0 <= k < i implies longer[k] == all.take(i)[k] by {}
    if let Some(b) = best {
        let k = choose|k: int|
            0 <= k < all.take(i).len() && (#[trigger] all.take(i)[k]).sequence == b;
        assert(longer[k].sequence == b);
    }
}

/// The first record from `cursor` through `through`.
pub fn next_replay_record(d: &Definition, cursor: u64, through: u64) -> (r: Option<Record>)
    ensures
        match r {
            Some(rec) => comes_next(replayable(*d), rec, cursor, through),
            None => none_within(replayable(*d), cursor, through),
        },
{
    let ghost all = replayable(*d);
    let n: usize = d.retained.len();
    let mut best: Option<Record> = None;
    let mut i: usize = 0;
    while i < n
        invariant
            i <= n,
            n == d.retained@.len(),
            all == d.retained@ + d.terminal_replay@,
            match best {
                Some(rec) => comes_next(all.take(i as int), rec, cursor, through),
                None => none_within(all.take(i as int), cursor, through),
            },
        decreases n - i,
    {
        let rec = d.retained[i];
        proof {
            assert(all[i as int] == rec);
            lemma_next_step(all, i as int, best, cursor, through);
        }
        best = better(best, rec, cursor, through);
        i = i + 1;
    }
    let m: usize = d.terminal_replay.len();
    let mut j: usize = 0;
    while j < m
        invariant
            j <= m,
            n == d.retained@.len(),
            m == d.terminal_replay@.len(),
            all == d.retained@ + d.terminal_replay@,
            match best {
                Some(rec) => comes_next(all.take(n + j), rec, cursor, through),
                None => none_within(all.take(n + j), cursor, through),
            },
        decreases m - j,
    {
        let rec = d.terminal_replay[j];
        proof {
            assert(all[n + j] == rec);
            lemma_next_step(all, n + j, best, cursor, through);
        }
        best = better(best, rec, cursor, through);
        j = j + 1;
    }
    proof {
        assert(all.take(all.len() as int) =~= all);
    }
    best
}

spec fn spec_better(best: Option<Record>, rec: Record, cursor: u64, through: u64) -> Option<Record> {
    if !within(rec, cursor, through) {
        best
    } else {
        match best {
            Some(b) if b.sequence <= rec.sequence => Some(b),
            _ => Some(rec),
        }
    }
}

fn better(best: Option<Record>, rec: Record, cursor: u64, through: u64) -> (r: Option<Record>)
    ensures
        r == spec_better(best, rec, cursor, through),
{
    if !(cursor <= rec.sequence && rec.sequence <= through) {
        best
    } else {
        match best {
            Some(b) => if b.sequence <= rec.sequence {
                Some(b)
            } else {
                Some(rec)
            },
            None => Some(rec),
        }
    }
}

proof fn lemma_next_step(
    all: Seq<Record>,
    i: int,
    best: Option<Record>,
    cursor: u64,
    through: u64,
)
    requires
        0 <= i < all.len(),
        match best {
            Some(rec) => comes_next(all.take(i), rec, cursor, through),
            None => none_within(all.take(i), cursor, through),
        },
    ensures
        match spec_better(best, all[i], cursor, through) {
            Some(rec) => comes_next(all.take(i + 1), rec, cursor, through),
            None => none_within(all.take(i + 1), cursor, through),
        },
{
    let longer = all.take(i + 1);
    let shorter = all.take(i);
    assert(longer[i] == all[i]);
    assert forall|k: int| 0 <= k < i implies longer[k] == shorter[k] by {}
    if let Some(b) = best {
        let k = choose|k: int| 0 <= k < shorter.len() && shorter[k] == b;
        assert(longer[k] == b);
    }
    match spec_better(best, all[i], cursor, through) {
        Some(rec) => {
            assert forall|k: int|
                0 <= k < longer.len() && within(#[trigger] longer[k], cursor, through) implies
                rec.sequence <= longer[k].sequence by {
                if k < i {
                    assert(longer[k] == shorter[k]);
                    assert(within(shorter[k], cursor, through));
                }
            }
        },
        None => {
            assert forall|k: int| 0 <= k < longer.len() implies !within(
                #[trigger] longer[k],
                cursor,
                through,
            ) by {
                if k < i {
                    assert(longer[k] == shorter[k]);
                }
            }
        },
    }
}

/// Where a follower reads on: never before what can still be replayed.
pub open spec fn reads_from(d: Definition, f: FollowerCursor, s: u64) -> bool {
    exists|start: u64| #[trigger]
        replay_start(d, start) && s == if f.next_sequence >= start {
            f.next_sequence
        } else {
            start
        }
}

/// The last sequence that a follower may be given now.
pub open spec fn reads_through(f: FollowerCursor) -> u64 {
    match f.replay_through {
        Some(t) => t,
        None => u64::MAX,
    }
}

/// There is one place where a replay can begin.
pub proof fn lemma_replay_start_unique(d: Definition, a: u64, b: u64)
    requires
        replay_start(d, a),
        replay_start(d, b),
    ensures
        a == b,
{
    let all = replayable(d);
    if all.len() > 0 {
        let i = choose|i: int| 0 <= i < all.len() && (#[trigger] all[i]).sequence == a;
        let j = choose|j: int| 0 <= j < all.len() && (#[trigger] all[j]).sequence == b;
        assert(b <= all[i].sequence);
        assert(a <= all[j].sequence);
    }
}

/// Whether a definition has something for an endpoint: a record, or the mark
/// that its replay is done.
pub open spec fn has_offer(d: Definition, endpoint: u64) -> bool {
    d.followers@.dom().contains(endpoint) && ({
        let f = d.followers@[endpoint];
        f.replay_through is Some || exists|s: u64|
            #[trigger] reads_from(d, f, s) && !none_within(replayable(d), s, reads_through(f))
    })
}

/// Whether `a` has its turn before `b` when `last` was served last: ids above
/// `last` come first, and each group goes in ascending order.
pub open spec fn turn_before(a: u64, b: u64, last: Option<u64>) -> bool {
    match last {
        None => a < b,
        Some(l) => (a > l && b <= l) || ((a > l) == (b > l) && a < b),
    }
}

/// What an endpoint is to be sent next.
#[derive(Clone, Copy, Debug, PartialEq, Eq, Structural)]
pub enum Offer {
    Idle,
    Record { extension_id: u64, record: Record, cursor: u64 },
    /// The replay through this sequence is done.
    Done { extension_id: u64, through: u64, cursor: u64 },
}

/// Whether an offer is one that the definition makes.
pub open spec fn offered(d: Definition, endpoint: u64, offer: Offer) -> bool {
    let f = d.followers@[endpoint];
    &&& d.followers@.dom().contains(endpoint)
    &&& match offer {
        Offer::Idle => false,
        Offer::Record { record, cursor, .. } => reads_from(d, f, cursor) && comes_next(
            replayable(d),
            record,
            cursor,
            reads_through(f),
        ),
        Offer::Done { through, cursor, .. } => reads_from(d, f, cursor) && none_within(
            replayable(d),
            cursor,
            reads_through(f),
        ) && f.replay_through == Some(through),
    }
}

fn offer_of(d: &Definition, endpoint: u64) -> (r: Offer)
    requires
        d.followers.wf(),
    ensures
        r is Idle == !has_offer(*d, endpoint),
        r !is Idle ==> offered(*d, endpoint, r),
        r matches Offer::Record { extension_id, .. } ==> extension_id == d.extension_id,
        r matches Offer::Done { extension_id, .. } ==> extension_id == d.extension_id,
{
    let f = match d.followers.get(endpoint) {
        None => {
            return Offer::Idle;
        },
        Some(f) => *f,
    };
    let start = oldest_replay_sequence(d);
    let cursor: u64 = if f.next_sequence >= start {
        f.next_sequence
    } else {
        start
    };
    let through: u64 = match f.replay_through {
        Some(t) => t,
        None => u64::MAX,
    };
    proof {
        assert(reads_from(*d, f, cursor));
    }
    match next_replay_record(d, cursor, through) {
        Some(record) => {
            proof {
                let all = replayable(*d);
                let k = choose|k: int| 0 <= k < all.len() && all[k] == record;
                assert(within(all[k], cursor, through));
            }
            Offer::Record { extension_id: d.extension_id, record, cursor }
        },
        None => match f.replay_through {
            Some(t) => Offer::Done { extension_id: d.extension_id, through: t, cursor },
            None => {
                proof {
                    assert forall|s: u64| #[trigger] reads_from(*d, f, s) implies s == cursor by {
                        let a = choose|a: u64| #[trigger]
                            replay_start(*d, a) && s == if f.next_sequence >= a {
                                f.next_sequence
                            } else {
                                a
                            };
                        lemma_replay_start_unique(*d, a, start);
                    }
                }
                Offer::Idle
            },
        },
    }
}

/// The follower after what it was offered was sent.
pub open spec fn advanced(f: FollowerCursor, offer: Offer) -> FollowerCursor {
    match offer {
        Offer::Idle => f,
        Offer::Record { record, .. } => FollowerCursor {
            next_sequence: if record.sequence == u64::MAX {
                u64::MAX
            } else {
                (record.sequence + 1) as u64
            },
            ..f
        },
        Offer::Done { through, cursor, .. } => {
            let after = if through == u64::MAX {
                u64::MAX
            } else {
                (through + 1) as u64
            };
            FollowerCursor {
                next_sequence: if cursor >= after {
                    cursor
                } else {
                    after
                },
                replay_through: None,
            }
        },
    }
}

fn advance(f: FollowerCursor, offer: Offer) -> (r: FollowerCursor)
    ensures
        r == advanced(f, offer),
{
    match offer {
        Offer::Idle => f,
        Offer::Record { record, .. } => FollowerCursor {
            next_sequence: record.sequence.saturating_add(1),
            replay_through: f.replay_through,
        },
        Offer::Done { through, cursor, .. } => {
            let after: u64 = through.saturating_add(1);
            FollowerCursor {
                next_sequence: if cursor >= after {
                    cursor
                } else {
                    after
                },
                replay_through: None,
            }
        },
    }
}

/// A follower whose replay is to be marked done through `through`, or later
/// where a later mark is already owed.
pub open spec fn owed_through(f: FollowerCursor, through: u64) -> FollowerCursor {
    FollowerCursor {
        replay_through: Some(
            match f.replay_through {
                Some(p) if p >= through => p,
                _ => through,
            },
        ),
        ..f
    }
}

fn owe_through(f: FollowerCursor, through: u64) -> (r: FollowerCursor)
    ensures
        r == owed_through(f, through),
{
    FollowerCursor {
        next_sequence: f.next_sequence,
        replay_through: Some(
            match f.replay_through {
                Some(p) => if p >= through {
                    p
                } else {
                    through
                },
                None => through,
            },
        ),
    }
}

/// What is sent to one follower when the replay lease of a last state ends.
pub struct ForcedReplay {
    pub records: Vec<Record>,
    pub through: u64,
}

/// Whether a compact replay is given whole: the records of the last state from
/// the follower's cursor through the owed mark, in order.
pub open spec fn forced(d: Definition, f: FollowerCursor, r: ForcedReplay) -> bool {
    &&& f.replay_through == Some(r.through)
    &&& in_order(r.records@)
    &&& forall|x: Record|
        r.records@.contains(x) == (d.terminal_replay@.contains(x) && within(
            x,
            f.next_sequence,
            r.through,
        ))
}

/// The compact replay that a follower is owed, if it is owed any.
pub fn forced_replay(d: &Definition, f: FollowerCursor) -> (r: Option<ForcedReplay>)
    requires
        in_order(d.terminal_replay@),
    ensures
        match r {
            Some(x) => forced(*d, f, x),
            None => f.replay_through is None,
        },
{
    let through: u64 = match f.replay_through {
        None => {
            return None;
        },
        Some(t) => t,
    };
    let mut records: Vec<Record> = Vec::new();
    let mut i: usize = 0;
    let ghost all = d.terminal_replay@;
    while i < d.terminal_replay.len()
        invariant
            i <= all.len(),
            all == d.terminal_replay@,
            in_order(all),
            in_order(records@),
            forall|k: int|
                0 <= k < records@.len() ==> exists|j: int|
                    0 <= j < i && all[j] == #[trigger] records@[k],
            forall|x: Record|
                records@.contains(x) == (all.take(i as int).contains(x) && within(
                    x,
                    f.next_sequence,
                    through,
                )),
        decreases all.len() - i,
    {
        let rec = d.terminal_replay[i];
        let ghost before = records@;
        let ghost shorter = all.take(i as int);
        let ghost longer = all.take(i + 1);
        proof {
            assert(longer =~= shorter.push(rec));
        }
        if f.next_sequence <= rec.sequence && rec.sequence <= through {
            records.push(rec);
            proof {
                assert forall|k: int| 0 <= k < records@.len() implies exists|j: int|
                    0 <= j < i + 1 && all[j] == #[trigger] records@[k] by {
                    if k < before.len() {
                        assert(records@[k] == before[k]);
                        let j = choose|j: int| 0 <= j < i && all[j] == before[k];
                        assert(all[j] == records@[k]);
                    } else {
                        assert(all[i as int] == records@[k]);
                    }
                }
                assert forall|a: int, b: int| 0 <= a < b < records@.len() implies (
                #[trigger] records@[a]).sequence < (#[trigger] records@[b]).sequence
                    && records@[a].clock <= records@[b].clock by {
                    if b == before.len() {
                        assert(records@[a] == before[a]);
                        let j = choose|j: int| 0 <= j < i && all[j] == before[a];
                        assert(all[j].sequence < all[i as int].sequence);
                    } else {
                        assert(records@[a] == before[a] && records@[b] == before[b]);
                    }
                }
            }
        }
        proof {
            assert forall|x: Record|
                records@.contains(x) == (longer.contains(x) && within(
                    x,
                    f.next_sequence,
                    through,
                )) by {
                if shorter.contains(x) {
                    let j = choose|j: int| 0 <= j < shorter.len() && shorter[j] == x;
                    assert(longer[j] == x);
                }
                if longer.contains(x) {
                    let j = choose|j: int| 0 <= j < longer.len() && longer[j] == x;
                    if j < i {
                        assert(shorter[j] == x);
                    }
                }
                assert(longer[i as int] == rec);
                if before.contains(x) {
                    let j = choose|j: int| 0 <= j < before.len() && before[j] == x;
                    assert(records@[j] == x);
                }
                if records@.contains(x) {
                    let j = choose|j: int| 0 <= j < records@.len() && records@[j] == x;
                    if j < before.len() {
                        assert(before[j] == x);
                    }
                }
                if records@.len() > before.len() {
                    assert(records@[before.len() as int] == rec);
                }
            }
            assert forall|k: int| 0 <= k < records@.len() implies exists|j: int|
                0 <= j < i + 1 && all[j] == #[trigger] records@[k] by {
                if k < before.len() {
                    assert(records@[k] == before[k]);
                    let j = choose|j: int| 0 <= j < i && all[j] == before[k];
                    assert(all[j] == records@[k]);
                } else {
                    assert(all[i as int] == records@[k]);
                }
            }
        }
        i = i + 1;
    }
    proof {
        assert(all.take(all.len() as int) =~= all);
    }
    Some(ForcedReplay { records, through })
}

impl Registry {
    /// What `endpoint` is to be sent next: each followed extension in turn,
    /// after the one served last, and of each the next record in order or the
    /// mark that its replay is done.
    pub fn schedule_one(&self, endpoint: u64, last: Option<u64>) -> (r: Offer)
        requires
            self.wf(),
        ensures
            match r {
                Offer::Idle => forall|id: u64| #[trigger]
                    self.definitions@.dom().contains(id) ==> !has_offer(
                        self.definitions@[id],
                        endpoint,
                    ),
                Offer::Record { extension_id, .. } => {
                    &&& self.definitions@.dom().contains(extension_id)
                    &&& offered(self.definitions@[extension_id], endpoint, r)
                    &&& forall|id: u64| #[trigger]
                        self.definitions@.dom().contains(id) && turn_before(id, extension_id, last)
                            ==> !has_offer(self.definitions@[id], endpoint)
                },
                Offer::Done { extension_id, .. } => {
                    &&& self.definitions@.dom().contains(extension_id)
                    &&& offered(self.definitions@[extension_id], endpoint, r)
                    &&& forall|id: u64| #[trigger]
                        self.definitions@.dom().contains(id) && turn_before(id, extension_id, last)
                            ==> !has_offer(self.definitions@[id], endpoint)
                },
            },
    {
        let ghost rows = self.definitions.spec_rows();
        let ghost m = self.definitions@;
        proof {
            self.definitions.lemma_rows();
            assert forall|id: u64| #[trigger] m.dom().contains(id) implies ({
                let k = row_of(rows, id);
                0 <= k < rows.len() && rows[k].0 == id && rows[k].1 == m[id]
            }) by {
                let k = row_of(rows, id);
                lemma_row_of(rows, k);
            }
        }
        let mut i: usize = 0;
        while i < self.definitions.len()
            invariant
                i <= rows.len(),
                self.wf(),
                rows == self.definitions.spec_rows(),
                m == self.definitions@,
                ascending(rows),
                forall|id: u64| #[trigger]
                    m.dom().contains(id) ==> ({
                        let k = row_of(rows, id);
                        0 <= k < rows.len() && rows[k].0 == id && rows[k].1 == m[id]
                    }),
                forall|k: int|
                    0 <= k < i && (last matches Some(l) && (#[trigger] rows[k]).0 > l)
                        ==> !has_offer(rows[k].1, endpoint),
            decreases rows.len() - i,
        {
            let id: u64 = self.definitions.id_at(i);
            let turn: bool = match last {
                Some(l) => id > l,
                None => false,
            };
            if turn {
                let d = self.definitions.value_at(i);
                let offer = offer_of(d, endpoint);
                if let Offer::Idle = offer {
                } else {
                    proof {
                        assert forall|x: u64| #[trigger]
                            m.dom().contains(x) && turn_before(x, id, last) implies !has_offer(
                            m[x],
                            endpoint,
                        ) by {
                            let k = row_of(rows, x);
                            if k >= i {
                                if k > i {
                                    assert(rows[i as int].0 < rows[k].0);
                                }
                            }
                        }
                    }
                    return offer;
                }
            }
            i = i + 1;
        }
        let ghost total = rows.len();
        let mut j: usize = 0;
        while j < self.definitions.len()
            invariant
                j <= rows.len(),
                self.wf(),
                rows == self.definitions.spec_rows(),
                m == self.definitions@,
                ascending(rows),
                forall|id: u64| #[trigger]
                    m.dom().contains(id) ==> ({
                        let k = row_of(rows, id);
                        0 <= k < rows.len() && rows[k].0 == id && rows[k].1 == m[id]
                    }),
                forall|k: int|
                    0 <= k < rows.len() && (last matches Some(l) && (#[trigger] rows[k]).0 > l)
                        ==> !has_offer(rows[k].1, endpoint),
                forall|k: int| 0 <= k < j ==> !has_offer((#[trigger] rows[k]).1, endpoint),
            decreases rows.len() - j,
        {
            let id: u64 = self.definitions.id_at(j);
            let d = self.definitions.value_at(j);
            let offer = offer_of(d, endpoint);
            if let Offer::Idle = offer {
            } else {
                proof {
                    assert forall|x: u64| #[trigger]
                        m.dom().contains(x) && turn_before(x, id, last) implies !has_offer(
                        m[x],
                        endpoint,
                    ) by {
                        let k = row_of(rows, x);
                        if k > j {
                            assert(rows[j as int].0 < rows[k].0);
                        }
                    }
                }
                return offer;
            }
            j = j + 1;
        }
        Offer::Idle
    }

    /// Takes note that an offer was sent: the follower moves on, and its outbox
    /// holds the packet until it has drained.
    pub fn sent(&mut self, endpoint: u64, offer: Offer)
        requires
            old(self).wf(),
            match offer {
                Offer::Idle => true,
                Offer::Record { extension_id, record, .. } => {
                    &&& old(self).definitions@.dom().contains(extension_id)
                    &&& old(self).definitions@[extension_id].followers@.dom().contains(endpoint)
                    &&& record.packet < old(self).packets.spec_slots().len()
                },
                Offer::Done { extension_id, .. } => {
                    &&& old(self).definitions@.dom().contains(extension_id)
                    &&& old(self).definitions@[extension_id].followers@.dom().contains(endpoint)
                },
            },
        ensures
            final(self).wf(),
            final(self).retention_clock == old(self).retention_clock,
            final(self).packets.spec_slots() == old(self).packets.spec_slots(),
            final(self).packets.spec_used() == old(self).packets.spec_used(),
            final(self).packets.spec_max() == old(self).packets.spec_max(),
            final(self).packets.spec_leases() == match offer {
                Offer::Record { record, .. } => old(self).packets.spec_leases().push(record.packet),
                _ => old(self).packets.spec_leases(),
            },
            match offer {
                Offer::Idle => final(self).definitions == old(self).definitions,
                Offer::Record { extension_id, .. } => follower_moved(
                    *old(self),
                    *final(self),
                    extension_id,
                    endpoint,
                    advanced(
                        old(self).definitions@[extension_id].followers@[endpoint],
                        offer,
                    ),
                ),
                Offer::Done { extension_id, .. } => follower_moved(
                    *old(self),
                    *final(self),
                    extension_id,
                    endpoint,
                    advanced(
                        old(self).definitions@[extension_id].followers@[endpoint],
                        offer,
                    ),
                ),
            },
    {
        match offer {
            Offer::Idle => {},
            Offer::Record { extension_id, record, .. } => {
                let f = self.cursor_of(extension_id, endpoint);
                self.set_follower(extension_id, endpoint, advance(f, offer));
                self.lease(record.packet);
            },
            Offer::Done { extension_id, .. } => {
                let f = self.cursor_of(extension_id, endpoint);
                self.set_follower(extension_id, endpoint, advance(f, offer));
            },
        }
    }

    /// An outbox has drained a packet that it was sent.
    pub fn drained(&mut self, slot: usize)
        requires
            old(self).wf(),
        ensures
            final(self).wf(),
            final(self).definitions == old(self).definitions,
            final(self).retention_clock == old(self).retention_clock,
            final(self).packets.spec_max() == old(self).packets.spec_max(),
            final(self).packets.spec_leases().to_multiset() =~= old(self).packets.spec_leases().to_multiset().remove(slot),
            final(self).packets.spec_used() <= old(self).packets.spec_used(),
            old(self).packets.spec_leased(slot) && !final(self).packets.spec_held(slot) ==> final(self).packets.spec_used() as nat == old(self).packets.spec_used()
                - crate::extension::packets::charge(old(self).packets.spec_slots()[slot as int]),
            old(self).packets.spec_leased(slot) && final(self).packets.spec_held(slot) ==> final(self).packets.spec_used() == old(self).packets.spec_used(),
            payloads_kept(*old(self), *final(self)),
            only_released(old(self).packets, final(self).packets),
    {
        let ghost start = *self;
        self.packets.unlease(slot);
        proof {
            assert forall|k: u64| #[trigger] self.definitions@.dom().contains(k) implies output_ok(
                self.definitions@[k],
                k,
                self.packets.spec_slots(),
                self.retention_clock,
            ) by {
                let d = self.definitions@[k];
                let before = start.packets.spec_slots();
                let after = self.packets.spec_slots();
                assert(output_ok(d, k, before, self.retention_clock));
                assert forall|i: int| 0 <= i < d.retained@.len() implies in_history(
                    after,
                    k,
                    #[trigger] d.retained@[i],
                ) && d.retained@[i].sequence < d.next_output_sequence && d.retained@[i].clock
                    <= self.retention_clock by {
                    assert(in_history(before, k, d.retained@[i]));
                    let p = d.retained@[i].packet;
                    if p == slot && start.packets.spec_leased(slot) {
                        assert(self.packets.spec_held(slot));
                    }
                }
                assert forall|i: int| 0 <= i < d.terminal_replay@.len() implies in_terminal(
                    after,
                    k,
                    #[trigger] d.terminal_replay@[i],
                ) && d.terminal_replay@[i].sequence < d.next_output_sequence
                    && d.terminal_replay@[i].clock <= self.retention_clock by {
                    assert(in_terminal(before, k, d.terminal_replay@[i]));
                    let p = d.terminal_replay@[i].packet;
                    if p == slot && start.packets.spec_leased(slot) {
                        assert(self.packets.spec_held(slot));
                    }
                }
            }
            lemma_still_backed(start, *self);
            lemma_payloads_kept(start, *self, -1, 0);
        }
    }

    /// An outbox takes hold of a packet.
    pub fn lease(&mut self, slot: usize)
        requires
            old(self).wf(),
            slot < old(self).packets.spec_slots().len(),
        ensures
            final(self).wf(),
            final(self).definitions == old(self).definitions,
            final(self).retention_clock == old(self).retention_clock,
            final(self).packets.spec_slots() == old(self).packets.spec_slots(),
            final(self).packets.spec_used() == old(self).packets.spec_used(),
            final(self).packets.spec_max() == old(self).packets.spec_max(),
            final(self).packets.spec_leases() == old(self).packets.spec_leases().push(slot),
    {
        self.packets.lease(slot);
    }

    fn cursor_of(&self, id: u64, endpoint: u64) -> (f: FollowerCursor)
        requires
            self.wf(),
            self.definitions@.dom().contains(id),
            self.definitions@[id].followers@.dom().contains(endpoint),
        ensures
            f == self.definitions@[id].followers@[endpoint],
    {
        match self.definitions.get(id) {
            Some(d) => match d.followers.get(endpoint) {
                Some(f) => *f,
                None => FollowerCursor { next_sequence: 0, replay_through: None },
            },
            None => FollowerCursor { next_sequence: 0, replay_through: None },
        }
    }

    /// Sets where a follower stands.
    pub fn set_follower(&mut self, id: u64, endpoint: u64, f: FollowerCursor)
        requires
            old(self).wf(),
            old(self).definitions@.dom().contains(id),
        ensures
            final(self).wf(),
            final(self).packets == old(self).packets,
            final(self).retention_clock == old(self).retention_clock,
            follower_moved(*old(self), *final(self), id, endpoint, f),
    {
        let ghost start = *self;
        match self.definitions.get_mut(id) {
            None => {},
            Some(d) => {
                proof {
                    assert(output_ok(*d, id, start.packets.spec_slots(), start.retention_clock));
                }
                d.followers.insert(endpoint, f);
            },
        }
        proof {
            lemma_definition_replaced(start, *self, id);
        }
    }

    /// Takes a follower away; where there is none, nothing changes.
    pub fn unfollow(&mut self, id: u64, endpoint: u64)
        requires
            old(self).wf(),
            old(self).definitions@.dom().contains(id),
        ensures
            final(self).wf(),
            final(self).packets == old(self).packets,
            final(self).retention_clock == old(self).retention_clock,
            ({
                let e = final(self).definitions@[id];
                &&& final(self).definitions@ == old(self).definitions@.insert(id, e)
                &&& e == (Definition { followers: e.followers, ..old(self).definitions@[id] })
                &&& e.followers@ == old(self).definitions@[id].followers@.remove(endpoint)
            }),
    {
        let ghost start = *self;
        match self.definitions.get_mut(id) {
            None => {},
            Some(d) => {
                proof {
                    assert(output_ok(*d, id, start.packets.spec_slots(), start.retention_clock));
                }
                let _ = d.followers.remove(endpoint);
            },
        }
        proof {
            lemma_definition_replaced(start, *self, id);
        }
    }

    /// Attaches a follower: it reads on from where it was, or from the oldest
    /// record, and is owed a mark through the latest one. Returns the first
    /// sequence that it will be replayed, or `0` where there is none.
    pub fn attach(&mut self, id: u64, endpoint: u64) -> (replay_from: u64)
        requires
            old(self).wf(),
            old(self).definitions@.dom().contains(id),
        ensures
            final(self).wf(),
            final(self).packets == old(self).packets,
            final(self).retention_clock == old(self).retention_clock,
            attached(
                old(self).definitions@[id],
                endpoint,
                final(self).definitions@[id].followers@[endpoint],
                replay_from,
            ),
            follower_moved(
                *old(self),
                *final(self),
                id,
                endpoint,
                final(self).definitions@[id].followers@[endpoint],
            ),
    {
        let (f, replay_from) = match self.definitions.get(id) {
            None => (FollowerCursor { next_sequence: 0, replay_through: None }, 0),
            Some(d) => {
                proof {
                    assert(output_ok(*d, id, self.packets.spec_slots(), self.retention_clock));
                }
                attachment(d, endpoint)
            },
        };
        self.set_follower(id, endpoint, f);
        replay_from
    }

    /// Whether `endpoint` may follow one more extension, under its own limit
    /// and the limit on all followers.
    pub fn follower_capacity_available(
        &self,
        endpoint: u64,
        per_endpoint_limit: usize,
        global_limit: usize,
    ) -> (r: bool)
        requires
            self.wf(),
        ensures
            r == (followed_by(self.definitions.spec_rows(), endpoint) < per_endpoint_limit
                && followers_of(self.definitions.spec_rows()) < global_limit),
    {
        let ghost rows = self.definitions.spec_rows();
        proof {
            self.definitions.lemma_rows();
        }
        let mut mine: usize = 0;
        let mut all: usize = 0;
        let mut full: bool = false;
        let mut i: usize = 0;
        while i < self.definitions.len()
            invariant
                i <= rows.len(),
                self.wf(),
                rows == self.definitions.spec_rows(),
                ascending(rows),
                mine as nat == followed_by(rows.take(i as int), endpoint),
                mine <= i,
                !full ==> all as nat == followers_of(rows.take(i as int)),
                full ==> followers_of(rows.take(i as int)) >= usize::MAX,
            decreases rows.len() - i,
        {
            let d = self.definitions.value_at(i);
            proof {
                assert(rows.take(i + 1).drop_last() =~= rows.take(i as int));
                assert(rows.take(i + 1).last() == rows[i as int]);
                lemma_row_of(rows, i as int);
                assert(self.definitions@.dom().contains(rows[i as int].0));
            }
            match all.checked_add(d.followers.len()) {
                Some(total) => {
                    all = total;
                },
                None => {
                    full = true;
                },
            }
            if d.followers.contains(endpoint) {
                mine = mine + 1;
            }
            i = i + 1;
        }
        proof {
            assert(rows.take(rows.len() as int) =~= rows);
        }
        mine < per_endpoint_limit && !full && all < global_limit
    }

    /// Owes every follower of an extension a mark through `through`.
    pub fn fanout_replay_done(&mut self, id: u64, through: u64)
        requires
            old(self).wf(),
        ensures
            final(self).wf(),
            final(self).packets == old(self).packets,
            final(self).retention_clock == old(self).retention_clock,
            !old(self).definitions@.dom().contains(id) ==> *final(self) == *old(self),
            old(self).definitions@.dom().contains(id) ==> ({
                let d = old(self).definitions@[id];
                let e = final(self).definitions@[id];
                &&& final(self).definitions@ == old(self).definitions@.insert(id, e)
                &&& e == (Definition { followers: e.followers, ..d })
                &&& e.followers@.dom() == d.followers@.dom()
                &&& forall|ep: u64| #[trigger]
                    d.followers@.dom().contains(ep) ==> e.followers@[ep] == owed_through(
                        d.followers@[ep],
                        through,
                    )
            }),
    {
        let ghost start = *self;
        match self.definitions.get_mut(id) {
            None => {},
            Some(d) => {
                proof {
                    assert(output_ok(*d, id, start.packets.spec_slots(), start.retention_clock));
                }
                let next = owe_all(&d.followers, through);
                d.followers = next;
            },
        }
        proof {
            if start.definitions@.dom().contains(id) {
                lemma_definition_replaced(start, *self, id);
            }
        }
    }
}

/// How many definitions an endpoint follows.
pub open spec fn followed_by(rows: Seq<(u64, Definition)>, endpoint: u64) -> nat
    decreases rows.len(),
{
    if rows.len() == 0 {
        0
    } else {
        followed_by(rows.drop_last(), endpoint) + if rows.last().1.followers@.dom().contains(
            endpoint,
        ) {
            1nat
        } else {
            0nat
        }
    }
}

/// How many followers all definitions have.
pub open spec fn followers_of(rows: Seq<(u64, Definition)>) -> nat
    decreases rows.len(),
{
    if rows.len() == 0 {
        0
    } else {
        followers_of(rows.drop_last()) + rows.last().1.followers.spec_rows().len()
    }
}

/// One follower of one definition moved, and nothing else changed in any
/// definition.
pub open spec fn follower_moved(
    before: Registry,
    after: Registry,
    id: u64,
    endpoint: u64,
    f: FollowerCursor,
) -> bool {
    let e = after.definitions@[id];
    &&& after.definitions@ == before.definitions@.insert(id, e)
    &&& e == (Definition { followers: e.followers, ..before.definitions@[id] })
    &&& e.followers@ == before.definitions@[id].followers@.insert(endpoint, f)
}

/// Where a follower stands after it attached, and what it was told.
pub open spec fn attached(
    d: Definition,
    endpoint: u64,
    f: FollowerCursor,
    replay_from: u64,
) -> bool {
    let through = d.spec_latest_output_sequence();
    &&& if d.followers@.dom().contains(endpoint) {
        reads_from(d, d.followers@[endpoint], f.next_sequence)
    } else {
        replay_start(d, f.next_sequence)
    }
    &&& f.replay_through == Some(
        match if d.followers@.dom().contains(endpoint) {
            d.followers@[endpoint].replay_through
        } else {
            None
        } {
            Some(p) if p >= through => p,
            _ => through,
        },
    )
    &&& (exists|rec: Record| #[trigger]
        comes_next(replayable(d), rec, f.next_sequence, through) && rec.sequence == replay_from)
        || (none_within(replayable(d), f.next_sequence, through) && replay_from == 0)
}

fn attachment(d: &Definition, endpoint: u64) -> (r: (FollowerCursor, u64))
    requires
        d.followers.wf(),
    ensures
        attached(*d, endpoint, r.0, r.1),
{
    let start: u64 = oldest_replay_sequence(d);
    let through: u64 = d.latest_output_sequence();
    let f = match d.followers.get(endpoint) {
        Some(f) => FollowerCursor {
            next_sequence: if f.next_sequence >= start {
                f.next_sequence
            } else {
                start
            },
            replay_through: f.replay_through,
        },
        None => FollowerCursor { next_sequence: start, replay_through: None },
    };
    let from: u64 = match next_replay_record(d, f.next_sequence, through) {
        Some(rec) => rec.sequence,
        None => 0,
    };
    (owe_through(f, through), from)
}

fn owe_all(followers: &IdMap<FollowerCursor>, through: u64) -> (r: IdMap<FollowerCursor>)
    requires
        followers.wf(),
    ensures
        r.wf(),
        r@.dom() == followers@.dom(),
        forall|ep: u64| #[trigger]
            followers@.dom().contains(ep) ==> r@[ep] == owed_through(followers@[ep], through),
{
    let mut r: IdMap<FollowerCursor> = IdMap::new();
    let ghost rows = followers.spec_rows();
    proof {
        followers.lemma_rows();
    }
    let mut i: usize = 0;
    while i < followers.len()
        invariant
            i <= rows.len(),
            followers.wf(),
            r.wf(),
            rows == followers.spec_rows(),
            ascending(rows),
            forall|ep: u64|
                r@.dom().contains(ep) <==> exists|k: int| 0 <= k < i && (#[trigger] rows[k]).0 == ep,
            forall|k: int|
                0 <= k < i ==> r@[(#[trigger] rows[k]).0] == owed_through(rows[k].1, through),
        decreases rows.len() - i,
    {
        let ep: u64 = followers.id_at(i);
        let f = *followers.value_at(i);
        let ghost before = r@;
        r.insert(ep, owe_through(f, through));
        proof {
            assert forall|x: u64|
                r@.dom().contains(x) <==> exists|k: int|
                    0 <= k < i + 1 && (#[trigger] rows[k]).0 == x by {
                if before.dom().contains(x) {
                    let k = choose|k: int| 0 <= k < i && (#[trigger] rows[k]).0 == x;
                    assert(rows[k].0 == x);
                }
                assert(rows[i as int].0 == ep);
            }
            assert forall|k: int| 0 <= k < i + 1 implies r@[(#[trigger] rows[k]).0] == owed_through(
                rows[k].1,
                through,
            ) by {
                if k < i {
                    assert(rows[k].0 < rows[i as int].0);
                }
            }
        }
        i = i + 1;
    }
    proof {
        assert forall|x: u64| r@.dom().contains(x) == followers@.dom().contains(x) by {
            if followers@.dom().contains(x) {
                let k = row_of(rows, x);
                lemma_row_of(rows, k);
                assert(rows[k].0 == x);
            }
            if r@.dom().contains(x) {
                let k = choose|k: int| 0 <= k < rows.len() && (#[trigger] rows[k]).0 == x;
                lemma_row_of(rows, k);
            }
        }
        assert(r@.dom() =~= followers@.dom());
        assert forall|x: u64| #[trigger] followers@.dom().contains(x) implies r@[x] == owed_through(
            followers@[x],
            through,
        ) by {
            let k = row_of(rows, x);
            lemma_row_of(rows, k);
            assert(rows[k].0 == x);
        }
    }
    r
}

/// A follower is given each record of an extension once and in order: whatever
/// it is offered after a record, however the definition changed in between,
/// comes later in the sequence.
pub proof fn law_follower_reads_in_order(
    d: Definition,
    endpoint: u64,
    first: Offer,
    later: Definition,
    second: Offer,
)
    requires
        offered(d, endpoint, first),
        later.followers@.dom().contains(endpoint),
        later.followers@[endpoint] == advanced(d.followers@[endpoint], first),
        offered(later, endpoint, second),
        first is Record,
        second is Record,
        first->record.sequence < u64::MAX,
    ensures
        first->record.sequence < second->record.sequence,
{
}

/// Extensions take turns: once one was served, every other followed extension
/// that has something to offer comes before it again.
pub proof fn law_extensions_take_turns(served: u64, other: u64)
    requires
        served != other,
    ensures
        turn_before(other, served, Some(served)),
        !turn_before(served, other, Some(served)),
{
}

/// A follower is given what was put out: as long as a record is there to give,
/// its packet holds the bytes that it was put out with, whatever else was put
/// out, sent, drained or removed since.
pub proof fn law_follower_is_given_what_was_put_out(
    before: Registry,
    after: Registry,
    later: Registry,
    id: u64,
    packet: Seq<u8>,
    exit: bool,
)
    requires
        put_out(before, after, id, packet, exit),
        after.wf(),
        after.definitions@[id].retained@.len() > 0,
        after.definitions@[id].retained@.last().sequence
            == before.definitions@[id].next_output_sequence,
        before.wf(),
        payloads_kept(after, later),
        gives(later, id, after.definitions@[id].retained@.last()),
    ensures
        payload(later, after.definitions@[id].retained@.last()) == packet,
{
    let last = after.definitions@[id].retained@.last();
    let kept = choose|kept: bool| #[trigger]
        retention(before, after, id, packet.len(), kept) && if kept {
            &&& last == new_record(before, id, packet.len(), exit, last.packet)
            &&& payload(after, last) == packet
            &&& in_history(after.packets.spec_slots(), id, last)
            &&& released_but(before.packets, after.packets, last.packet as int)
        } else {
            only_released(before.packets, after.packets)
        };
    let old = before.definitions@[id].retained@;
    let now = after.definitions@[id].retained@;
    assert(now[now.len() - 1] == last);
    assert(gives(after, id, last));
    if !kept {
        let h1 = before.spec_histories().insert(id, trimmed_for(old, packet.len()));
        assert(h1.dom().contains(id));
        assert(is_suffix(after.spec_histories()[id], h1[id]));
        lemma_trimmed(old, packet.len());
        assert(output_ok(
            before.definitions@[id],
            id,
            before.packets.spec_slots(),
            before.retention_clock,
        ));
        assert(last == old[old.len() - 1]);
        assert(in_history(before.packets.spec_slots(), id, old[old.len() - 1]));
    }
}

/// The charged packets count for what is used of the budget, and never for more
/// than the budget.
pub proof fn law_output_stays_within_budget(r: Registry)
    requires
        r.wf(),
    ensures
        charges(r.packets.spec_slots()) == r.packets.spec_used(),
        r.packets.spec_used() <= r.packets.spec_max(),
{
}

/// The records of all histories.
pub open spec fn all_retained(rows: Seq<(u64, Definition)>) -> Seq<Record>
    decreases rows.len(),
{
    if rows.len() == 0 {
        Seq::empty()
    } else {
        all_retained(rows.drop_last()) + rows.last().1.retained@
    }
}

/// Records with packets of their own, each charged for its bytes.
pub open spec fn each_charged(records: Seq<Record>, slots: Seq<Packet>) -> bool {
    &&& forall|i: int|
        0 <= i < records.len() ==> (#[trigger] records[i]).packet < slots.len()
            && slots[records[i].packet as int].charged
            && slots[records[i].packet as int].bytes@.len() == records[i].len
    &&& forall|i: int, j: int|
        0 <= i < j < records.len() ==> (#[trigger] records[i]).packet != (
        #[trigger] records[j]).packet
}

proof fn lemma_each_charged(records: Seq<Record>, slots: Seq<Packet>)
    requires
        each_charged(records, slots),
    ensures
        total_len(records) <= charges(slots),
    decreases records.len(),
{
    if records.len() > 0 {
        let first = records[0];
        let rest = records.subrange(1, records.len() as int);
        let at = first.packet as int;
        let less = slots.update(at, Packet { charged: false, ..slots[at] });
        lemma_charges_update(slots, at, Packet { charged: false, ..slots[at] });
        assert(each_charged(rest, less)) by {
            assert forall|i: int| 0 <= i < rest.len() implies (#[trigger] rest[i]).packet
                < less.len() && less[rest[i].packet as int].charged
                && less[rest[i].packet as int].bytes@.len() == rest[i].len by {
                assert(rest[i] == records[i + 1]);
                assert(records[0].packet != records[i + 1].packet);
            }
            assert forall|i: int, j: int| 0 <= i < j < rest.len() implies (
            #[trigger] rest[i]).packet != (#[trigger] rest[j]).packet by {
                assert(rest[i] == records[i + 1] && rest[j] == records[j + 1]);
            }
        }
        lemma_each_charged(rest, less);
    }
}

/// The records of the first `n` rows have packets of their own.
proof fn lemma_all_retained(r: Registry, n: int)
    requires
        r.wf(),
        0 <= n <= r.definitions.spec_rows().len(),
    ensures
        each_charged(all_retained(r.definitions.spec_rows().take(n)), r.packets.spec_slots()),
        forall|k: int|
            0 <= k < all_retained(r.definitions.spec_rows().take(n)).len() ==> in_some_row(
                r,
                n,
                #[trigger] all_retained(r.definitions.spec_rows().take(n))[k],
            ),
    decreases n,
{
    let rows = r.definitions.spec_rows();
    let slots = r.packets.spec_slots();
    r.definitions.lemma_rows();
    if n > 0 {
        lemma_all_retained(r, n - 1);
        let front = all_retained(rows.take(n - 1));
        let mine = rows[n - 1].1.retained@;
        let id = rows[n - 1].0;
        let all = all_retained(rows.take(n));
        assert(rows.take(n).drop_last() =~= rows.take(n - 1));
        assert(rows.take(n).last() == rows[n - 1]);
        assert(all == front + mine);
        lemma_row_of(rows, n - 1);
        assert(r.definitions@.dom().contains(id));
        assert(output_ok(r.definitions@[id], id, slots, r.retention_clock));
        assert forall|k: int| 0 <= k < all.len() implies in_some_row(r, n, #[trigger] all[k]) by {
            if k < front.len() {
                assert(all[k] == front[k]);
                assert(in_some_row(r, n - 1, front[k]));
                let row = choose|row: int| #[trigger] holds_row(r, n - 1, row, front[k]);
                assert(holds_row(r, n, row, all[k]));
            } else {
                assert(all[k] == mine[k - front.len()]);
                assert(in_history(slots, id, mine[k - front.len()]));
                assert(holds_row(r, n, n - 1, all[k]));
            }
        }
        assert forall|i: int| 0 <= i < all.len() implies (#[trigger] all[i]).packet < slots.len()
            && slots[all[i].packet as int].charged && slots[all[i].packet as int].bytes@.len()
            == all[i].len by {
            assert(in_some_row(r, n, all[i]));
        }
        assert forall|i: int, j: int| 0 <= i < j < all.len() implies (#[trigger] all[i]).packet != (
        #[trigger] all[j]).packet by {
            if j < front.len() {
                assert(all[i] == front[i] && all[j] == front[j]);
            } else if i < front.len() {
                assert(all[i] == front[i]);
                assert(all[j] == mine[j - front.len()]);
                assert(in_some_row(r, n - 1, front[i]));
                let row = choose|row: int| #[trigger] holds_row(r, n - 1, row, front[i]);
                assert(in_history(slots, id, mine[j - front.len()]));
                assert(rows[row].0 < rows[n - 1].0);
            } else {
                let a = mine[i - front.len()];
                let b = mine[j - front.len()];
                assert(all[i] == a && all[j] == b);
                assert(in_history(slots, id, a) && in_history(slots, id, b));
                assert(a.sequence < b.sequence);
            }
        }
    } else {
        assert(rows.take(0).len() == 0);
    }
}

/// Whether one of the first `n` definitions holds a record in its history.
spec fn in_some_row(r: Registry, n: int, rec: Record) -> bool {
    exists|row: int| #[trigger] holds_row(r, n, row, rec)
}

/// Whether the definition in this row does.
spec fn holds_row(r: Registry, n: int, row: int, rec: Record) -> bool {
    0 <= row < n && in_history(r.packets.spec_slots(), r.definitions.spec_rows()[row].0, rec)
}

/// What all histories hold together never exceeds the budget: no two of their
/// records share a packet, and the packets of all of them together are within the
/// output maximum.
pub proof fn law_histories_stay_within_budget(r: Registry)
    requires
        r.wf(),
    ensures
        ({
            let records = all_retained(r.definitions.spec_rows());
            &&& each_charged(records, r.packets.spec_slots())
            &&& total_len(records) <= r.packets.spec_used()
            &&& total_len(records) <= r.packets.spec_max()
        }),
{
    let rows = r.definitions.spec_rows();
    assert(rows.take(rows.len() as int) =~= rows);
    lemma_all_retained(r, rows.len() as int);
    lemma_each_charged(all_retained(rows), r.packets.spec_slots());
}

/// An outbox that is slow to send keeps its packet charged: another packet that does
/// not fit beside it is numbered and dropped, whatever the histories let go of for it.
pub proof fn law_stalled_outbox_leaves_no_room(
    before: Registry,
    after: Registry,
    id: u64,
    packet: Seq<u8>,
    exit: bool,
    slot: usize,
)
    requires
        before.wf(),
        after.wf(),
        put_out(before, after, id, packet, exit),
        before.packets.spec_leased(slot),
        slot < before.packets.spec_slots().len(),
        before.packets.spec_slots()[slot as int].charged,
        before.packets.spec_slots()[slot as int].bytes@.len() + packet.len()
            > before.packets.spec_max(),
        packet.len() <= OUTPUT_RETAIN_PER_EXTENSION,
    ensures
        no_history(after.spec_histories()),
        after.definitions@[id].next_output_sequence == before.definitions@[id].next_output_sequence
            + 1,
        after.packets.spec_slots()[slot as int].charged,
        after.packets.spec_slots()[slot as int].bytes
            == before.packets.spec_slots()[slot as int].bytes,
        before.packets.spec_slots()[slot as int].bytes@.len() <= after.packets.spec_used()
            <= before.packets.spec_used(),
{
    let last = after.definitions@[id].retained@.last();
    let kept = choose|kept: bool| #[trigger]
        retention(before, after, id, packet.len(), kept) && if kept {
            &&& last == new_record(before, id, packet.len(), exit, last.packet)
            &&& payload(after, last) == packet
            &&& in_history(after.packets.spec_slots(), id, last)
            &&& released_but(before.packets, after.packets, last.packet as int)
        } else {
            only_released(before.packets, after.packets)
        };
    let slots = after.packets.spec_slots();
    let p = slots[slot as int];
    assert(after.packets.spec_leased(slot));
    assert(released_at(before.packets, after.packets, slot as int));
    lemma_charges_update(slots, slot as int, p);
    if kept {
        let less = slots.update(slot as int, Packet { charged: false, ..p });
        lemma_charges_update(slots, slot as int, Packet { charged: false, ..p });
        lemma_charges_update(less, last.packet as int, less[last.packet as int]);
    }
    let first = before.spec_trimmed(id, packet.len());
    let end = after.spec_room();
    let steps = choose|steps: Seq<Room>| #[trigger]
        evicts(before.packets, steps, packet.len()) && steps[0] == first && steps.last() == end;
    lemma_trimmed_frees(before, id, packet.len());
    lemma_evicts_frees(before.packets, steps, packet.len(), steps.len() - 1);
}

/// Dropping records of one history frees what they held and takes nothing more.
proof fn lemma_trimmed_frees(r: Registry, id: u64, len: nat)
    ensures
        r.spec_trimmed(id, len).used <= r.packets.spec_used(),
{
    lemma_freed_by(r.packets, r.spec_histories()[id], len);
}

proof fn lemma_freed_by(p: PacketStore, records: Seq<Record>, len: nat)
    ensures
        freed_by(p, trimmed_for(records, len)) <= freed_by(p, records),
    decreases records.len(),
{
    if len <= OUTPUT_RETAIN_PER_EXTENSION && records.len() > 0 && total_len(records) + len
        > OUTPUT_RETAIN_PER_EXTENSION {
        lemma_freed_by(p, records.subrange(1, records.len() as int), len);
    }
}

proof fn lemma_evicts_frees(p: PacketStore, steps: Seq<Room>, len: nat, i: int)
    requires
        evicts(p, steps, len),
        0 <= i < steps.len(),
    ensures
        steps[i].used <= steps[0].used,
    decreases i,
{
    if i > 0 {
        lemma_evicts_frees(p, steps, len, i - 1);
        assert(evicts_at(p, steps, len, i - 1));
    }
}

/// A packet is charged only while an outbox is to send it or some definition has
/// a record of it to give.
pub proof fn law_output_is_charged_for_a_reader(r: Registry, slot: usize)
    requires
        r.wf(),
        slot < r.packets.spec_slots().len(),
        r.packets.spec_slots()[slot as int].charged,
    ensures
        r.packets.spec_leased(slot) || exists|id: u64, rec: Record| #[trigger]
            gives(r, id, rec) && rec.packet == slot,
{
    let slots = r.packets.spec_slots();
    assert(backed_at(r.definitions@, slots, slot as int));
    if !r.packets.spec_leased(slot) {
        assert(r.packets.spec_held(slot));
        match slots[slot as int].history {
            Some((id, sequence)) => {
                let records = r.definitions@[id].retained@;
                let k = choose|k: int|
                    0 <= k < records.len() && (#[trigger] records[k]).packet == slot
                        && records[k].sequence == sequence;
                assert(gives(r, id, records[k]));
            },
            None => {
                let (id, sequence) = slots[slot as int].terminal->0;
                let records = r.definitions@[id].terminal_replay@;
                let k = choose|k: int|
                    0 <= k < records.len() && (#[trigger] records[k]).packet == slot
                        && records[k].sequence == sequence;
                assert(gives(r, id, records[k]));
            },
        }
    }
}

proof fn lemma_nothing_charged(slots: Seq<Packet>)
    requires
        forall|i: int| 0 <= i < slots.len() ==> !(#[trigger] slots[i]).charged,
    ensures
        charges(slots) == 0,
    decreases slots.len(),
{
    if slots.len() > 0 {
        assert(!slots[slots.len() - 1].charged);
        assert forall|i: int| 0 <= i < slots.drop_last().len() implies !(
        #[trigger] slots.drop_last()[i]).charged by {
            assert(slots.drop_last()[i] == slots[i]);
        }
        lemma_nothing_charged(slots.drop_last());
    }
}

/// Once no definition has a record and no outbox a packet, the whole output
/// budget is free again.
pub proof fn law_output_budget_comes_back(r: Registry)
    requires
        r.wf(),
        r.packets.spec_leases().len() == 0,
        forall|id: u64, rec: Record| !#[trigger] gives(r, id, rec),
    ensures
        r.packets.spec_used() == 0,
{
    let slots = r.packets.spec_slots();
    r.packets.lemma_slots_fit();
    assert forall|i: int| 0 <= i < slots.len() implies !(#[trigger] slots[i]).charged by {
        if slots[i].charged {
            law_output_is_charged_for_a_reader(r, i as usize);
        }
    }
    lemma_nothing_charged(slots);
}

} // verus!
