//! A ring of whole records in a fixed number of bytes. New records push the
//! oldest out.

use vstd::prelude::*;

use crate::bytes::{byte_seqs, read_u32, u32_at};
use crate::events::record::{whole, RECORD_HEADER};

verus! {

/// The ring: `used` bytes of records from `head` on, around the end.
pub struct Ring {
    bytes: Vec<u8>,
    head: usize,
    used: usize,
    records: u64,
    dropped: u64,
}

/// What a [`Ring`] holds.
pub ghost struct RingView {
    pub capacity: nat,
    /// The records, oldest first.
    pub records: Seq<Seq<u8>>,
    /// How many records were pushed out or never fit.
    pub dropped: u64,
}

/// The position `i` bytes after `at`, around the end.
pub open spec fn wrap(at: int, i: int, cap: int) -> int {
    if at + i < cap {
        at + i
    } else {
        at + i - cap
    }
}

/// `used` bytes from `head` on, around the end.
pub open spec fn unrolled(bytes: Seq<u8>, head: int, used: int) -> Seq<u8> {
    Seq::new(used as nat, |i: int| bytes[wrap(head, i, bytes.len() as int)])
}

/// Whether bytes are whole records one after another.
pub open spec fn framed(s: Seq<u8>) -> bool
    decreases s.len(),
{
    s.len() == 0 || {
        let n = u32_at(s, 0) as int;
        s.len() >= RECORD_HEADER && RECORD_HEADER <= n <= s.len() && framed(
            s.subrange(n, s.len() as int),
        )
    }
}

/// The records that bytes are made of.
pub open spec fn split(s: Seq<u8>) -> Seq<Seq<u8>>
    decreases s.len(),
{
    let n = u32_at(s, 0) as int;
    if s.len() == 0 || !(RECORD_HEADER <= n <= s.len()) {
        Seq::empty()
    } else {
        seq![s.subrange(0, n)] + split(s.subrange(n, s.len() as int))
    }
}

/// What records take together.
pub open spec fn total(records: Seq<Seq<u8>>) -> nat
    decreases records.len(),
{
    if records.len() == 0 {
        0
    } else {
        records[0].len() + total(records.subrange(1, records.len() as int))
    }
}

/// One more, up to the greatest number.
pub open spec fn counted(n: u64) -> u64 {
    if n < u64::MAX {
        (n + 1) as u64
    } else {
        n
    }
}

/// The oldest records are pushed out until there is room.
pub open spec fn roomy(v: RingView, need: nat) -> RingView
    decreases v.records.len(),
{
    if v.records.len() == 0 || total(v.records) + need <= v.capacity {
        v
    } else {
        roomy(
            RingView {
                records: v.records.subrange(1, v.records.len() as int),
                dropped: counted(v.dropped),
                ..v
            },
            need,
        )
    }
}

/// A record is added, if it fits at all.
pub open spec fn appended(v: RingView, record: Seq<u8>) -> RingView {
    if record.len() > v.capacity {
        RingView { dropped: counted(v.dropped), ..v }
    } else {
        let r = roomy(v, record.len());
        RingView { records: r.records.push(record), ..r }
    }
}

/// Records are added one by one.
pub open spec fn all_appended(v: RingView, records: Seq<Seq<u8>>) -> RingView
    decreases records.len(),
{
    if records.len() == 0 {
        v
    } else {
        appended(all_appended(v, records.drop_last()), records.last())
    }
}

/// The records go into a ring of another size, oldest first.
pub open spec fn resized(v: RingView, capacity: nat) -> RingView {
    if capacity == v.capacity {
        v
    } else {
        all_appended(RingView { capacity, records: Seq::empty(), dropped: v.dropped }, v.records)
    }
}

proof fn lemma_u32_at_prefix(s: Seq<u8>, t: Seq<u8>)
    requires
        s.len() >= 4,
        t.len() >= 4,
        s.subrange(0, 4) == t.subrange(0, 4),
    ensures
        u32_at(s, 0) == u32_at(t, 0),
{
}

/// Adding a whole record at the end adds it to the records.
proof fn lemma_split_push(s: Seq<u8>, record: Seq<u8>)
    requires
        framed(s),
        whole(record),
    ensures
        framed(s + record),
        split(s + record) == split(s).push(record),
        total(split(s + record)) == total(split(s)) + record.len(),
    decreases s.len(),
{
    let t = s + record;
    reveal_with_fuel(framed, 2);
    if s.len() == 0 {
        assert(t =~= record);
        let n = record.len() as int;
        assert(t.subrange(n, t.len() as int) =~= Seq::<u8>::empty());
        assert(t.subrange(0, n) =~= record);
        assert(split(Seq::<u8>::empty()) =~= Seq::empty());
        assert(split(t) =~= seq![record]);
        assert(split(s) =~= Seq::empty());
        assert(split(s).push(record) =~= seq![record]);
        lemma_total_push(split(s), record);
    } else {
        assert(t.subrange(0, 4) =~= s.subrange(0, 4));
        lemma_u32_at_prefix(s, t);
        let n = u32_at(s, 0) as int;
        let rest = s.subrange(n, s.len() as int);
        lemma_split_push(rest, record);
        assert(t.subrange(n, t.len() as int) =~= rest + record);
        assert(t.subrange(0, n) =~= s.subrange(0, n));
        assert(split(t) =~= split(s).push(record));
        lemma_total_push(split(s), record);
    }
}

proof fn lemma_total_push(records: Seq<Seq<u8>>, record: Seq<u8>)
    ensures
        total(records.push(record)) == total(records) + record.len(),
    decreases records.len(),
{
    let after = records.push(record);
    reveal_with_fuel(total, 2);
    if records.len() == 0 {
        assert(after.subrange(1, after.len() as int) =~= Seq::empty());
    } else {
        let rest = records.subrange(1, records.len() as int);
        assert(after.subrange(1, after.len() as int) =~= rest.push(record));
        lemma_total_push(rest, record);
    }
}

/// Framed bytes are exactly their records.
proof fn lemma_split_total(s: Seq<u8>)
    requires
        framed(s),
    ensures
        total(split(s)) == s.len(),
        s.len() > 0 ==> split(s).len() > 0,
        forall|i: int| 0 <= i < split(s).len() ==> whole(#[trigger] split(s)[i]),
        RECORD_HEADER * split(s).len() <= s.len(),
    decreases s.len(),
{
    if s.len() > 0 {
        let n = u32_at(s, 0) as int;
        let rest = s.subrange(n, s.len() as int);
        lemma_split_total(rest);
        let first = s.subrange(0, n);
        assert(split(s) == seq![first] + split(rest));
        assert(split(s).subrange(1, split(s).len() as int) =~= split(rest));
        assert(first.subrange(0, 4) =~= s.subrange(0, 4));
        lemma_u32_at_prefix(first, s);
        assert forall|i: int| 0 <= i < split(s).len() implies whole(#[trigger] split(s)[i]) by {
            if i > 0 {
                assert(split(s)[i] == split(rest)[i - 1]);
            }
        }
    }
}

impl Ring {
    /// Everything in use lies within the bytes, and is whole records.
    pub closed spec fn wf(self) -> bool {
        &&& self.used <= self.bytes@.len()
        &&& self.bytes@.len() == 0 ==> self.head == 0
        &&& self.bytes@.len() > 0 ==> self.head < self.bytes@.len()
        &&& framed(self.contents())
        &&& self.records as nat == split(self.contents()).len()
    }

    pub closed spec fn contents(self) -> Seq<u8> {
        unrolled(self.bytes@, self.head as int, self.used as int)
    }

    pub closed spec fn view(self) -> RingView {
        RingView {
            capacity: self.bytes@.len(),
            records: split(self.contents()),
            dropped: self.dropped,
        }
    }

    /// The records are whole and fit.
    pub proof fn lemma_holds(self)
        requires
            self.wf(),
        ensures
            total(self@.records) <= self@.capacity,
            forall|i: int| 0 <= i < self@.records.len() ==> whole(#[trigger] self@.records[i]),
    {
        lemma_split_total(self.contents());
    }

    pub fn new(capacity: usize) -> (r: Ring)
        ensures
            r.wf(),
            r@ == (RingView { capacity: capacity as nat, records: Seq::empty(), dropped: 0 }),
    {
        let mut bytes: Vec<u8> = Vec::new();
        let mut i: usize = 0;
        while i < capacity
            invariant
                i <= capacity,
                bytes@.len() == i,
            decreases capacity - i,
        {
            bytes.push(0);
            i = i + 1;
        }
        let r = Ring { bytes, head: 0, used: 0, records: 0, dropped: 0 };
        proof {
            assert(r.contents() =~= Seq::empty());
            assert(r@.records =~= Seq::empty());
        }
        r
    }

    pub fn capacity(&self) -> (n: usize)
        ensures
            n == self@.capacity,
    {
        self.bytes.len()
    }

    pub fn used(&self) -> (n: usize)
        requires
            self.wf(),
        ensures
            n == total(self@.records),
    {
        proof {
            lemma_split_total(self.contents());
        }
        self.used
    }

    pub fn records(&self) -> (n: u64)
        requires
            self.wf(),
        ensures
            n == self@.records.len(),
    {
        self.records
    }

    pub fn dropped(&self) -> (n: u64)
        ensures
            n == self@.dropped,
    {
        self.dropped
    }

    /// The position `i` bytes after `at`.
    fn step(&self, at: usize, i: usize) -> (p: usize)
        requires
            at < self.bytes@.len(),
            i <= self.bytes@.len(),
        ensures
            p as int == wrap(at as int, i as int, self.bytes@.len() as int),
    {
        let cap: usize = self.bytes.len();
        if i < cap - at {
            at + i
        } else {
            i - (cap - at)
        }
    }

    /// `len` bytes from `at` on.
    fn bytes_at(&self, at: usize, len: usize) -> (out: Vec<u8>)
        requires
            at < self.bytes@.len(),
            len <= self.bytes@.len(),
        ensures
            out@ == unrolled(self.bytes@, at as int, len as int),
    {
        let mut out: Vec<u8> = Vec::new();
        let mut i: usize = 0;
        while i < len
            invariant
                i <= len,
                at < self.bytes@.len(),
                len <= self.bytes@.len(),
                out@.len() == i,
                forall|j: int|
                    0 <= j < i ==> (#[trigger] out@[j]) == self.bytes@[wrap(
                        at as int,
                        j,
                        self.bytes@.len() as int,
                    )],
            decreases len - i,
        {
            let p: usize = self.step(at, i);
            out.push(self.bytes[p]);
            i = i + 1;
        }
        proof {
            assert(out@ =~= unrolled(self.bytes@, at as int, len as int));
        }
        out
    }

    /// The length of the record at `at`, of which `left` bytes are in use.
    fn length_at(&self, at: usize, left: usize) -> (n: usize)
        requires
            at < self.bytes@.len(),
            left <= self.bytes@.len(),
            left > 0,
            framed(unrolled(self.bytes@, at as int, left as int)),
        ensures
            n == u32_at(unrolled(self.bytes@, at as int, left as int), 0),
            RECORD_HEADER <= n <= left,
    {
        let ghost s = unrolled(self.bytes@, at as int, left as int);
        let prefix = self.bytes_at(at, 4);
        proof {
            assert(s.subrange(0, 4) =~= prefix@.subrange(0, 4));
            lemma_u32_at_prefix(s, prefix@);
        }
        read_u32(prefix.as_slice(), 0) as usize
    }

    /// Pushes the oldest record out.
    fn evict_oldest(&mut self)
        requires
            old(self).wf(),
            old(self)@.records.len() > 0,
        ensures
            final(self).wf(),
            final(self)@ == (RingView {
                records: old(self)@.records.subrange(1, old(self)@.records.len() as int),
                dropped: counted(old(self)@.dropped),
                ..old(self)@
            }),
    {
        let ghost s = self.contents();
        let ghost cap = self.bytes@.len() as int;
        proof {
            assert(s.len() > 0);
        }
        let n: usize = self.length_at(self.head, self.used);
        let ghost head = self.head as int;
        let next: usize = self.step(self.head, n);
        self.head = if next == self.bytes.len() {
            0
        } else {
            next
        };
        self.used = self.used - n;
        self.records = self.records - 1;
        if self.dropped < u64::MAX {
            self.dropped = self.dropped + 1;
        }
        proof {
            let t = self.contents();
            let rest = s.subrange(n as int, s.len() as int);
            assert forall|i: int| 0 <= i < t.len() implies t[i] == rest[i] by {
                assert(wrap(self.head as int, i, cap) == wrap(head, n + i, cap));
            }
            assert(t =~= rest);
            assert(split(s).subrange(1, split(s).len() as int) =~= split(rest));
        }
    }

    /// Writes bytes where nothing is in use.
    fn write_tail(&mut self, record: &Vec<u8>)
        requires
            old(self).used + record@.len() <= old(self).bytes@.len(),
            old(self).bytes@.len() > 0,
            old(self).head < old(self).bytes@.len(),
        ensures
            final(self).head == old(self).head,
            final(self).used == old(self).used + record@.len(),
            final(self).records == old(self).records,
            final(self).dropped == old(self).dropped,
            final(self).bytes@.len() == old(self).bytes@.len(),
            final(self).contents() == old(self).contents() + record@,
    {
        let ghost start = *self;
        let ghost cap = self.bytes@.len() as int;
        let tail: usize = self.step(self.head, self.used);
        let size: usize = self.bytes.len();
        let mut i: usize = 0;
        let len: usize = record.len();
        while i < len
            invariant
                i <= len,
                len == record@.len(),
                cap == self.bytes@.len(),
                cap == start.bytes@.len(),
                size == cap,
                start.head < cap,
                start.used + len <= cap,
                0 < cap,
                tail as int == wrap(start.head as int, start.used as int, cap),
                tail < cap || len == 0,
                self.head == start.head,
                self.used == start.used,
                self.records == start.records,
                self.dropped == start.dropped,
                forall|j: int|
                    0 <= j < start.used ==> #[trigger] self.bytes@[wrap(start.head as int, j, cap)]
                        == start.bytes@[wrap(start.head as int, j, cap)],
                forall|j: int|
                    0 <= j < i ==> #[trigger] self.bytes@[wrap(
                        start.head as int,
                        start.used + j,
                        cap,
                    )] == record@[j],
            decreases len - i,
        {
            let p: usize = self.step(tail, i);
            proof {
                assert(p as int == wrap(start.head as int, start.used + i, cap));
            }
            self.bytes.set(p, record[i]);
            i = i + 1;
        }
        self.used = self.used + len;
        proof {
            let t = self.contents();
            let want = start.contents() + record@;
            assert forall|j: int| 0 <= j < t.len() implies t[j] == want[j] by {
                if j < start.used {
                    assert(self.bytes@[wrap(start.head as int, j, cap)] == start.bytes@[wrap(
                        start.head as int,
                        j,
                        cap,
                    )]);
                } else {
                    let k = j - start.used;
                    assert(self.bytes@[wrap(start.head as int, start.used + k, cap)] == record@[k]);
                }
            }
            assert(t =~= want);
        }
    }

    /// Adds a record, pushing the oldest out until there is room. One that is
    /// larger than the whole ring is counted and not kept.
    pub fn append(&mut self, record: &Vec<u8>) -> (kept: bool)
        requires
            old(self).wf(),
            record@.len() <= old(self)@.capacity ==> whole(record@),
        ensures
            final(self).wf(),
            kept == (record@.len() <= old(self)@.capacity),
            final(self)@ == appended(old(self)@, record@),
    {
        if record.len() > self.bytes.len() {
            if self.dropped < u64::MAX {
                self.dropped = self.dropped + 1;
            }
            proof {
                assert(self.contents() =~= old(self).contents());
            }
            return false;
        }
        let ghost start = self@;
        let need: usize = record.len();
        while self.bytes.len() - self.used < need
            invariant
                self.wf(),
                need == record@.len(),
                need <= self.bytes@.len(),
                self@.capacity == start.capacity,
                roomy(self@, need as nat) == roomy(start, need as nat),
            decreases self@.records.len(),
        {
            proof {
                lemma_split_total(self.contents());
            }
            self.evict_oldest();
        }
        proof {
            lemma_split_total(self.contents());
            assert(roomy(self@, need as nat) == self@);
        }
        let ghost s = self.contents();
        self.write_tail(record);
        proof {
            lemma_split_push(s, record@);
            lemma_split_total(s + record@);
        }
        self.records = self.records + 1;
        proof {
            assert(self.contents() =~= s + record@);
            assert(self@ == appended(start, record@));
        }
        true
    }

    /// The records, oldest first.
    pub fn record_vecs(&self) -> (out: Vec<Vec<u8>>)
        requires
            self.wf(),
        ensures
            byte_seqs(out@) == self@.records,
    {
        let ghost all = self.contents();
        let ghost cap = self.bytes@.len() as int;
        let mut out: Vec<Vec<u8>> = Vec::new();
        let mut at: usize = self.head;
        let mut left: usize = self.used;
        proof {
            assert(byte_seqs(out@) + split(all) =~= split(all));
        }
        while left > 0
            invariant
                cap == self.bytes@.len(),
                left <= cap,
                left > 0 ==> at < cap,
                framed(unrolled(self.bytes@, at as int, left as int)),
                byte_seqs(out@) + split(unrolled(self.bytes@, at as int, left as int)) == split(
                    all,
                ),
            decreases left,
        {
            let ghost s = unrolled(self.bytes@, at as int, left as int);
            let n: usize = self.length_at(at, left);
            let record = self.bytes_at(at, n);
            let ghost before = byte_seqs(out@);
            let ghost from = at as int;
            out.push(record);
            let next: usize = self.step(at, n);
            at = if next == self.bytes.len() {
                0
            } else {
                next
            };
            left = left - n;
            proof {
                let rest = s.subrange(n as int, s.len() as int);
                let t = unrolled(self.bytes@, at as int, left as int);
                assert forall|i: int| 0 <= i < t.len() implies t[i] == rest[i] by {
                    assert(wrap(at as int, i, cap) == wrap(from, n + i, cap));
                }
                assert(t =~= rest);
                assert(record@ =~= s.subrange(0, n as int));
                assert(byte_seqs(out@) =~= before.push(record@));
                assert(before + split(s) =~= byte_seqs(out@) + split(t));
            }
        }
        proof {
            assert(split(unrolled(self.bytes@, at as int, left as int)) =~= Seq::empty());
            assert(byte_seqs(out@) + Seq::<Seq<u8>>::empty() =~= byte_seqs(out@));
        }
        out
    }

    /// Changes the size; the newest records are kept as far as they fit.
    pub fn resize(&mut self, capacity: usize)
        requires
            old(self).wf(),
        ensures
            final(self).wf(),
            final(self)@ == resized(old(self)@, capacity as nat),
    {
        if capacity == self.bytes.len() {
            return;
        }
        let ghost v = self@;
        let records = self.record_vecs();
        proof {
            self.lemma_holds();
        }
        let mut next = Ring::new(capacity);
        next.dropped = self.dropped;
        let ghost empty = next@;
        proof {
            assert(next.contents() =~= Seq::empty());
            assert(empty == (RingView {
                capacity: capacity as nat,
                records: Seq::empty(),
                dropped: v.dropped,
            }));
            assert(v.records.take(0) =~= Seq::empty());
        }
        let mut i: usize = 0;
        while i < records.len()
            invariant
                i <= records@.len(),
                byte_seqs(records@) == v.records,
                forall|j: int| 0 <= j < v.records.len() ==> whole(#[trigger] v.records[j]),
                next.wf(),
                next@ == all_appended(empty, v.records.take(i as int)),
            decreases records@.len() - i,
        {
            proof {
                assert(v.records.take(i + 1).drop_last() =~= v.records.take(i as int));
                assert(v.records.take(i + 1).last() == v.records[i as int]);
                assert(records@[i as int]@ == v.records[i as int]);
            }
            let _kept: bool = next.append(&records[i]);
            i = i + 1;
        }
        proof {
            assert(v.records.take(v.records.len() as int) =~= v.records);
        }
        *self = next;
    }
}

/// What stays when room is made is the newest records, all in order, and no
/// more were pushed out than had to be.
pub proof fn law_oldest_go_first(v: RingView, need: nat)
    requires
        need <= v.capacity,
    ensures
        ({
            let r = roomy(v, need);
            &&& r.records.len() <= v.records.len()
            &&& r.records == v.records.subrange(
                v.records.len() - r.records.len(),
                v.records.len() as int,
            )
            &&& total(r.records) + need <= v.capacity
            &&& r.capacity == v.capacity
            &&& r.records.len() < v.records.len() ==> total(
                v.records.subrange(
                    v.records.len() - r.records.len() - 1,
                    v.records.len() as int,
                ),
            ) + need > v.capacity
        }),
    decreases v.records.len(),
{
    if v.records.len() == 0 || total(v.records) + need <= v.capacity {
        assert(v.records.subrange(0, v.records.len() as int) =~= v.records);
    } else {
        let rest = v.records.subrange(1, v.records.len() as int);
        let w = RingView { records: rest, dropped: counted(v.dropped), ..v };
        law_oldest_go_first(w, need);
        let r = roomy(v, need);
        assert(r.records =~= v.records.subrange(
            v.records.len() - r.records.len(),
            v.records.len() as int,
        ));
        if r.records.len() < rest.len() {
            assert(rest.subrange(rest.len() - r.records.len() - 1, rest.len() as int)
                =~= v.records.subrange(
                v.records.len() - r.records.len() - 1,
                v.records.len() as int,
            ));
        } else {
            assert(v.records.subrange(0, v.records.len() as int) =~= v.records);
        }
    }
}

/// A record that fits is the newest one afterwards, and what does not fit leaves
/// the others as they are.
pub proof fn law_appended_is_newest(v: RingView, record: Seq<u8>)
    ensures
        record.len() <= v.capacity ==> appended(v, record).records.len() > 0 && appended(
            v,
            record,
        ).records.last() == record,
        record.len() > v.capacity ==> appended(v, record).records == v.records && appended(
            v,
            record,
        ).dropped == counted(v.dropped),
{
}

} // verus!
