//! The entries of the store, and what a put does to them.

use vstd::prelude::*;
use vstd::utf8::encode_utf8;

use crate::bytes::{
    byte_seqs, clone_bytes, copy_range, gathered, law_le_round_trip, le64, lemma_byte_range_values,
    lemma_le_bytes_len, push_bytes, push_u64, read_u64, u64_at,
};
use crate::text::{begins_with, starts_with};
use crate::text_map::{row_added, row_dropped, row_replaced, TextMap};

verus! {

/// Snapshots go out in pieces of about this many bytes.
pub const SNAPSHOT_CHUNK: usize = 0x20_0000;

/// The bytes before the value in a stored row.
pub const ROW_HEADER: usize = 8;

/// One value.
pub struct Entry {
    pub value: Vec<u8>,
    pub hash: u128,
    pub mtime_ns: u64,
}

/// How much the store may hold.
#[derive(Clone, Copy)]
pub struct Budgets {
    pub value_max: u64,
    pub total_max: u64,
    pub max_entries: u64,
    pub max_subs: u64,
    pub max_inflight: u64,
    pub unacked_max: u64,
}

/// One put.
pub struct PutRequest {
    pub key: String,
    pub value: Vec<u8>,
    /// The hash that the entry must have; none stands for no entry.
    pub base: u128,
    pub delete: bool,
    pub no_cas: bool,
    pub durable: bool,
}

/// What became of a put.
#[derive(Clone, Copy, Debug, PartialEq, Eq, Structural)]
pub enum PutResult {
    /// The entry has another hash.
    Conflict { current: u128 },
    /// There was nothing to delete.
    AlreadyAbsent,
    Deleted,
    TooManyEntries,
    TooManyBytes,
    Stored { hash: u128, mtime_ns: u64 },
}

/// The entries and what they weigh.
pub struct Entries {
    pub map: TextMap<Entry>,
    pub total_bytes: u64,
}

/// What an entry weighs: its key's bytes and its value's.
pub open spec fn weight(key: Seq<char>, value: Seq<u8>) -> nat {
    encode_utf8(key).len() + value.len()
}

/// What entries weigh together.
pub open spec fn tally(rows: Seq<(String, Entry)>) -> nat
    decreases rows.len(),
{
    if rows.len() == 0 {
        0
    } else {
        tally(rows.drop_last()) + weight(rows.last().0@, rows.last().1.value@)
    }
}

/// The hash of the entry; none stands for no entry.
pub open spec fn current_hash(entries: Map<Seq<char>, Entry>, key: Seq<char>) -> u128 {
    if entries.dom().contains(key) {
        entries[key].hash
    } else {
        0
    }
}

/// What the entry of a key weighs.
pub open spec fn weight_of(entries: Map<Seq<char>, Entry>, key: Seq<char>) -> nat {
    if entries.dom().contains(key) {
        weight(key, entries[key].value@)
    } else {
        0
    }
}

/// What becomes of a put: it conflicts unless the entry has the hash that it
/// names, and a new value has to fit.
pub open spec fn put_result(
    entries: Map<Seq<char>, Entry>,
    count: nat,
    total: nat,
    put: PutRequest,
    hash: u128,
    mtime_ns: u64,
    budgets: Budgets,
) -> PutResult {
    let key = put.key@;
    let held = entries.dom().contains(key);
    if !put.no_cas && put.base != current_hash(entries, key) {
        PutResult::Conflict { current: current_hash(entries, key) }
    } else if put.delete {
        if held {
            PutResult::Deleted
        } else {
            PutResult::AlreadyAbsent
        }
    } else if !held && count >= budgets.max_entries {
        PutResult::TooManyEntries
    } else if total - weight_of(entries, key) + weight(key, put.value@) > budgets.total_max {
        PutResult::TooManyBytes
    } else {
        PutResult::Stored { hash, mtime_ns }
    }
}

/// The entries after a put.
pub open spec fn after_put(
    entries: Map<Seq<char>, Entry>,
    put: PutRequest,
    result: PutResult,
) -> Map<Seq<char>, Entry> {
    match result {
        PutResult::Deleted => entries.remove(put.key@),
        PutResult::Stored { hash, mtime_ns } => entries.insert(
            put.key@,
            Entry { value: put.value, hash, mtime_ns },
        ),
        _ => entries,
    }
}

/// Whether a put came to `r`: what became of the entries, of what they weigh and
/// of their number.
pub open spec fn put_applied(
    before: Entries,
    after: Entries,
    put: PutRequest,
    hash: u128,
    mtime_ns: u64,
    budgets: Budgets,
    r: PutResult,
) -> bool {
    let held = before.map@.dom().contains(put.key@);
    let count = before.map.spec_rows().len();
    let rest = before.total_bytes - weight_of(before.map@, put.key@);
    &&& r == put_result(
        before.map@,
        count,
        before.total_bytes as nat,
        put,
        hash,
        mtime_ns,
        budgets,
    )
    &&& after.map@ == after_put(before.map@, put, r)
    &&& match r {
        PutResult::Stored { .. } => {
            &&& after.total_bytes == rest + weight(put.key@, put.value@)
            &&& after.map.spec_rows().len() == (if held {
                count
            } else {
                count + 1
            })
        },
        PutResult::Deleted => {
            &&& after.total_bytes == rest
            &&& after.map.spec_rows().len() == count - 1
        },
        _ => after == before,
    }
}

proof fn lemma_tally_insert(rows: Seq<(String, Entry)>, at: int, row: (String, Entry))
    requires
        0 <= at <= rows.len(),
    ensures
        tally(rows.insert(at, row)) == tally(rows) + weight(row.0@, row.1.value@),
    decreases rows.len(),
{
    let after = rows.insert(at, row);
    if at == rows.len() {
        assert(after.drop_last() =~= rows);
        assert(after.last() == row);
    } else {
        assert(after.last() == rows.last());
        assert(after.drop_last() =~= rows.drop_last().insert(at, row));
        lemma_tally_insert(rows.drop_last(), at, row);
    }
}

proof fn lemma_tally_remove(rows: Seq<(String, Entry)>, at: int)
    requires
        0 <= at < rows.len(),
    ensures
        tally(rows) == tally(rows.remove(at)) + weight(rows[at].0@, rows[at].1.value@),
{
    lemma_tally_insert(rows.remove(at), at, rows[at]);
    assert(rows.remove(at).insert(at, rows[at]) =~= rows);
}

proof fn lemma_tally_update(rows: Seq<(String, Entry)>, at: int, row: (String, Entry))
    requires
        0 <= at < rows.len(),
    ensures
        tally(rows.update(at, row)) + weight(rows[at].0@, rows[at].1.value@) == tally(rows)
            + weight(row.0@, row.1.value@),
{
    let after = rows.update(at, row);
    lemma_tally_remove(rows, at);
    lemma_tally_remove(after, at);
    assert(after.remove(at) =~= rows.remove(at));
}

/// The weight of one entry is part of the whole.
proof fn lemma_tally_holds(map: TextMap<Entry>, key: Seq<char>)
    requires
        map.wf(),
    ensures
        weight_of(map@, key) <= tally(map.spec_rows()),
{
    if map@.dom().contains(key) {
        let rows = map.spec_rows();
        map.lemma_rows();
        let at = crate::text_map::key_row(rows, key);
        crate::text_map::lemma_key_row(rows, at);
        lemma_tally_remove(rows, at);
    }
}

fn text_bytes(s: &str) -> (n: usize)
    ensures
        n == encode_utf8(s@).len(),
{
    s.as_bytes().len()
}

impl Entries {
    /// The entries are in order, and their weight is known.
    pub open spec fn wf(self) -> bool {
        &&& self.map.wf()
        &&& self.total_bytes as nat == tally(self.map.spec_rows())
    }

    pub fn new() -> (s: Entries)
        ensures
            s.wf(),
            s.map@ == Map::<Seq<char>, Entry>::empty(),
            s.total_bytes == 0,
    {
        Entries { map: TextMap::new(), total_bytes: 0 }
    }

    /// What the store would weigh with one entry set.
    fn weight_with(&self, key: &str, value: &Vec<u8>) -> (r: Option<u64>)
        requires
            self.wf(),
        ensures
            match r {
                Some(n) => n as int == self.total_bytes - weight_of(self.map@, key@) + weight(
                    key@,
                    value@,
                ),
                None => self.total_bytes - weight_of(self.map@, key@) + weight(key@, value@)
                    > u64::MAX,
            },
    {
        proof {
            lemma_tally_holds(self.map, key@);
        }
        let keyed: u64 = text_bytes(key) as u64;
        let rest: u64 = match self.map.get(key) {
            Some(e) => self.total_bytes - keyed - e.value.len() as u64,
            None => self.total_bytes,
        };
        match rest.checked_add(keyed) {
            Some(n) => n.checked_add(value.len() as u64),
            None => None,
        }
    }

    /// Sets one entry, whose weight with the others was found to fit.
    fn store(&mut self, key: String, e: Entry, total: u64)
        requires
            old(self).wf(),
            total as int == old(self).total_bytes - weight_of(old(self).map@, key@) + weight(
                key@,
                e.value@,
            ),
        ensures
            final(self).wf(),
            final(self).map@ == old(self).map@.insert(key@, e),
            final(self).total_bytes == total,
            final(self).map.spec_rows().len() == old(self).map.spec_rows().len() + (if old(
                self,
            ).map@.dom().contains(key@) {
                0int
            } else {
                1
            }),
    {
        let ghost before = self.map.spec_rows();
        let ghost old_map = self.map@;
        let ghost k = key;
        let ghost new = e;
        let replaced = self.map.insert(key, e);
        proof {
            let after = self.map.spec_rows();
            match replaced {
                Some(o) => {
                    assert(row_replaced(before, after, k@, new));
                    let at = choose|at: int|
                        0 <= at < before.len() && (#[trigger] before[at]).0@ == k@ && after
                            == before.update(at, (before[at].0, new));
                    old(self).map.lemma_rows();
                    crate::text_map::lemma_key_row(before, at);
                    lemma_tally_update(before, at, (before[at].0, new));
                },
                None => {
                    assert(row_added(before, after, (k, new)));
                    let at = choose|at: int|
                        0 <= at <= before.len() && after == #[trigger] before.insert(at, (k, new));
                    lemma_tally_insert(before, at, (k, new));
                },
            }
        }
        self.total_bytes = total;
    }

    /// One row from the disk. A row too short for its header is passed over.
    pub fn load(&mut self, key: String, raw: &Vec<u8>, hash: u128)
        requires
            old(self).wf(),
            old(self).total_bytes + weight(key@, raw@) <= u64::MAX,
        ensures
            final(self).wf(),
            match row_parts(raw@) {
                None => *final(self) == *old(self),
                Some((mtime_ns, value)) => exists|e: Entry|
                    e.value@ == value && e.hash == hash && e.mtime_ns == mtime_ns
                        && final(self).map@ == #[trigger] old(self).map@.insert(key@, e),
            },
    {
        match parse_row(raw) {
            None => {},
            Some((mtime_ns, value)) => {
                let total = self.weight_with(key.as_str(), &value);
                match total {
                    Some(total) => {
                        let ghost e = Entry { value, hash, mtime_ns };
                        self.store(key, Entry { value, hash, mtime_ns }, total);
                        proof {
                            assert(e.value@ == (row_parts(raw@)->0).1);
                        }
                    },
                    None => {
                        proof {
                            assert(weight(key@, value@) <= weight(key@, raw@));
                        }
                    },
                }
            },
        }
    }

    /// Puts or deletes one entry, if its hash is the one that the put names and
    /// what is put fits.
    pub fn apply_put(
        &mut self,
        put: PutRequest,
        hash: u128,
        mtime_ns: u64,
        budgets: &Budgets,
    ) -> (r: PutResult)
        requires
            old(self).wf(),
        ensures
            final(self).wf(),
            put_applied(*old(self), *final(self), put, hash, mtime_ns, *budgets, r),
    {
        let (current, held): (u128, bool) = match self.map.get(put.key.as_str()) {
            Some(e) => (e.hash, true),
            None => (0, false),
        };
        if !put.no_cas && put.base != current {
            return PutResult::Conflict { current };
        }
        if put.delete {
            return if self.delete(put.key.as_str()) {
                PutResult::Deleted
            } else {
                PutResult::AlreadyAbsent
            };
        }
        if !held && self.map.len() as u64 >= budgets.max_entries {
            return PutResult::TooManyEntries;
        }
        let total = self.weight_with(put.key.as_str(), &put.value);
        let total: u64 = match total {
            Some(n) => n,
            None => {
                return PutResult::TooManyBytes;
            },
        };
        if total > budgets.total_max {
            return PutResult::TooManyBytes;
        }
        self.store(put.key, Entry { value: put.value, hash, mtime_ns }, total);
        PutResult::Stored { hash, mtime_ns }
    }

    fn delete(&mut self, key: &str) -> (held: bool)
        requires
            old(self).wf(),
        ensures
            final(self).wf(),
            held == old(self).map@.dom().contains(key@),
            final(self).map@ == old(self).map@.remove(key@),
            !held ==> *final(self) == *old(self),
            final(self).total_bytes == old(self).total_bytes - weight_of(old(self).map@, key@),
            held ==> final(self).map.spec_rows().len() == old(self).map.spec_rows().len() - 1,
    {
        let ghost before = self.map.spec_rows();
        proof {
            lemma_tally_holds(self.map, key@);
        }
        match self.map.remove(key) {
            Some(gone) => {
                proof {
                    let after = self.map.spec_rows();
                    assert(row_dropped(before, after, key@));
                    let at = choose|at: int|
                        0 <= at < before.len() && (#[trigger] before[at]).0@ == key@ && after
                            == before.remove(at);
                    old(self).map.lemma_rows();
                    crate::text_map::lemma_key_row(before, at);
                    lemma_tally_remove(before, at);
                }
                let keyed: u64 = text_bytes(key) as u64;
                self.total_bytes = self.total_bytes - keyed - gone.value.len() as u64;
                true
            },
            None => {
                proof {
                    assert(old(self).map@.remove(key@) =~= old(self).map@);
                }
                false
            },
        }
    }

    /// The length of the value of a key.
    pub fn size_of(&self, key: &str) -> (r: Option<usize>)
        requires
            self.wf(),
        ensures
            r == sized(self.map@, key@),
    {
        match self.map.get(key) {
            Some(e) => Some(e.value.len()),
            None => None,
        }
    }

    /// The hash and the value of a key.
    pub fn fetch(&self, key: &str) -> (r: Option<(u128, Vec<u8>)>)
        requires
            self.wf(),
        ensures
            match r {
                Some((hash, value)) => self.map@.dom().contains(key@) && hash
                    == self.map@[key@].hash && value@ == self.map@[key@].value@,
                None => !self.map@.dom().contains(key@),
            },
    {
        match self.map.get(key) {
            Some(e) => Some((e.hash, clone_bytes(&e.value))),
            None => None,
        }
    }

    /// The entries under a prefix, in the order of their keys.
    pub fn matching(&self, prefix: &str, limit: u64) -> (out: Vec<SnapshotRow>)
        requires
            self.wf(),
        ensures
            snapshot_views(out@) == snapshot_rows(self.map.spec_rows(), prefix@, limit),
    {
        let mut out: Vec<SnapshotRow> = Vec::new();
        let ghost rows = self.map.spec_rows();
        let total: usize = self.map.len();
        let mut i: usize = 0;
        proof {
            assert(rows.take(0) =~= Seq::empty());
            assert(snapshot_views(out@) =~= Seq::empty());
        }
        while i < total
            invariant
                i <= total,
                total == rows.len(),
                rows == self.map.spec_rows(),
                snapshot_views(out@) == snapshot_rows(rows.take(i as int), prefix@, limit),
            decreases total - i,
        {
            proof {
                assert(rows.take(i + 1).drop_last() =~= rows.take(i as int));
                assert(rows.take(i + 1).last() == rows[i as int]);
            }
            let key = self.map.key_at(i);
            if starts_with(key, prefix) {
                let e = self.map.value_at(i);
                let value = if e.value.len() as u64 <= limit {
                    Some(clone_bytes(&e.value))
                } else {
                    None
                };
                let ghost before = snapshot_views(out@);
                out.push(
                    SnapshotRow {
                        key: key.to_string(),
                        hash: e.hash,
                        size: e.value.len(),
                        mtime_ns: e.mtime_ns,
                        value,
                    },
                );
                proof {
                    let ghost w = snapshot_row(rows[i as int], limit);
                    assert(out@.last()@.value == w.value);
                    assert(snapshot_views(out@) =~= before.push(w));
                }
            }
            i = i + 1;
        }
        proof {
            assert(rows.take(total as int) =~= rows);
        }
        out
    }
}

/// The length of the value of a key.
pub open spec fn sized(entries: Map<Seq<char>, Entry>, key: Seq<char>) -> Option<usize> {
    if entries.dom().contains(key) {
        Some(entries[key].value@.len() as usize)
    } else {
        None
    }
}

/// One entry of a snapshot; a value over the limit stays out.
pub struct SnapshotRow {
    pub key: String,
    pub hash: u128,
    pub size: usize,
    pub mtime_ns: u64,
    pub value: Option<Vec<u8>>,
}

/// What a [`SnapshotRow`] says.
pub ghost struct SnapshotRowView {
    pub key: Seq<char>,
    pub hash: u128,
    pub size: usize,
    pub mtime_ns: u64,
    pub value: Option<Seq<u8>>,
}

impl View for SnapshotRow {
    type V = SnapshotRowView;

    open spec fn view(&self) -> SnapshotRowView {
        SnapshotRowView {
            key: self.key@,
            hash: self.hash,
            size: self.size,
            mtime_ns: self.mtime_ns,
            value: match self.value {
                Some(v) => Some(v@),
                None => None,
            },
        }
    }
}

pub open spec fn snapshot_views(v: Seq<SnapshotRow>) -> Seq<SnapshotRowView> {
    Seq::new(v.len(), |i: int| v[i]@)
}

pub open spec fn snapshot_row(row: (String, Entry), limit: u64) -> SnapshotRowView {
    SnapshotRowView {
        key: row.0@,
        hash: row.1.hash,
        size: row.1.value@.len() as usize,
        mtime_ns: row.1.mtime_ns,
        value: if row.1.value@.len() <= limit {
            Some(row.1.value@)
        } else {
            None
        },
    }
}

/// The entries under a prefix.
pub open spec fn snapshot_rows(
    rows: Seq<(String, Entry)>,
    prefix: Seq<char>,
    limit: u64,
) -> Seq<SnapshotRowView>
    decreases rows.len(),
{
    if rows.len() == 0 {
        Seq::empty()
    } else {
        let rest = snapshot_rows(rows.drop_last(), prefix, limit);
        if begins_with(rows.last().0@, prefix) {
            rest.push(snapshot_row(rows.last(), limit))
        } else {
            rest
        }
    }
}

/// The pieces of a snapshot that are full, and the one that is not.
pub open spec fn chunked(records: Seq<Seq<u8>>) -> (Seq<Seq<u8>>, Seq<u8>)
    decreases records.len(),
{
    if records.len() == 0 {
        (Seq::empty(), Seq::empty())
    } else {
        let (full, open) = chunked(records.drop_last());
        let open = open + records.last();
        if open.len() >= SNAPSHOT_CHUNK {
            (full.push(open), Seq::empty())
        } else {
            (full, open)
        }
    }
}

/// Gathers records into pieces. The last piece, which may be empty, ends the
/// snapshot.
pub fn chunk_records(records: &Vec<Vec<u8>>) -> (out: Vec<Vec<u8>>)
    ensures
        byte_seqs(out@) == chunked(byte_seqs(records@)).0.push(chunked(byte_seqs(records@)).1),
{
    let ghost all = byte_seqs(records@);
    let mut out: Vec<Vec<u8>> = Vec::new();
    let mut open: Vec<u8> = Vec::new();
    let mut i: usize = 0;
    let total: usize = records.len();
    proof {
        assert(all.take(0) =~= Seq::empty());
        assert(byte_seqs(out@) =~= Seq::empty());
        assert(open@ =~= Seq::empty());
    }
    while i < total
        invariant
            i <= total,
            total == records@.len(),
            all == byte_seqs(records@),
            byte_seqs(out@) == chunked(all.take(i as int)).0,
            open@ == chunked(all.take(i as int)).1,
        decreases total - i,
    {
        proof {
            assert(all.take(i + 1).drop_last() =~= all.take(i as int));
            assert(all.take(i + 1).last() == all[i as int]);
        }
        push_bytes(&mut open, records[i].as_slice());
        if open.len() >= SNAPSHOT_CHUNK {
            let ghost before = byte_seqs(out@);
            let ghost piece = open@;
            let mut next: Vec<u8> = Vec::new();
            std::mem::swap(&mut open, &mut next);
            out.push(next);
            proof {
                assert(byte_seqs(out@) =~= before.push(piece));
                assert(open@ =~= Seq::empty());
            }
        }
        i = i + 1;
    }
    let ghost before = byte_seqs(out@);
    let ghost piece = open@;
    out.push(open);
    proof {
        assert(all.take(total as int) =~= all);
        assert(byte_seqs(out@) =~= before.push(piece));
    }
    out
}

/// Gathers the records of a snapshot into the messages that carry it. With each
/// goes whether it ends the snapshot: the last one does, and only that one.
pub fn snapshot_pieces(records: &Vec<Vec<u8>>) -> (out: Vec<(bool, Vec<u8>)>)
    ensures
        piece_views(out@) == marked(
            chunked(byte_seqs(records@)).0.push(chunked(byte_seqs(records@)).1),
        ),
{
    let pieces = chunk_records(records);
    let ghost all = byte_seqs(pieces@);
    let n: usize = pieces.len();
    proof {
        assert(all.len() == n);
    }
    let mut out: Vec<(bool, Vec<u8>)> = Vec::new();
    let mut i: usize = 0;
    while i < n
        invariant
            i <= n,
            n == pieces@.len(),
            n > 0,
            all == byte_seqs(pieces@),
            piece_views(out@) == marked(all).take(i as int),
        decreases n - i,
    {
        let ghost before = out@;
        out.push((i == n - 1, clone_bytes(&pieces[i])));
        proof {
            assert(piece_views(out@) =~= piece_views(before).push(marked(all)[i as int]));
            assert(marked(all).take(i + 1) =~= marked(all).take(i as int).push(
                marked(all)[i as int],
            ));
        }
        i = i + 1;
    }
    proof {
        assert(marked(all).take(n as int) =~= marked(all));
    }
    out
}

pub open spec fn piece_views(v: Seq<(bool, Vec<u8>)>) -> Seq<(bool, Seq<u8>)> {
    Seq::new(v.len(), |i: int| (v[i].0, v[i].1@))
}

/// Pieces, each with whether it is the last.
pub open spec fn marked(pieces: Seq<Seq<u8>>) -> Seq<(bool, Seq<u8>)> {
    Seq::new(pieces.len(), |i: int| (i == pieces.len() - 1, pieces[i]))
}

/// A stored row: the time, then the value.
pub open spec fn row_bytes(mtime_ns: u64, value: Seq<u8>) -> Seq<u8> {
    le64(mtime_ns) + value
}

/// The time and the value of a stored row.
pub open spec fn row_parts(raw: Seq<u8>) -> Option<(u64, Seq<u8>)> {
    if raw.len() < ROW_HEADER {
        None
    } else {
        Some((u64_at(raw, 0), raw.subrange(8, raw.len() as int)))
    }
}

pub fn encode_row(mtime_ns: u64, value: &Vec<u8>) -> (raw: Vec<u8>)
    ensures
        raw@ == row_bytes(mtime_ns, value@),
{
    let mut raw: Vec<u8> = Vec::new();
    push_u64(&mut raw, mtime_ns);
    push_bytes(&mut raw, value.as_slice());
    proof {
        assert(raw@ =~= row_bytes(mtime_ns, value@));
    }
    raw
}

pub fn parse_row(raw: &Vec<u8>) -> (r: Option<(u64, Vec<u8>)>)
    ensures
        match r {
            Some((mtime_ns, value)) => row_parts(raw@) == Some((mtime_ns, value@)),
            None => row_parts(raw@) is None,
        },
{
    if raw.len() < ROW_HEADER {
        return None;
    }
    let mtime_ns: u64 = read_u64(raw.as_slice(), 0);
    let value = copy_range(raw.as_slice(), 8, raw.len());
    Some((mtime_ns, value))
}

/// What is read back of a row is what was written.
pub proof fn law_row_round_trip(mtime_ns: u64, value: Seq<u8>)
    ensures
        row_parts(row_bytes(mtime_ns, value)) == Some((mtime_ns, value)),
{
    let raw = row_bytes(mtime_ns, value);
    lemma_le_bytes_len(mtime_ns as nat, 8);
    lemma_byte_range_values();
    law_le_round_trip(mtime_ns as nat, 8);
    assert(raw.subrange(0, 8) =~= le64(mtime_ns));
    assert(raw.subrange(8, raw.len() as int) =~= value);
}

/// A fetch gives back what the last put wrote, and nothing after a delete; the
/// other keys keep what they had.
pub proof fn law_fetch_gives_back(
    entries: Map<Seq<char>, Entry>,
    put: PutRequest,
    result: PutResult,
    other: Seq<char>,
)
    ensures
        result matches PutResult::Stored { hash, mtime_ns } ==> {
            let after = after_put(entries, put, result);
            after.dom().contains(put.key@) && after[put.key@].value == put.value
                && after[put.key@].hash == hash && after[put.key@].mtime_ns == mtime_ns
        },
        result is Deleted ==> !after_put(entries, put, result).dom().contains(put.key@),
        other != put.key@ ==> after_put(entries, put, result).dom().contains(other)
            == entries.dom().contains(other) && (entries.dom().contains(other) ==> after_put(
            entries,
            put,
            result,
        )[other] == entries[other]),
{
}

/// One put as it comes to the store: with the hash of its value, and the time.
pub ghost struct PutEvent {
    pub put: PutRequest,
    pub hash: u128,
    pub mtime_ns: u64,
}

/// Whether `states` are the stores before, between and after puts, which came to
/// `results`.
pub open spec fn puts_applied(
    states: Seq<Entries>,
    puts: Seq<PutEvent>,
    results: Seq<PutResult>,
    budgets: Budgets,
) -> bool {
    &&& states.len() == puts.len() + 1
    &&& results.len() == puts.len()
    &&& forall|i: int|
        #![trigger puts[i]]
        0 <= i < puts.len() && states[i].wf() ==> states[i + 1].wf() && put_applied(
            states[i],
            states[i + 1],
            puts[i].put,
            puts[i].hash,
            puts[i].mtime_ns,
            budgets,
            results[i],
        )
}

/// Whether every entry has the hash of its value.
pub open spec fn hashed(entries: Map<Seq<char>, Entry>, hash: spec_fn(Seq<u8>) -> u128) -> bool {
    forall|key: Seq<char>| #[trigger]
        entries.dom().contains(key) ==> entries[key].hash == hash(entries[key].value@)
}

/// Whatever puts follow each other, the store's weight is that of its entries
/// after each of them, a put that was stored leaves it within its budgets, and
/// every entry has the hash of its value where every put came with it.
pub proof fn law_store_keeps_its_books(
    states: Seq<Entries>,
    puts: Seq<PutEvent>,
    results: Seq<PutResult>,
    budgets: Budgets,
    hash: spec_fn(Seq<u8>) -> u128,
    n: int,
)
    requires
        puts_applied(states, puts, results, budgets),
        states[0].wf(),
        hashed(states[0].map@, hash),
        forall|i: int|
            0 <= i < puts.len() ==> (#[trigger] puts[i]).hash == hash(puts[i].put.value@),
        0 <= n <= puts.len(),
    ensures
        states[n].wf(),
        states[n].total_bytes as nat == tally(states[n].map.spec_rows()),
        hashed(states[n].map@, hash),
        n > 0 && results[n - 1] is Stored ==> {
            &&& states[n].total_bytes <= budgets.total_max
            &&& !states[n - 1].map@.dom().contains(puts[n - 1].put.key@)
                ==> states[n].map.spec_rows().len() <= budgets.max_entries
        },
    decreases n,
{
    if n > 0 {
        law_store_keeps_its_books(states, puts, results, budgets, hash, n - 1);
        let p = puts[n - 1];
        assert(put_applied(
            states[n - 1],
            states[n],
            p.put,
            p.hash,
            p.mtime_ns,
            budgets,
            results[n - 1],
        ));
        assert forall|key: Seq<char>| #[trigger] states[n].map@.dom().contains(key) implies
            states[n].map@[key].hash == hash(states[n].map@[key].value@) by {
            if key != p.put.key@ || !(results[n - 1] is Stored) {
                assert(states[n - 1].map@.dom().contains(key));
            }
        }
    }
}

/// Exactly the last message of a snapshot carries the end mark, and there is
/// one.
pub proof fn law_snapshot_ends_once(records: Seq<Seq<u8>>, i: int)
    requires
        0 <= i < marked(chunked(records).0.push(chunked(records).1)).len(),
    ensures
        marked(chunked(records).0.push(chunked(records).1)).last().0,
        marked(chunked(records).0.push(chunked(records).1))[i].0 ==> i == marked(
            chunked(records).0.push(chunked(records).1),
        ).len() - 1,
{
}

/// A put that names another hash than the entry's changes nothing and is told
/// the entry's, and one that names the entry's never conflicts.
pub proof fn law_compare_and_set(
    entries: Map<Seq<char>, Entry>,
    count: nat,
    total: nat,
    put: PutRequest,
    hash: u128,
    mtime_ns: u64,
    budgets: Budgets,
)
    ensures
        ({
            let r = put_result(entries, count, total, put, hash, mtime_ns, budgets);
            &&& r is Conflict <==> !put.no_cas && put.base != current_hash(entries, put.key@)
            &&& r matches PutResult::Conflict { current } ==> current == current_hash(
                entries,
                put.key@,
            ) && after_put(entries, put, r) == entries
        }),
{
}

/// The pieces of a snapshot hold its records, in order and nothing else, and
/// every piece but the last is full.
pub proof fn law_chunks_hold_the_records(records: Seq<Seq<u8>>)
    ensures
        gathered(chunked(records).0) + chunked(records).1 == gathered(records),
        forall|i: int|
            0 <= i < chunked(records).0.len() ==> (#[trigger] chunked(records).0[i]).len()
                >= SNAPSHOT_CHUNK,
        chunked(records).1.len() < SNAPSHOT_CHUNK,
    decreases records.len(),
{
    if records.len() == 0 {
        assert(gathered(chunked(records).0) + chunked(records).1 =~= gathered(records));
    } else {
        law_chunks_hold_the_records(records.drop_last());
        let (full, open) = chunked(records.drop_last());
        let more = open + records.last();
        assert(gathered(full) + more =~= gathered(records.drop_last()) + records.last());
        if more.len() >= SNAPSHOT_CHUNK {
            assert(full.push(more).drop_last() =~= full);
            assert(gathered(full.push(more)) + Seq::<u8>::empty() =~= gathered(full) + more);
        }
    }
}

} // verus!
