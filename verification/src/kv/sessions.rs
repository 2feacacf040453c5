//! What one connection has open: its subscriptions by id, and its puts that
//! wait for the disk.

use rustc_hash::FxHashMap;
use vstd::prelude::*;

verus! {

/// The id that names no subscription.
pub const KV_ID_INVALID: u16 = 0xffff;

/// The hasher of the table of ids. Nothing is said of it but that a table made
/// with it is a map.
#[verifier::external_type_specification]
#[verifier::external_body]
pub struct ExFxBuildHasher(rustc_hash::FxBuildHasher);

/// Calls `FxHashMap::default`. It makes an empty table.
#[verifier::external_body]
fn empty_table() -> (m: FxHashMap<u16, u64>)
    ensures
        (m@ == Map::<u16, u64>::empty()),
{
    FxHashMap::default()
}

/// Calls `HashMap::len` on a table that hashes with `rustc_hash`. It counts
/// the ids.
#[verifier::external_body]
fn table_len(m: &FxHashMap<u16, u64>) -> (n: usize)
    ensures
        n == m@.dom().len(),
{
    m.len()
}

/// Calls `HashMap::get` on a table that hashes with `rustc_hash`. It finds what
/// was set under the id last, and nothing where nothing is.
#[verifier::external_body]
fn table_get(m: &FxHashMap<u16, u64>, id: u16) -> (r: Option<u64>)
    ensures
        r == (if m@.dom().contains(id) {
            Some(m@[id])
        } else {
            None
        }),
{
    m.get(&id).copied()
}

/// Calls `HashMap::insert` on a table that hashes with `rustc_hash`. It sets
/// one id and leaves the others.
#[verifier::external_body]
fn table_set(m: &mut FxHashMap<u16, u64>, id: u16, v: u64)
    ensures
        final(m)@ == old(m)@.insert(id, v),
{
    m.insert(id, v);
}

/// Calls `HashMap::remove` on a table that hashes with `rustc_hash`. It takes
/// one id away and leaves the others.
#[verifier::external_body]
fn table_remove(m: &mut FxHashMap<u16, u64>, id: u16)
    ensures
        final(m)@ == old(m)@.remove(id),
{
    m.remove(&id);
}

/// The subscriptions of one connection, each with its watch in the store, and
/// how many of its puts wait for the disk.
pub struct KvSubs {
    pub connection: u64,
    map: FxHashMap<u16, u64>,
    next_id: u16,
    pending_puts: usize,
}

/// What a [`KvSubs`] holds.
pub ghost struct SubsView {
    pub connection: u64,
    pub map: Map<u16, u64>,
    pub next_id: u16,
    pub pending_puts: usize,
}

/// The id `n` places after `from`; ids start again after the last.
pub open spec fn id_after(from: u16, n: int) -> u16 {
    ((from + n) % 0x1_0000) as u16
}

/// Whether an id can be given out.
pub open spec fn id_free(map: Map<u16, u64>, id: u16) -> bool {
    id != KV_ID_INVALID && !map.dom().contains(id)
}

/// Whether `n` places after `from` is the first id that can be given out.
pub open spec fn first_free(map: Map<u16, u64>, from: u16, n: int) -> bool {
    &&& 0 <= n < 0x1_0000
    &&& id_free(map, id_after(from, n))
    &&& forall|m: int| 0 <= m < n ==> !id_free(map, #[trigger] id_after(from, m))
}

impl KvSubs {
    pub closed spec fn view(self) -> SubsView {
        SubsView {
            connection: self.connection,
            map: self.map@,
            next_id: self.next_id,
            pending_puts: self.pending_puts,
        }
    }

    pub fn new(connection: u64) -> (s: KvSubs)
        ensures
            s@ == (SubsView { connection, map: Map::empty(), next_id: 0, pending_puts: 0 }),
    {
        KvSubs { connection, map: empty_table(), next_id: 0, pending_puts: 0 }
    }

    pub fn connection(&self) -> (c: u64)
        ensures
            c == self@.connection,
    {
        self.connection
    }

    pub fn len(&self) -> (n: usize)
        ensures
            n == self@.map.dom().len(),
    {
        table_len(&self.map)
    }

    pub fn pending_puts(&self) -> (n: usize)
        ensures
            n == self@.pending_puts,
    {
        self.pending_puts
    }

    /// The watch behind a subscription's id.
    pub fn get(&self, kv_id: u16) -> (r: Option<u64>)
        ensures
            r == (if self@.map.dom().contains(kv_id) {
                Some(self@.map[kv_id])
            } else {
                None
            }),
    {
        table_get(&self.map, kv_id)
    }

    pub fn set(&mut self, kv_id: u16, watch: u64)
        ensures
            final(self)@ == (SubsView {
                map: old(self)@.map.insert(kv_id, watch),
                ..old(self)@
            }),
    {
        table_set(&mut self.map, kv_id, watch);
    }

    pub fn remove(&mut self, kv_id: u16)
        ensures
            final(self)@ == (SubsView { map: old(self)@.map.remove(kv_id), ..old(self)@ }),
    {
        table_remove(&mut self.map, kv_id);
    }

    /// The next id in turn that is not in use. There is none exactly when every
    /// id but the one that names no subscription is in use.
    pub fn alloc_id(&mut self) -> (r: Option<u16>)
        ensures
            match r {
                Some(id) => exists|n: int|
                    first_free(old(self)@.map, old(self)@.next_id, n) && id == #[trigger] id_after(
                        old(self)@.next_id,
                        n,
                    ) && final(self)@ == (SubsView {
                        next_id: id_after(old(self)@.next_id, n + 1),
                        ..old(self)@
                    }),
                None => final(self)@ == old(self)@ && forall|id: u16|
                    !(#[trigger] id_free(old(self)@.map, id)),
            },
    {
        let ghost start = self.next_id;
        let mut tried: u32 = 0;
        while tried < 0x1_0000
            invariant
                tried <= 0x1_0000,
                self.next_id == id_after(start, tried as int),
                self@ == (SubsView { next_id: self.next_id, ..old(self)@ }),
                old(self)@.next_id == start,
                forall|m: int| 0 <= m < tried ==> !id_free(self@.map, #[trigger] id_after(start, m)),
            decreases 0x1_0000 - tried,
        {
            let id: u16 = self.next_id;
            self.next_id = self.next_id.wrapping_add(1);
            proof {
                lemma_id_next(start, tried as int);
            }
            if id != KV_ID_INVALID && table_get(&self.map, id).is_none() {
                proof {
                    assert(first_free(old(self)@.map, start, tried as int));
                }
                return Some(id);
            }
            tried = tried + 1;
        }
        proof {
            assert forall|id: u16| !(#[trigger] id_free(self@.map, id)) by {
                let m: int = if id >= start {
                    id - start
                } else {
                    0x1_0000 + id - start
                };
                assert(id_after(start, m) == id);
            }
        }
        None
    }

    /// One more put waits for the disk.
    pub fn put_deferred(&mut self)
        requires
            old(self)@.pending_puts < usize::MAX,
        ensures
            final(self)@ == (SubsView {
                pending_puts: (old(self)@.pending_puts + 1) as usize,
                ..old(self)@
            }),
    {
        self.pending_puts = self.pending_puts + 1;
    }

    /// One put no longer waits.
    pub fn put_settled(&mut self)
        requires
            old(self)@.pending_puts > 0,
        ensures
            final(self)@ == (SubsView {
                pending_puts: (old(self)@.pending_puts - 1) as usize,
                ..old(self)@
            }),
    {
        self.pending_puts = self.pending_puts - 1;
    }
}

proof fn lemma_id_next(from: u16, n: int)
    requires
        0 <= n,
    ensures
        id_after(from, n + 1) == (if id_after(from, n) == u16::MAX {
            0u16
        } else {
            (id_after(from, n) + 1) as u16
        }),
        id_after(from, 0) == from,
{
    let a = (from + n) % 0x1_0000;
    let b = (from + n + 1) % 0x1_0000;
    if a == 0xffff {
        assert(b == 0);
    } else {
        assert(b == a + 1);
    }
}

} // verus!
