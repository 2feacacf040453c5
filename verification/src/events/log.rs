//! The journal: what is recorded, what a dump of it holds, and what streams
//! get.

use vstd::prelude::*;

use crate::bytes::{byte_seqs, clone_bytes, gathered, le16, le64, push_bytes, push_u16, push_u64};
use crate::events::record::{
    encode_record, fitting, gap_bytes, gap_record, record_bytes, RecordHead,
};
use crate::events::ring::{appended, resized, total, Ring, RingView};
use crate::id_map::IdMap;
use crate::text::{parse_unsigned, same_text, text_view, unsigned_up_to};

verus! {

pub const DEFAULT_RING_SIZE: usize = 0x10_0000;

pub const MIN_RING_SIZE: usize = 0x1000;

/// A file that events go to from the start.
pub struct StartupFile {
    pub path: String,
    pub flags: u8,
}

/// The journal in numbers.
#[derive(Clone, Copy, Debug, PartialEq, Eq)]
pub struct EventStats {
    pub capacity: usize,
    pub used: usize,
    pub records: u64,
    pub dropped: u64,
    pub next_sequence: u64,
}

/// The bits of a stream to a file.
#[derive(Clone, Copy)]
pub struct StreamBits {
    pub history: u8,
    pub append: u8,
}

/// One stream to a file.
pub struct FileStream {
    pub path: String,
    pub flags: u8,
}

/// What is fixed at the head of a dump.
pub struct DumpFormat {
    pub magic: Vec<u8>,
    pub header_len: u16,
    pub version: u16,
}

/// The size of the ring as it was set, or its default where it is unset, no
/// number or out of range.
pub open spec fn set_ring_size(setting: Option<Seq<char>>, max: usize) -> usize {
    match setting {
        Some(s) => match unsigned_up_to(s, u64::MAX as nat) {
            Some(n) => if MIN_RING_SIZE <= n <= max {
                n as usize
            } else {
                DEFAULT_RING_SIZE
            },
            None => DEFAULT_RING_SIZE,
        },
        None => DEFAULT_RING_SIZE,
    }
}

pub fn ring_size(setting: &Option<String>, max: usize) -> (n: usize)
    ensures
        n == set_ring_size(text_view(*setting), max),
{
    match setting {
        Some(s) => match parse_unsigned(s.as_str(), u64::MAX) {
            Some(n) => if n >= MIN_RING_SIZE as u64 && n <= max as u64 {
                n as usize
            } else {
                DEFAULT_RING_SIZE
            },
            None => DEFAULT_RING_SIZE,
        },
        None => DEFAULT_RING_SIZE,
    }
}

/// The flags of the file that events go to from the start: what is in the ring
/// goes first unless that was switched off, and the file is emptied unless it
/// was asked to be added to.
pub open spec fn startup_flags(
    history: Option<Seq<char>>,
    append: Option<Seq<char>>,
    bits: StreamBits,
) -> u8 {
    let h = if history == Some("0"@) {
        0u8
    } else {
        bits.history
    };
    if append == Some("1"@) {
        h | bits.append
    } else {
        h
    }
}

fn says(setting: &Option<String>, word: &str) -> (r: bool)
    ensures
        r == (text_view(*setting) == Some(word@)),
{
    match setting {
        Some(s) => same_text(s.as_str(), word),
        None => false,
    }
}

/// The file that events go to from the start; there is none where no path or an
/// empty one was set.
pub fn startup_file(
    path: Option<String>,
    history: &Option<String>,
    append: &Option<String>,
    bits: &StreamBits,
) -> (r: Option<StartupFile>)
    ensures
        match r {
            Some(f) => path is Some && path->0@.len() > 0 && f.path == path->0 && f.flags
                == startup_flags(text_view(*history), text_view(*append), *bits),
            None => path is None || path->0@.len() == 0,
        },
{
    let path: String = match path {
        Some(p) => p,
        None => {
            return None;
        },
    };
    proof {
        reveal_strlit("");
        assert(""@ =~= Seq::<char>::empty());
        if path@.len() == 0 {
            assert(path@ =~= ""@);
        }
    }
    if same_text(path.as_str(), "") {
        return None;
    }
    let mut flags: u8 = if says(history, "0") {
        0
    } else {
        bits.history
    };
    if says(append, "1") {
        flags = flags | bits.append;
    }
    Some(StartupFile { path, flags })
}

/// The journal.
pub struct EventLog {
    pub activations: Vec<u64>,
    pub ring: Ring,
    pub next_sequence: u64,
    pub next_stream_id: u32,
    pub started_unix_ns: u64,
    pub streams: IdMap<FileStream>,
}

/// Whether a kind of event is recorded: its bit among the words.
pub open spec fn activated(words: Seq<u64>, kind: u16) -> bool {
    words[(kind / 64) as int] & (1u64 << ((kind % 64) as u64)) != 0
}

/// The number after `n`; numbers start again after the last.
pub open spec fn next_number(n: u64) -> u64 {
    if n == u64::MAX {
        0
    } else {
        (n + 1) as u64
    }
}

/// The id of the next stream; none is zero.
pub open spec fn stream_id(next: u32) -> u32 {
    if next == 0 {
        1
    } else {
        next
    }
}

/// The head of an event's record.
pub open spec fn event_head(log: EventLog, kind: u16, flags: u16, monotonic_ns: u64) -> RecordHead {
    RecordHead {
        kind,
        flags,
        sequence: log.next_sequence,
        monotonic_ns,
        unix_ns: if log.started_unix_ns + monotonic_ns > u64::MAX {
            u64::MAX
        } else {
            (log.started_unix_ns + monotonic_ns) as u64
        },
    }
}

/// The head of a dump.
pub open spec fn dump_head(
    f: DumpFormat,
    capacity: u64,
    used: u64,
    records: u64,
    dropped: u64,
    next_sequence: u64,
    activations: Seq<u8>,
) -> Seq<u8> {
    f.magic@ + le16(f.header_len) + le16(f.version) + le64(capacity) + le64(used) + le64(records)
        + le64(dropped) + le64(next_sequence) + activations
}

/// Everything that is in the journal.
pub open spec fn full_dump(log: EventLog, f: DumpFormat, activations: Seq<u8>) -> Seq<u8> {
    dump_head(
        f,
        log.ring@.capacity as u64,
        total(log.ring@.records) as u64,
        log.ring@.records.len() as u64,
        log.ring@.dropped,
        log.next_sequence,
        activations,
    ) + gathered(log.ring@.records)
}

/// The head alone, as though the ring were empty.
pub open spec fn empty_dump(log: EventLog, f: DumpFormat, activations: Seq<u8>) -> Seq<u8> {
    dump_head(
        f,
        log.ring@.capacity as u64,
        0,
        0,
        log.ring@.dropped,
        log.next_sequence,
        activations,
    )
}

fn write_head(
    f: &DumpFormat,
    capacity: u64,
    used: u64,
    records: u64,
    dropped: u64,
    next_sequence: u64,
    activations: &Vec<u8>,
) -> (out: Vec<u8>)
    ensures
        out@ == dump_head(*f, capacity, used, records, dropped, next_sequence, activations@),
{
    let mut out = clone_bytes(&f.magic);
    push_u16(&mut out, f.header_len);
    push_u16(&mut out, f.version);
    push_u64(&mut out, capacity);
    push_u64(&mut out, used);
    push_u64(&mut out, records);
    push_u64(&mut out, dropped);
    push_u64(&mut out, next_sequence);
    push_bytes(&mut out, activations.as_slice());
    out
}

impl EventLog {
    pub open spec fn wf(self) -> bool {
        &&& self.ring.wf()
        &&& self.streams.wf()
        &&& forall|k: u64| #[trigger] self.streams@.dom().contains(k) ==> k <= u32::MAX
    }

    pub fn new(size: usize, activations: Vec<u64>, started_unix_ns: u64) -> (log: EventLog)
        ensures
            log.wf(),
            log.ring@ == (RingView { capacity: size as nat, records: Seq::empty(), dropped: 0 }),
            log.activations == activations,
            log.next_sequence == 0,
            log.next_stream_id == 1,
            log.started_unix_ns == started_unix_ns,
            log.streams@ == Map::<u64, FileStream>::empty(),
    {
        EventLog {
            activations,
            ring: Ring::new(size),
            next_sequence: 0,
            next_stream_id: 1,
            started_unix_ns,
            streams: IdMap::new(),
        }
    }

    /// Whether a kind of event is recorded.
    pub fn enabled(&self, kind: u16) -> (r: bool)
        requires
            kind / 64 < self.activations@.len(),
        ensures
            r == activated(self.activations@, kind),
    {
        let bit: u64 = (kind % 64) as u64;
        self.activations[(kind / 64) as usize] & (1u64 << bit) != 0
    }

    /// Changes the size of the ring and which kinds of events are recorded.
    pub fn configure(&mut self, size: usize, activations: Vec<u64>, max: usize) -> (r: Result<
        EventStats,
        &'static str,
    >)
        requires
            old(self).wf(),
        ensures
            final(self).wf(),
            match r {
                Ok(stats) => {
                    &&& MIN_RING_SIZE <= size <= max
                    &&& final(self).ring@ == resized(old(self).ring@, size as nat)
                    &&& *final(self) == (EventLog {
                        ring: final(self).ring,
                        activations,
                        ..*old(self)
                    })
                    &&& stats == final(self).spec_stats()
                },
                Err(detail) => {
                    &&& !(MIN_RING_SIZE <= size <= max)
                    &&& detail@ == "ring size is outside the supported range"@
                    &&& *final(self) == *old(self)
                },
            },
    {
        if size < MIN_RING_SIZE || size > max {
            return Err("ring size is outside the supported range");
        }
        self.ring.resize(size);
        self.activations = activations;
        Ok(self.stats())
    }

    pub open spec fn spec_stats(self) -> EventStats {
        EventStats {
            capacity: self.ring@.capacity as usize,
            used: total(self.ring@.records) as usize,
            records: self.ring@.records.len() as u64,
            dropped: self.ring@.dropped,
            next_sequence: self.next_sequence,
        }
    }

    /// The journal in numbers.
    pub fn stats(&self) -> (s: EventStats)
        requires
            self.wf(),
        ensures
            s == self.spec_stats(),
    {
        EventStats {
            capacity: self.ring.capacity(),
            used: self.ring.used(),
            records: self.ring.records(),
            dropped: self.ring.dropped(),
            next_sequence: self.next_sequence,
        }
    }

    /// Records an event. What is handed back goes to every stream, also where
    /// the ring has no room for it.
    pub fn record(&mut self, kind: u16, flags: u16, payload: &[u8], monotonic_ns: u64) -> (r: Vec<
        u8,
    >)
        requires
            old(self).wf(),
        ensures
            final(self).wf(),
            r@ == record_bytes(
                event_head(*old(self), kind, flags, monotonic_ns),
                fitting(payload@),
            ),
            final(self).ring@ == appended(old(self).ring@, r@),
            *final(self) == (EventLog {
                ring: final(self).ring,
                next_sequence: next_number(old(self).next_sequence),
                ..*old(self)
            }),
    {
        let sequence: u64 = self.next_sequence;
        self.next_sequence = self.next_sequence.wrapping_add(1);
        let unix_ns: u64 = match self.started_unix_ns.checked_add(monotonic_ns) {
            Some(n) => n,
            None => u64::MAX,
        };
        let r = encode_record(
            &RecordHead { kind, flags, sequence, monotonic_ns, unix_ns },
            payload,
        );
        let _kept: bool = self.ring.append(&r);
        r
    }

    /// Everything that is in the journal, as bytes.
    pub fn dump(&self, f: &DumpFormat, activations: &Vec<u8>) -> (out: Vec<u8>)
        requires
            self.wf(),
        ensures
            out@ == full_dump(*self, *f, activations@),
    {
        let mut out = write_head(
            f,
            self.ring.capacity() as u64,
            self.ring.used() as u64,
            self.ring.records(),
            self.ring.dropped(),
            self.next_sequence,
            activations,
        );
        let ghost head = out@;
        let records = self.ring.record_vecs();
        let ghost all = self.ring@.records;
        let mut i: usize = 0;
        proof {
            assert(all.take(0) =~= Seq::empty());
            assert(head + gathered(all.take(0)) =~= head);
        }
        while i < records.len()
            invariant
                i <= records@.len(),
                byte_seqs(records@) == all,
                out@ == head + gathered(all.take(i as int)),
            decreases records@.len() - i,
        {
            proof {
                assert(all.take(i + 1).drop_last() =~= all.take(i as int));
                assert(all.take(i + 1).last() == all[i as int]);
                assert(records@[i as int]@ == all[i as int]);
            }
            push_bytes(&mut out, records[i].as_slice());
            proof {
                assert(out@ =~= head + gathered(all.take(i + 1)));
            }
            i = i + 1;
        }
        proof {
            assert(all.take(all.len() as int) =~= all);
        }
        out
    }

    /// What a stream starts with: everything, or the head alone, or nothing.
    pub fn snapshot(
        &self,
        history: bool,
        empty_header: bool,
        f: &DumpFormat,
        activations: &Vec<u8>,
    ) -> (r: Option<Vec<u8>>)
        requires
            self.wf(),
        ensures
            match r {
                Some(out) => (history || empty_header) && out@ == (if history {
                    full_dump(*self, *f, activations@)
                } else {
                    empty_dump(*self, *f, activations@)
                }),
                None => !history && !empty_header,
            },
    {
        if history {
            Some(self.dump(f, activations))
        } else if empty_header {
            Some(
                write_head(
                    f,
                    self.ring.capacity() as u64,
                    0,
                    0,
                    self.ring.dropped(),
                    self.next_sequence,
                    activations,
                ),
            )
        } else {
            None
        }
    }

    fn allocate_stream_id(&mut self) -> (id: u32)
        ensures
            id == stream_id(old(self).next_stream_id),
            *final(self) == (EventLog {
                next_stream_id: if id == u32::MAX {
                    0
                } else {
                    (id + 1) as u32
                },
                ..*old(self)
            }),
    {
        if self.next_stream_id == 0 {
            self.next_stream_id = 1;
        }
        let id: u32 = self.next_stream_id;
        self.next_stream_id = self.next_stream_id.wrapping_add(1);
        id
    }

    /// Starts a stream to a client: its id, and what it starts with.
    pub fn client_stream(
        &mut self,
        history: bool,
        f: &DumpFormat,
        activations: &Vec<u8>,
    ) -> (r: (u32, Option<Vec<u8>>))
        requires
            old(self).wf(),
        ensures
            final(self).wf(),
            r.0 == stream_id(old(self).next_stream_id),
            r.1 is Some,
            r.1->0@ == (if history {
                full_dump(*old(self), *f, activations@)
            } else {
                empty_dump(*old(self), *f, activations@)
            }),
            *final(self) == (EventLog {
                next_stream_id: final(self).next_stream_id,
                ..*old(self)
            }),
            final(self).next_stream_id == (if r.0 == u32::MAX {
                0u32
            } else {
                (r.0 + 1) as u32
            }),
    {
        let id: u32 = self.allocate_stream_id();
        let dump = self.snapshot(history, true, f, activations);
        (id, dump)
    }

    /// Starts a stream to a file: its id, and what it starts with. A file that
    /// is added to and is not empty gets no second head.
    pub fn start_file_stream(
        &mut self,
        path: String,
        flags: u8,
        existing: u64,
        bits: &StreamBits,
        f: &DumpFormat,
        activations: &Vec<u8>,
    ) -> (r: (u32, Option<Vec<u8>>))
        requires
            old(self).wf(),
        ensures
            final(self).wf(),
            r.0 == stream_id(old(self).next_stream_id),
            ({
                let history = flags & bits.history != 0;
                let fresh = flags & bits.append == 0 || existing == 0;
                match r.1 {
                    Some(out) => (history || fresh) && out@ == (if history {
                        full_dump(*old(self), *f, activations@)
                    } else {
                        empty_dump(*old(self), *f, activations@)
                    }),
                    None => !history && !fresh,
                }
            }),
            final(self).streams@ == old(self).streams@.insert(
                r.0 as u64,
                (FileStream { path, flags }),
            ),
            *final(self) == (EventLog {
                streams: final(self).streams,
                next_stream_id: if r.0 == u32::MAX {
                    0
                } else {
                    (r.0 + 1) as u32
                },
                ..*old(self)
            }),
    {
        let append: bool = flags & bits.append != 0;
        let history: bool = flags & bits.history != 0;
        let fresh: bool = !append || existing == 0;
        let id: u32 = self.allocate_stream_id();
        let dump = self.snapshot(history, fresh, f, activations);
        self.streams.insert(id as u64, FileStream { path, flags });
        (id, dump)
    }

    /// The streams to files, by their ids.
    pub fn file_streams(&self) -> (out: Vec<(u32, u8, String)>)
        requires
            self.wf(),
        ensures
            out@.len() == self.streams.spec_rows().len(),
            forall|i: int|
                0 <= i < out@.len() ==> ({
                    let row = self.streams.spec_rows()[i];
                    &&& (#[trigger] out@[i]).0 == row.0
                    &&& out@[i].1 == row.1.flags
                    &&& out@[i].2@ == row.1.path@
                }),
    {
        let ghost rows = self.streams.spec_rows();
        let mut out: Vec<(u32, u8, String)> = Vec::new();
        let n: usize = self.streams.len();
        let mut i: usize = 0;
        while i < n
            invariant
                i <= n,
                n == rows.len(),
                self.streams.wf(),
                rows == self.streams.spec_rows(),
                forall|k: u64| #[trigger] self.streams@.dom().contains(k) ==> k <= u32::MAX,
                out@.len() == i,
                forall|j: int|
                    0 <= j < i ==> (#[trigger] out@[j]).0 == rows[j].0 && out@[j].1
                        == rows[j].1.flags && out@[j].2@ == rows[j].1.path@,
            decreases n - i,
        {
            let id: u64 = self.streams.id_at(i);
            let s = self.streams.value_at(i);
            out.push((id as u32, s.flags, s.path.as_str().to_owned()));
            i = i + 1;
        }
        out
    }

    /// Ends a stream to a file; tells whether there was one.
    pub fn stop_file_stream(&mut self, id: u32) -> (r: bool)
        requires
            old(self).wf(),
        ensures
            final(self).wf(),
            r == old(self).streams@.dom().contains(id as u64),
            final(self).streams@ == old(self).streams@.remove(id as u64),
            *final(self) == (EventLog { streams: final(self).streams, ..*old(self) }),
    {
        self.streams.remove(id as u64).is_some()
    }

    /// Ends every stream to a file.
    pub fn shutdown_file_streams(&mut self)
        requires
            old(self).wf(),
        ensures
            final(self).wf(),
            final(self).streams@ == Map::<u64, FileStream>::empty(),
            *final(self) == (EventLog { streams: final(self).streams, ..*old(self) }),
    {
        self.streams = IdMap::new();
    }
}

/// Where a stream to a file stands.
#[derive(Clone, Copy, Debug, PartialEq, Eq, Structural)]
pub enum StreamPhase {
    /// What it starts with is being written.
    Opening,
    Following,
    /// What is left is being written.
    Draining,
    Ended,
}

/// What a stream to a file is handed.
pub enum StreamEvent {
    /// The last write succeeded; nothing new came.
    Written,
    /// The last write failed.
    WriteFailed,
    Stopped,
    Record(Vec<u8>),
    Lagged(u64),
    /// Nothing is left.
    Empty,
    Closed,
}

/// What a stream to a file does next.
pub enum StreamAction {
    /// Wait for the next event.
    Wait,
    Write(Vec<u8>),
    Flush,
    Stop,
}

/// What the next phase is and what is done.
pub open spec fn stream_next(
    phase: StreamPhase,
    event: StreamEvent,
    gap_kind: u16,
    next: StreamPhase,
    action: StreamAction,
) -> bool {
    match (phase, event) {
        (StreamPhase::Ended, _) => next == phase && action is Stop,
        (StreamPhase::Opening, StreamEvent::WriteFailed) => next == StreamPhase::Ended
            && action is Stop,
        (StreamPhase::Opening, _) => next == StreamPhase::Following && action is Wait,
        (StreamPhase::Following, StreamEvent::Record(r)) => next == phase && action
            == StreamAction::Write(r),
        (StreamPhase::Following, StreamEvent::Lagged(lost)) => next == phase && action is Write
            && action->Write_0@ == gap_bytes(gap_kind, lost),
        (StreamPhase::Following, StreamEvent::Written) => next == phase && action is Wait,
        (StreamPhase::Following, StreamEvent::Empty) => next == phase && action is Wait,
        (StreamPhase::Following, _) => next == StreamPhase::Draining && action is Wait,
        (StreamPhase::Draining, StreamEvent::Record(r)) => next == phase && action
            == StreamAction::Write(r),
        (StreamPhase::Draining, StreamEvent::Lagged(lost)) => next == phase && action is Write
            && action->Write_0@ == gap_bytes(gap_kind, lost),
        (StreamPhase::Draining, StreamEvent::WriteFailed) => next == StreamPhase::Ended
            && action is Stop,
        (StreamPhase::Draining, StreamEvent::Empty) => next == StreamPhase::Ended
            && action is Flush,
        (StreamPhase::Draining, StreamEvent::Closed) => next == StreamPhase::Ended
            && action is Flush,
        (StreamPhase::Draining, _) => next == phase && action is Wait,
    }
}

/// One step of a stream to a file. Once it is to end, what came before is still
/// written, and the file is flushed last.
pub fn stream_step(phase: StreamPhase, event: StreamEvent, gap_kind: u16) -> (r: (
    StreamPhase,
    StreamAction,
))
    ensures
        stream_next(phase, event, gap_kind, r.0, r.1),
{
    match phase {
        StreamPhase::Ended => (phase, StreamAction::Stop),
        StreamPhase::Opening => match event {
            StreamEvent::WriteFailed => (StreamPhase::Ended, StreamAction::Stop),
            _ => (StreamPhase::Following, StreamAction::Wait),
        },
        StreamPhase::Following => match event {
            StreamEvent::Record(r) => (phase, StreamAction::Write(r)),
            StreamEvent::Lagged(lost) => (phase, StreamAction::Write(gap_record(gap_kind, lost))),
            StreamEvent::Written => (phase, StreamAction::Wait),
            StreamEvent::Empty => (phase, StreamAction::Wait),
            _ => (StreamPhase::Draining, StreamAction::Wait),
        },
        StreamPhase::Draining => match event {
            StreamEvent::Record(r) => (phase, StreamAction::Write(r)),
            StreamEvent::Lagged(lost) => (phase, StreamAction::Write(gap_record(gap_kind, lost))),
            StreamEvent::WriteFailed => (StreamPhase::Ended, StreamAction::Stop),
            StreamEvent::Empty => (StreamPhase::Ended, StreamAction::Flush),
            StreamEvent::Closed => (StreamPhase::Ended, StreamAction::Flush),
            _ => (phase, StreamAction::Wait),
        },
    }
}

} // verus!
