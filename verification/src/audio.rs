//! Audio delivery: starting the PipeWire processes, keeping them alive, cutting
//! PCM into frames, and fanning encoded frames out to subscribers.

use vstd::prelude::*;

use crate::audio_pw::{Load, LoadStage};
use crate::bytes::{clone_bytes, le32, push_bytes, push_u32};
use crate::desktop_bus::{env_setting, setting_views, EnvSetting};
use crate::id_map::{lemma_row_of, IdMap};
use crate::text::{
    concat, digits_of, join_path, joined, pieces, push_number, split_at_char, texts, trim, trimmed,
};

pub mod laws;

verus! {

/// Samples of one channel in a 20 ms frame at 48 kHz.
pub const FRAME_SAMPLES: usize = 960;

pub const CHANNELS: usize = 2;

/// Bytes of one frame of interleaved 32-bit samples.
pub const FRAME_BYTES: usize = 7680;

/// Default Opus bitrate in bits per second.
pub const DEFAULT_BITRATE: i32 = 64_000;

/// How many recent frames a new subscriber catches up on: 200 ms.
pub const RING_CAPACITY: usize = 10;

/// Least time between two rounds of restarts, in nanoseconds.
pub const HEAL_COOLDOWN_NS: u64 = 1_000_000_000;

/// Rounds of restarts in one window before the pipeline is given up.
pub const MAX_HEALS: u32 = 5;

/// Length of the window in which restarts are counted, in nanoseconds.
pub const HEAL_WINDOW_NS: u64 = 30_000_000_000;

/// An encoded Opus frame ready for delivery. The timestamp counts
/// milliseconds since the compositor's epoch, as video frames do.
pub struct OpusFrame {
    pub timestamp: u32,
    pub data: Vec<u8>,
}

/// What an [`OpusFrame`] holds.
pub ghost struct FrameView {
    pub timestamp: u32,
    pub data: Seq<u8>,
}

impl View for OpusFrame {
    type V = FrameView;

    open spec fn view(&self) -> FrameView {
        FrameView { timestamp: self.timestamp, data: self.data@ }
    }
}

/// How the wire marks an audio frame and its codec.
#[derive(Clone, Copy, Debug, PartialEq, Eq, Structural)]
pub struct AudioCodes {
    pub message: u8,
    pub codec: u8,
}

/// The message that carries a frame: kind, timestamp, codec, data.
pub open spec fn frame_message(frame: FrameView, codes: AudioCodes) -> Seq<u8> {
    seq![codes.message] + le32(frame.timestamp) + seq![codes.codec] + frame.data
}

/// Builds the message that carries `frame`.
pub fn msg_audio_frame(frame: &OpusFrame, codes: AudioCodes) -> (msg: Vec<u8>)
    ensures
        msg@ == frame_message(frame@, codes),
{
    let mut msg: Vec<u8> = Vec::new();
    msg.push(codes.message);
    push_u32(&mut msg, frame.timestamp);
    msg.push(codes.codec);
    push_bytes(&mut msg, frame.data.as_slice());
    proof {
        assert(msg@ =~= frame_message(frame@, codes));
    }
    msg
}

pub open spec fn frames_view(v: Seq<OpusFrame>) -> Seq<FrameView> {
    v.map_values(|f: OpusFrame| f@)
}

/// The last `n` items of `s`, or all of them.
pub open spec fn tail<A>(s: Seq<A>, n: nat) -> Seq<A> {
    if s.len() <= n {
        s
    } else {
        s.subrange(s.len() - n, s.len() as int)
    }
}

/// Messages for a run of frames.
pub open spec fn messages(frames: Seq<FrameView>, codes: AudioCodes) -> Seq<Seq<u8>> {
    frames.map_values(|f: FrameView| frame_message(f, codes))
}

pub open spec fn bytes_view(v: Seq<Vec<u8>>) -> Seq<Seq<u8>> {
    v.map_values(|b: Vec<u8>| b@)
}

/// Who listens, and the recent frames that a new listener catches up on. It
/// outlives the pipeline, so clients stay subscribed across restarts.
pub struct AudioBroadcast {
    subscribers: IdMap<bool>,
    ring: Vec<OpusFrame>,
    has_listener: bool,
}

impl AudioBroadcast {
    /// The ids of the subscribers.
    pub closed spec fn spec_subscribers(self) -> Set<u64> {
        self.subscribers@.dom()
    }

    /// The subscribers in ascending order of their ids.
    pub closed spec fn spec_order(self) -> Seq<u64> {
        self.subscribers.spec_rows().map_values(|r: (u64, bool)| r.0)
    }

    /// The recent frames, oldest first.
    pub closed spec fn spec_ring(self) -> Seq<FrameView> {
        frames_view(self.ring@)
    }

    pub closed spec fn spec_listening(self) -> bool {
        self.has_listener
    }

    /// The ring is bounded, and someone is said to listen exactly when there
    /// is a subscriber.
    pub closed spec fn wf(self) -> bool {
        &&& self.subscribers.wf()
        &&& self.ring@.len() <= RING_CAPACITY
        &&& self.has_listener == (self.subscribers.spec_rows().len() > 0)
    }

    pub fn new() -> (b: AudioBroadcast)
        ensures
            b.wf(),
            b.spec_subscribers() == Set::<u64>::empty(),
            b.spec_ring() == Seq::<FrameView>::empty(),
            !b.spec_listening(),
    {
        let b = AudioBroadcast { subscribers: IdMap::new(), ring: Vec::new(), has_listener: false };
        proof {
            assert(b.spec_subscribers() =~= Set::<u64>::empty());
            assert(b.spec_ring() =~= Seq::<FrameView>::empty());
        }
        b
    }

    /// Registers a client and returns the messages it is to get first: the
    /// ring, oldest frame first.
    pub fn subscribe(&mut self, id: u64, codes: AudioCodes) -> (catch_up: Vec<Vec<u8>>)
        requires
            old(self).wf(),
        ensures
            final(self).wf(),
            subscribed(*old(self), *final(self), id, bytes_view(catch_up@), codes),
    {
        let mut catch_up: Vec<Vec<u8>> = Vec::new();
        let mut i: usize = 0;
        while i < self.ring.len()
            invariant
                i <= self.ring@.len(),
                self == old(self),
                bytes_view(catch_up@) == messages(frames_view(self.ring@).take(i as int), codes),
            decreases self.ring.len() - i,
        {
            let msg = msg_audio_frame(&self.ring[i], codes);
            let ghost prior = catch_up@;
            catch_up.push(msg);
            proof {
                assert(bytes_view(catch_up@) =~= bytes_view(prior).push(msg@));
                let frames = frames_view(self.ring@);
                assert(messages(frames.take(i + 1), codes) =~= messages(
                    frames.take(i as int),
                    codes,
                ).push(frame_message(frames[i as int], codes)));
            }
            i = i + 1;
        }
        proof {
            assert(frames_view(self.ring@).take(self.ring@.len() as int) =~= frames_view(
                self.ring@,
            ));
        }
        self.subscribers.insert(id, true);
        self.has_listener = true;
        proof {
            assert(self.subscribers@.dom() =~= old(self).subscribers@.dom().insert(id));
            assert(self.subscribers@.dom().contains(id));
        }
        catch_up
    }

    /// Removes a client; removing one that is not there changes nothing.
    pub fn unsubscribe(&mut self, id: u64)
        requires
            old(self).wf(),
        ensures
            final(self).wf(),
            final(self).spec_subscribers() == old(self).spec_subscribers().remove(id),
            final(self).spec_ring() == old(self).spec_ring(),
            final(self).spec_listening() == !(final(self).spec_subscribers()
                =~= Set::<u64>::empty()),
    {
        let _ = self.subscribers.remove(id);
        let ghost rows = self.subscribers.spec_rows();
        if self.subscribers.len() == 0 {
            self.has_listener = false;
            proof {
                assert(self.spec_subscribers() =~= Set::<u64>::empty());
            }
        } else {
            proof {
                self.subscribers.lemma_rows();
                lemma_row_of(rows, 0);
                assert(self.spec_subscribers().contains(rows[0].0));
                if old(self).subscribers.spec_rows().len() == 0 {
                    assert(old(self).subscribers@ =~= Map::<u64, bool>::empty());
                    assert(false);
                }
            }
        }
        proof {
            assert(self.spec_subscribers() =~= old(self).spec_subscribers().remove(id));
        }
    }

    /// Whether anyone listens; frames are not encoded while nobody does.
    pub fn has_listener(&self) -> (r: bool)
        requires
            self.wf(),
        ensures
            r == self.spec_listening(),
    {
        self.has_listener
    }

    /// Takes one encoded frame: it enters the ring, the oldest leaving a full
    /// one, and its message goes to every subscriber.
    pub fn publish(&mut self, frame: OpusFrame, codes: AudioCodes) -> (r: (Vec<u8>, Vec<u64>))
        requires
            old(self).wf(),
        ensures
            final(self).wf(),
            final(self).spec_order() == old(self).spec_order(),
            r.1@ == old(self).spec_order(),
            published(
                *old(self),
                *final(self),
                Published { frame: frame@, msg: r.0@, to: r.1@ },
                codes,
            ),
    {
        let msg = msg_audio_frame(&frame, codes);
        let ghost before = frames_view(self.ring@);
        if self.ring.len() >= RING_CAPACITY {
            let _ = self.ring.remove(0);
            proof {
                assert(frames_view(self.ring@) =~= before.subrange(1, before.len() as int));
            }
        }
        let ghost mid = frames_view(self.ring@);
        self.ring.push(frame);
        proof {
            assert(frames_view(self.ring@) =~= mid.push(frame@));
            assert(frames_view(self.ring@) =~= tail(before.push(frame@), RING_CAPACITY as nat));
        }
        let mut to: Vec<u64> = Vec::new();
        let mut i: usize = 0;
        while i < self.subscribers.len()
            invariant
                i <= self.subscribers.spec_rows().len(),
                self.subscribers.wf(),
                to@ == self.spec_order().take(i as int),
            decreases self.subscribers.spec_rows().len() - i,
        {
            let id: u64 = self.subscribers.id_at(i);
            to.push(id);
            i = i + 1;
            proof {
                assert(self.spec_order().take(i as int) =~= self.spec_order().take(i - 1).push(id));
            }
        }
        proof {
            assert(to@ =~= self.spec_order());
            assert forall|id: u64|
                to@.contains(id) == old(self).spec_subscribers().contains(id) by {
                let rows = self.subscribers.spec_rows();
                self.subscribers.lemma_rows();
                if to@.contains(id) {
                    let k = choose|k: int| 0 <= k < to@.len() && to@[k] == id;
                    lemma_row_of(rows, k);
                }
                if old(self).spec_subscribers().contains(id) {
                    let k = crate::id_map::row_of(rows, id);
                    assert(to@[k] == id);
                }
            }
            assert(to@.no_duplicates()) by {
                self.subscribers.lemma_rows();
            }
        }
        (msg, to)
    }
}

/// A frame that was published: its message, and who it went to.
pub ghost struct Published {
    pub frame: FrameView,
    pub msg: Seq<u8>,
    pub to: Seq<u64>,
}

/// Whether a client was registered, and handed the ring's messages, the oldest
/// first.
pub open spec fn subscribed(
    before: AudioBroadcast,
    after: AudioBroadcast,
    id: u64,
    catch_up: Seq<Seq<u8>>,
    codes: AudioCodes,
) -> bool {
    &&& after.spec_subscribers() == before.spec_subscribers().insert(id)
    &&& after.spec_ring() == before.spec_ring()
    &&& after.spec_listening()
    &&& catch_up == messages(before.spec_ring(), codes)
}

/// Whether a frame entered the ring and went to every subscriber, to each once.
pub open spec fn published(
    before: AudioBroadcast,
    after: AudioBroadcast,
    p: Published,
    codes: AudioCodes,
) -> bool {
    &&& after.spec_subscribers() == before.spec_subscribers()
    &&& after.spec_listening() == before.spec_listening()
    &&& after.spec_ring() == tail(before.spec_ring().push(p.frame), RING_CAPACITY as nat)
    &&& p.msg == frame_message(p.frame, codes)
    &&& p.to.no_duplicates()
    &&& forall|id: u64| #[trigger] p.to.contains(id) == before.spec_subscribers().contains(id)
}

/// What happens to a broadcast, as one of its clients sees it.
pub ghost enum AudioEvent {
    Frame(Published),
    /// Another client came or went.
    Other,
}

/// Whether `states` are the broadcast before, between and after events, none of
/// which registers or removes the client `id`.
pub open spec fn goes_on(
    states: Seq<AudioBroadcast>,
    events: Seq<AudioEvent>,
    id: u64,
    codes: AudioCodes,
) -> bool {
    &&& states.len() == events.len() + 1
    &&& forall|i: int|
        0 <= i < events.len() ==> match #[trigger] events[i] {
            AudioEvent::Frame(p) => published(states[i], states[i + 1], p, codes),
            AudioEvent::Other => states[i + 1].spec_ring() == states[i].spec_ring()
                && states[i + 1].spec_subscribers().contains(id)
                == states[i].spec_subscribers().contains(id),
        }
}

/// The frames among events.
pub open spec fn frames_of(events: Seq<AudioEvent>) -> Seq<FrameView>
    decreases events.len(),
{
    if events.len() == 0 {
        Seq::empty()
    } else {
        match events.last() {
            AudioEvent::Frame(p) => frames_of(events.drop_last()).push(p.frame),
            AudioEvent::Other => frames_of(events.drop_last()),
        }
    }
}

/// How often a client stands among recipients.
pub open spec fn times(to: Seq<u64>, id: u64) -> nat
    decreases to.len(),
{
    if to.len() == 0 {
        0
    } else {
        times(to.drop_last(), id) + (if to.last() == id {
            1nat
        } else {
            0nat
        })
    }
}

/// What a client is sent live: a frame's message as often as the client stands
/// among its recipients.
pub open spec fn heard(events: Seq<AudioEvent>, id: u64) -> Seq<Seq<u8>>
    decreases events.len(),
{
    if events.len() == 0 {
        Seq::empty()
    } else {
        let before = heard(events.drop_last(), id);
        match events.last() {
            AudioEvent::Frame(p) => before + Seq::new(times(p.to, id), |i: int| p.msg),
            AudioEvent::Other => before,
        }
    }
}

proof fn lemma_times(to: Seq<u64>, id: u64)
    requires
        to.no_duplicates(),
    ensures
        times(to, id) == if to.contains(id) {
            1nat
        } else {
            0nat
        },
    decreases to.len(),
{
    if to.len() > 0 {
        let rest = to.drop_last();
        lemma_times(rest, id);
        assert(to.last() == to[to.len() - 1]);
        if rest.contains(id) {
            let k = choose|k: int| 0 <= k < rest.len() && rest[k] == id;
            assert(to[k] == id);
        }
        if to.contains(id) && to.last() != id {
            let k = choose|k: int| 0 <= k < to.len() && to[k] == id;
            assert(rest[k] == id);
        }
    }
}

/// A client that is registered throughout gets every frame live, each once and
/// in order; one that is not gets none. The ring holds the last frames.
proof fn lemma_heard(
    states: Seq<AudioBroadcast>,
    events: Seq<AudioEvent>,
    id: u64,
    codes: AudioCodes,
)
    requires
        goes_on(states, events, id, codes),
        states[0].spec_ring().len() <= RING_CAPACITY,
    ensures
        heard(events, id) == if states[0].spec_subscribers().contains(id) {
            messages(frames_of(events), codes)
        } else {
            Seq::empty()
        },
        states.last().spec_subscribers().contains(id) == states[0].spec_subscribers().contains(id),
        states.last().spec_ring() == tail(
            states[0].spec_ring() + frames_of(events),
            RING_CAPACITY as nat,
        ),
    decreases events.len(),
{
    let ring = states[0].spec_ring();
    if events.len() == 0 {
        assert(messages(frames_of(events), codes) =~= Seq::empty());
        assert(ring + frames_of(events) =~= ring);
    } else {
        let n = events.len() - 1;
        let earlier = events.drop_last();
        let before = states.drop_last();
        assert forall|i: int| 0 <= i < earlier.len() implies match #[trigger] earlier[i] {
            AudioEvent::Frame(p) => published(before[i], before[i + 1], p, codes),
            AudioEvent::Other => before[i + 1].spec_ring() == before[i].spec_ring()
                && before[i + 1].spec_subscribers().contains(id)
                == before[i].spec_subscribers().contains(id),
        } by {
            assert(earlier[i] == events[i]);
        }
        lemma_heard(before, earlier, id, codes);
        assert(before.last() == states[n]);
        match events[n] {
            AudioEvent::Frame(p) => {
                lemma_times(p.to, id);
                let old_frames = frames_of(earlier);
                assert(p.to.contains(id) == states[n].spec_subscribers().contains(id));
                assert(messages(old_frames.push(p.frame), codes) =~= messages(
                    old_frames,
                    codes,
                ).push(p.msg));
                if states[0].spec_subscribers().contains(id) {
                    assert(heard(events, id) =~= messages(frames_of(events), codes));
                } else {
                    assert(heard(events, id) =~= Seq::empty());
                }
                law_ring_holds_the_tail(ring + old_frames, p.frame);
                assert((ring + old_frames).push(p.frame) =~= ring + frames_of(events));
            },
            AudioEvent::Other => {},
        }
    }
}

/// A client that subscribes while frames are published gets each of them exactly
/// once, never twice and never not at all: what the ring held comes first, as
/// catch-up and the oldest frame first, and every later frame comes live, in the
/// order of publication. Of the earlier frames none came live.
pub proof fn law_listener_hears_each_frame_once(
    past: Seq<AudioBroadcast>,
    earlier: Seq<AudioEvent>,
    future: Seq<AudioBroadcast>,
    later: Seq<AudioEvent>,
    id: u64,
    catch_up: Seq<Seq<u8>>,
    codes: AudioCodes,
)
    requires
        goes_on(past, earlier, id, codes),
        past[0].wf(),
        !past[0].spec_subscribers().contains(id),
        subscribed(past.last(), future[0], id, catch_up, codes),
        goes_on(future, later, id, codes),
    ensures
        heard(earlier, id) == Seq::<Seq<u8>>::empty(),
        catch_up == messages(
            tail(past[0].spec_ring() + frames_of(earlier), RING_CAPACITY as nat),
            codes,
        ),
        heard(later, id) == messages(frames_of(later), codes),
        future[0].spec_listening(),
{
    lemma_heard(past, earlier, id, codes);
    lemma_heard(future, later, id, codes);
}

/// A listener that subscribes after `history` and then hears `live` gets the
/// last frames of the history and every later frame, in order, none twice.
pub proof fn law_subscriber_hears_a_gapless_tail(
    history: Seq<FrameView>,
    live: Seq<FrameView>,
    codes: AudioCodes,
)
    ensures
        messages(tail(history, RING_CAPACITY as nat), codes) + messages(live, codes) == messages(
            tail(history + live, tail(history, RING_CAPACITY as nat).len() + live.len()),
            codes,
        ),
{
    let kept = tail(history, RING_CAPACITY as nat);
    let all = history + live;
    assert(tail(all, kept.len() + live.len()) =~= kept + live);
    assert(messages(kept, codes) + messages(live, codes) =~= messages(kept + live, codes));
}

/// If the ring holds the tail of what was published, it still does after one
/// more frame.
pub proof fn law_ring_holds_the_tail(history: Seq<FrameView>, frame: FrameView)
    ensures
        tail(tail(history, RING_CAPACITY as nat).push(frame), RING_CAPACITY as nat) == tail(
            history.push(frame),
            RING_CAPACITY as nat,
        ),
{
    assert(tail(tail(history, RING_CAPACITY as nat).push(frame), RING_CAPACITY as nat) =~= tail(
        history.push(frame),
        RING_CAPACITY as nat,
    ));
}

/// PCM that has been captured and not yet framed.
pub struct PcmBuffer {
    pub bytes: Vec<u8>,
}

impl PcmBuffer {
    pub fn new() -> (b: PcmBuffer)
        ensures
            b.bytes@ == Seq::<u8>::empty(),
    {
        PcmBuffer { bytes: Vec::new() }
    }

    /// Adds a captured chunk, of whatever size the capture gave.
    pub fn push_chunk(&mut self, chunk: &[u8])
        ensures
            final(self).bytes@ == old(self).bytes@ + chunk@,
    {
        push_bytes(&mut self.bytes, chunk);
    }

    /// Takes the next whole frame from the front. Nothing is lost: the frame
    /// and what remains are what was there.
    pub fn next_frame(&mut self) -> (r: Option<Vec<u8>>)
        ensures
            match r {
                Some(frame) => frame@.len() == FRAME_BYTES && old(self).bytes@ == frame@
                    + final(self).bytes@,
                None => old(self).bytes@.len() < FRAME_BYTES && *final(self) == *old(self),
            },
    {
        if self.bytes.len() < FRAME_BYTES {
            return None;
        }
        let ghost before = self.bytes@;
        let rest = self.bytes.split_off(FRAME_BYTES);
        let frame = clone_bytes(&self.bytes);
        self.bytes = rest;
        proof {
            assert(before =~= frame@ + self.bytes@);
        }
        Some(frame)
    }
}

/// The bitrate to encode at: the default where none is asked for.
pub fn effective_bitrate(bitrate: i32) -> (r: i32)
    ensures
        r == if bitrate > 0 {
            bitrate
        } else {
            DEFAULT_BITRATE
        },
{
    if bitrate > 0 {
        bitrate
    } else {
        DEFAULT_BITRATE
    }
}

/// Which processes were found dead at one look.
#[derive(Clone, Copy, Debug, PartialEq, Eq, Structural)]
pub struct Observed {
    /// PipeWire itself or the private bus.
    pub core_dead: bool,
    pub wireplumber_dead: bool,
    pub pulse_dead: bool,
    pub encoder_dead: bool,
    /// Nanoseconds of a monotonic clock.
    pub now: u64,
}

/// Whether the pipeline goes on, and what is to be restarted.
#[derive(Clone, Copy, Debug, PartialEq, Eq, Structural)]
pub struct Verdict {
    pub alive: bool,
    pub restart_wireplumber: bool,
    pub restart_pulse: bool,
    pub restart_encoder: bool,
}

/// The restarts of one pipeline.
#[derive(Clone, Copy, Debug, PartialEq, Eq, Structural)]
pub struct Health {
    pub alive: bool,
    pub last_heal: Option<u64>,
    pub first_heal_at: Option<u64>,
    pub heals: u32,
}

/// Nanoseconds from `t` to `now`, none where `t` is later.
pub open spec fn elapsed(now: u64, t: u64) -> int {
    if now >= t {
        now - t
    } else {
        0
    }
}

impl Health {
    /// A pipeline that is alive has not used up its restarts.
    pub open spec fn wf(self) -> bool {
        self.alive ==> self.heals <= MAX_HEALS
    }

    pub open spec fn spec_cooling(self, now: u64) -> bool {
        match self.last_heal {
            Some(t) => elapsed(now, t) < HEAL_COOLDOWN_NS,
            None => false,
        }
    }

    pub open spec fn spec_new_window(self, now: u64) -> bool {
        match self.first_heal_at {
            Some(t) => elapsed(now, t) > HEAL_WINDOW_NS,
            None => true,
        }
    }

    /// How many rounds of restarts the window would hold with one more.
    pub open spec fn spec_heals_next(self, now: u64) -> int {
        if self.spec_new_window(now) {
            1
        } else {
            self.heals + 1
        }
    }

    pub fn new() -> (h: Health)
        ensures
            h.wf(),
            h == (Health { alive: true, last_heal: None, first_heal_at: None, heals: 0 }),
    {
        Health { alive: true, last_heal: None, first_heal_at: None, heals: 0 }
    }

    /// Looks at the processes. A dead core ends the pipeline. Dead helpers and a
    /// dead encoder are restarted, each by itself, at most once per cooldown and
    /// a bounded number of times per window; the pipeline ends where they keep
    /// dying.
    pub fn is_alive(&mut self, seen: Observed) -> (v: Verdict)
        requires
            old(self).wf(),
        ensures
            final(self).wf(),
            v.alive == final(self).alive,
            ({
                let h = *old(self);
                let quiet = Verdict {
                    alive: final(self).alive,
                    restart_wireplumber: false,
                    restart_pulse: false,
                    restart_encoder: false,
                };
                let hurt = seen.wireplumber_dead || seen.pulse_dead || seen.encoder_dead;
                if !h.alive {
                    *final(self) == h && v == quiet
                } else if seen.core_dead {
                    *final(self) == (Health { alive: false, ..h }) && v == quiet
                } else if !hurt || h.spec_cooling(seen.now) {
                    *final(self) == h && v == quiet
                } else if h.spec_heals_next(seen.now) > MAX_HEALS {
                    &&& v == quiet
                    &&& !final(self).alive
                    &&& final(self).heals == h.spec_heals_next(seen.now)
                    &&& final(self).last_heal == h.last_heal
                    &&& final(self).first_heal_at == h.first_heal_at
                } else {
                    &&& v.alive
                    &&& v.restart_wireplumber == seen.wireplumber_dead
                    &&& v.restart_pulse == seen.pulse_dead
                    &&& v.restart_encoder == seen.encoder_dead
                    &&& final(self).heals == h.spec_heals_next(seen.now)
                    &&& final(self).last_heal == Some(seen.now)
                    &&& final(self).first_heal_at == if h.spec_new_window(seen.now) {
                        Some(seen.now)
                    } else {
                        h.first_heal_at
                    }
                }
            }),
            old(self).alive && !v.alive ==> seen.core_dead || old(self).spec_heals_next(seen.now)
                > MAX_HEALS,
    {
        let nothing = Verdict {
            alive: false,
            restart_wireplumber: false,
            restart_pulse: false,
            restart_encoder: false,
        };
        if !self.alive {
            return nothing;
        }
        if seen.core_dead {
            self.alive = false;
            return nothing;
        }
        let unchanged = Verdict { alive: true, ..nothing };
        if !(seen.wireplumber_dead || seen.pulse_dead || seen.encoder_dead) {
            return unchanged;
        }
        let cooling: bool = match self.last_heal {
            Some(t) => seen.now.saturating_sub(t) < HEAL_COOLDOWN_NS,
            None => false,
        };
        if cooling {
            return unchanged;
        }
        let new_window: bool = match self.first_heal_at {
            Some(t) => seen.now.saturating_sub(t) > HEAL_WINDOW_NS,
            None => true,
        };
        if new_window {
            self.first_heal_at = Some(seen.now);
            self.heals = 0;
        }
        self.heals = self.heals + 1;
        if self.heals > MAX_HEALS {
            self.alive = false;
            return nothing;
        }
        self.last_heal = Some(seen.now);
        Verdict {
            alive: true,
            restart_wireplumber: seen.wireplumber_dead,
            restart_pulse: seen.pulse_dead,
            restart_encoder: seen.encoder_dead,
        }
    }
}

/// The processes of one pipeline.
#[derive(Clone, Copy, Debug, PartialEq, Eq, Structural)]
pub enum Process {
    Bus,
    Pipewire,
    Wireplumber,
    Pulse,
}

#[derive(Clone, Copy, Debug, PartialEq, Eq, Structural)]
pub enum Cleanup {
    Kill(Process),
    Wait(Process),
}

/// The steps of starting a pipeline, in order.
#[derive(Clone, Copy, Debug, PartialEq, Eq, Structural)]
pub enum SpawnStep {
    CreateDir,
    CreateConfigDir,
    WriteConfig,
    StartBus,
    TakeBusOutput,
    ReadBusAddress,
    StartPipewire,
    AwaitPipewireSocket,
    StartWireplumber,
    StartPulse,
    AwaitPulseSocket,
    StartCapture,
    Ready,
    Failed,
}

/// What came of a step.
pub enum SpawnEvent {
    Done,
    /// The step failed, with the reason.
    Error(String),
    /// The first line that the bus printed.
    Address(String),
    /// Whether the awaited socket appeared, and whether its process has exited.
    Socket { appeared: bool, exited: bool },
    /// Whether the optional session manager was started.
    Wireplumber { started: bool },
}

/// A pipeline being started.
pub struct Spawn {
    pub step: SpawnStep,
    pub wireplumber: bool,
    pub bus_address: String,
    pub error: String,
    pub cleanup: Vec<Cleanup>,
}

/// The processes that run when `step` is taken and its own process does not,
/// latest first.
pub open spec fn running(step: SpawnStep, wireplumber: bool) -> Seq<Process> {
    let manager = if wireplumber {
        seq![Process::Wireplumber]
    } else {
        seq![]
    };
    match step {
        SpawnStep::TakeBusOutput | SpawnStep::ReadBusAddress | SpawnStep::StartPipewire
        | SpawnStep::AwaitPipewireSocket => seq![Process::Bus],
        SpawnStep::StartPulse | SpawnStep::AwaitPulseSocket => manager + seq![
            Process::Pipewire,
            Process::Bus,
        ],
        SpawnStep::StartCapture => seq![Process::Pulse] + manager + seq![
            Process::Pipewire,
            Process::Bus,
        ],
        _ => seq![],
    }
}

/// Every running process is killed, latest first, and then waited for in the
/// same order. A bus that printed no address is only killed, and one without an
/// output to read is left alone.
pub open spec fn cleanup_for(step: SpawnStep, wireplumber: bool) -> Seq<Cleanup> {
    if step == SpawnStep::TakeBusOutput {
        seq![]
    } else if step == SpawnStep::ReadBusAddress {
        seq![Cleanup::Kill(Process::Bus)]
    } else {
        running(step, wireplumber).map_values(|p: Process| Cleanup::Kill(p)) + running(
            step,
            wireplumber,
        ).map_values(|p: Process| Cleanup::Wait(p))
    }
}

/// What a failed step is reported as.
pub open spec fn failure_prefix(step: SpawnStep) -> Seq<char> {
    match step {
        SpawnStep::CreateDir => "failed to create audio runtime dir: "@,
        SpawnStep::CreateConfigDir => "failed to create PipeWire config dir: "@,
        SpawnStep::WriteConfig => "failed to write PipeWire config: "@,
        SpawnStep::StartBus => "failed to start dbus-daemon: "@,
        SpawnStep::ReadBusAddress => "failed to read dbus-daemon address: "@,
        SpawnStep::StartPipewire => "failed to start pipewire: "@,
        SpawnStep::StartPulse => "failed to start pipewire-pulse: "@,
        SpawnStep::StartCapture => "failed to start PipeWire capture: "@,
        _ => ""@,
    }
}

pub open spec fn following(step: SpawnStep) -> SpawnStep {
    match step {
        SpawnStep::CreateDir => SpawnStep::CreateConfigDir,
        SpawnStep::CreateConfigDir => SpawnStep::WriteConfig,
        SpawnStep::WriteConfig => SpawnStep::StartBus,
        SpawnStep::StartBus => SpawnStep::TakeBusOutput,
        SpawnStep::TakeBusOutput => SpawnStep::ReadBusAddress,
        SpawnStep::ReadBusAddress => SpawnStep::StartPipewire,
        SpawnStep::StartPipewire => SpawnStep::AwaitPipewireSocket,
        SpawnStep::AwaitPipewireSocket => SpawnStep::StartWireplumber,
        SpawnStep::StartWireplumber => SpawnStep::StartPulse,
        SpawnStep::StartPulse => SpawnStep::AwaitPulseSocket,
        SpawnStep::AwaitPulseSocket => SpawnStep::StartCapture,
        SpawnStep::StartCapture => SpawnStep::Ready,
        SpawnStep::Ready => SpawnStep::Ready,
        SpawnStep::Failed => SpawnStep::Failed,
    }
}

/// The event that a step can end in without a failure.
pub open spec fn succeeds(step: SpawnStep, event: SpawnEvent) -> bool {
    match step {
        SpawnStep::ReadBusAddress => event matches SpawnEvent::Address(line) && trimmed(line@).len()
            > 0,
        SpawnStep::AwaitPipewireSocket | SpawnStep::AwaitPulseSocket => event matches
            SpawnEvent::Socket { appeared, exited } && (appeared || !exited),
        SpawnStep::StartWireplumber => event is Wireplumber,
        SpawnStep::Ready | SpawnStep::Failed => false,
        _ => event is Done,
    }
}

/// The text of a failure at `step`.
pub open spec fn failure_text(step: SpawnStep, event: SpawnEvent) -> Seq<char> {
    match (step, event) {
        (SpawnStep::TakeBusOutput, _) => "dbus-daemon stdout missing"@,
        (SpawnStep::AwaitPipewireSocket, _) => "pipewire exited before creating its socket"@,
        (SpawnStep::AwaitPulseSocket, _) => "pipewire-pulse exited before creating its socket"@,
        (SpawnStep::ReadBusAddress, SpawnEvent::Address(_)) =>
            "dbus-daemon exited without printing an address"@,
        (_, SpawnEvent::Error(e)) => failure_prefix(step) + e@,
        (_, _) => failure_prefix(step),
    }
}

/// What a failure at `step` leaves to clean up. Up to reading the bus address
/// a failed step leaves its processes alone.
pub open spec fn failure_cleanup(step: SpawnStep, event: SpawnEvent, wireplumber: bool) -> Seq<
    Cleanup,
> {
    if step == SpawnStep::ReadBusAddress && event !is Address {
        seq![]
    } else {
        cleanup_for(step, wireplumber)
    }
}

impl Spawn {
    pub fn new() -> (s: Spawn)
        ensures
            s.step == SpawnStep::CreateDir,
            !s.wireplumber,
            s.bus_address@.len() == 0,
            s.error@.len() == 0,
            s.cleanup@ == Seq::<Cleanup>::empty(),
    {
        Spawn {
            step: SpawnStep::CreateDir,
            wireplumber: false,
            bus_address: String::new(),
            error: String::new(),
            cleanup: Vec::new(),
        }
    }

    /// Takes the outcome of the current step: on to the next one, or to the end
    /// with the error and what is to be cleaned up.
    pub fn advance(&mut self, event: SpawnEvent)
        ensures
            ({
                let s = *old(self);
                let e = *final(self);
                if s.step is Ready || s.step is Failed {
                    e == s
                } else if succeeds(s.step, event) {
                    &&& e.step == following(s.step)
                    &&& e.wireplumber == match event {
                        SpawnEvent::Wireplumber { started } => started,
                        _ => s.wireplumber,
                    }
                    &&& e.bus_address@ == match event {
                        SpawnEvent::Address(line) => trimmed(line@),
                        _ => s.bus_address@,
                    }
                    &&& e.error == s.error
                    &&& e.cleanup == s.cleanup
                } else {
                    &&& e.step is Failed
                    &&& e.wireplumber == s.wireplumber
                    &&& e.bus_address == s.bus_address
                    &&& e.error@ == failure_text(s.step, event)
                    &&& e.cleanup@ == failure_cleanup(s.step, event, s.wireplumber)
                }
            }),
    {
        let step = self.step;
        if step == SpawnStep::Ready || step == SpawnStep::Failed {
            return;
        }
        match &event {
            SpawnEvent::Done => {
                let plain: bool = match step {
                    SpawnStep::ReadBusAddress => false,
                    SpawnStep::AwaitPipewireSocket => false,
                    SpawnStep::AwaitPulseSocket => false,
                    SpawnStep::StartWireplumber => false,
                    _ => true,
                };
                if plain {
                    self.step = next_step(step);
                    return;
                }
            },
            SpawnEvent::Error(_) => {},
            SpawnEvent::Address(line) => {
                if step == SpawnStep::ReadBusAddress {
                    let address = trim(line.as_str());
                    if !address.as_str().is_empty() {
                        self.bus_address = address;
                        self.step = SpawnStep::StartPipewire;
                        return;
                    }
                }
            },
            SpawnEvent::Socket { appeared, exited } => {
                if (step == SpawnStep::AwaitPipewireSocket || step == SpawnStep::AwaitPulseSocket)
                    && (*appeared || !*exited) {
                    self.step = next_step(step);
                    return;
                }
            },
            SpawnEvent::Wireplumber { started } => {
                if step == SpawnStep::StartWireplumber {
                    self.wireplumber = *started;
                    self.step = SpawnStep::StartPulse;
                    return;
                }
            },
        }
        self.error = spawn_error(step, &event);
        self.cleanup = spawn_cleanup(step, &event, self.wireplumber);
        self.step = SpawnStep::Failed;
    }
}

fn next_step(step: SpawnStep) -> (n: SpawnStep)
    ensures
        n == following(step),
{
    match step {
        SpawnStep::CreateDir => SpawnStep::CreateConfigDir,
        SpawnStep::CreateConfigDir => SpawnStep::WriteConfig,
        SpawnStep::WriteConfig => SpawnStep::StartBus,
        SpawnStep::StartBus => SpawnStep::TakeBusOutput,
        SpawnStep::TakeBusOutput => SpawnStep::ReadBusAddress,
        SpawnStep::ReadBusAddress => SpawnStep::StartPipewire,
        SpawnStep::StartPipewire => SpawnStep::AwaitPipewireSocket,
        SpawnStep::AwaitPipewireSocket => SpawnStep::StartWireplumber,
        SpawnStep::StartWireplumber => SpawnStep::StartPulse,
        SpawnStep::StartPulse => SpawnStep::AwaitPulseSocket,
        SpawnStep::AwaitPulseSocket => SpawnStep::StartCapture,
        SpawnStep::StartCapture => SpawnStep::Ready,
        SpawnStep::Ready => SpawnStep::Ready,
        SpawnStep::Failed => SpawnStep::Failed,
    }
}

fn spawn_error(step: SpawnStep, event: &SpawnEvent) -> (r: String)
    ensures
        r@ == failure_text(step, *event),
{
    if step == SpawnStep::TakeBusOutput {
        return "dbus-daemon stdout missing".to_owned();
    }
    if step == SpawnStep::AwaitPipewireSocket {
        return "pipewire exited before creating its socket".to_owned();
    }
    if step == SpawnStep::AwaitPulseSocket {
        return "pipewire-pulse exited before creating its socket".to_owned();
    }
    let prefix: &'static str = match step {
        SpawnStep::CreateDir => "failed to create audio runtime dir: ",
        SpawnStep::CreateConfigDir => "failed to create PipeWire config dir: ",
        SpawnStep::WriteConfig => "failed to write PipeWire config: ",
        SpawnStep::StartBus => "failed to start dbus-daemon: ",
        SpawnStep::ReadBusAddress => "failed to read dbus-daemon address: ",
        SpawnStep::StartPipewire => "failed to start pipewire: ",
        SpawnStep::StartPulse => "failed to start pipewire-pulse: ",
        SpawnStep::StartCapture => "failed to start PipeWire capture: ",
        _ => "",
    };
    match event {
        SpawnEvent::Error(e) => concat(prefix, e.as_str()),
        SpawnEvent::Address(_) => if step == SpawnStep::ReadBusAddress {
            "dbus-daemon exited without printing an address".to_owned()
        } else {
            prefix.to_owned()
        },
        _ => prefix.to_owned(),
    }
}

fn spawn_cleanup(step: SpawnStep, event: &SpawnEvent, wireplumber: bool) -> (v: Vec<Cleanup>)
    ensures
        v@ == failure_cleanup(step, *event, wireplumber),
{
    let mut v: Vec<Cleanup> = Vec::new();
    if step == SpawnStep::ReadBusAddress {
        if let SpawnEvent::Address(_) = event {
            v.push(Cleanup::Kill(Process::Bus));
        }
        proof {
            assert(v@ =~= failure_cleanup(step, *event, wireplumber));
        }
        return v;
    }
    let bus: bool = match step {
        SpawnStep::StartPipewire => true,
        SpawnStep::AwaitPipewireSocket => true,
        SpawnStep::StartPulse => true,
        SpawnStep::AwaitPulseSocket => true,
        SpawnStep::StartCapture => true,
        _ => false,
    };
    let pulse: bool = step == SpawnStep::StartCapture;
    let pipewire: bool = pulse || step == SpawnStep::StartPulse || step
        == SpawnStep::AwaitPulseSocket;
    if pulse {
        v.push(Cleanup::Kill(Process::Pulse));
    }
    if pipewire && wireplumber {
        v.push(Cleanup::Kill(Process::Wireplumber));
    }
    if pipewire {
        v.push(Cleanup::Kill(Process::Pipewire));
    }
    if bus {
        v.push(Cleanup::Kill(Process::Bus));
    }
    if pulse {
        v.push(Cleanup::Wait(Process::Pulse));
    }
    if pipewire && wireplumber {
        v.push(Cleanup::Wait(Process::Wireplumber));
    }
    if pipewire {
        v.push(Cleanup::Wait(Process::Pipewire));
    }
    if bus {
        v.push(Cleanup::Wait(Process::Bus));
    }
    proof {
        assert(v@ =~= failure_cleanup(step, *event, wireplumber));
    }
    v
}

/// Once the bus has told its address, and before the bus is started, a failure
/// kills exactly the processes that run, and waits for each one that it killed.
pub proof fn law_failed_spawn_past_the_bus_leaves_no_process(
    step: SpawnStep,
    wireplumber: bool,
    p: Process,
)
    requires
        step != SpawnStep::TakeBusOutput,
        step != SpawnStep::ReadBusAddress,
    ensures
        running(step, wireplumber).contains(p) == cleanup_for(step, wireplumber).contains(
            Cleanup::Kill(p),
        ),
        cleanup_for(step, wireplumber).contains(Cleanup::Kill(p)) == cleanup_for(
            step,
            wireplumber,
        ).contains(Cleanup::Wait(p)),
{
    let r = running(step, wireplumber);
    let kills = r.map_values(|p: Process| Cleanup::Kill(p));
    let waits = r.map_values(|p: Process| Cleanup::Wait(p));
    let all = kills + waits;
    if r.contains(p) {
        let i = choose|i: int| 0 <= i < r.len() && r[i] == p;
        assert(all[i] == Cleanup::Kill(p));
        assert(all[r.len() + i] == Cleanup::Wait(p));
    }
    if all.contains(Cleanup::Kill(p)) {
        let i = choose|i: int| 0 <= i < all.len() && all[i] == Cleanup::Kill(p);
        assert(i < r.len());
        assert(r[i] == p);
    }
    if all.contains(Cleanup::Wait(p)) {
        let i = choose|i: int| 0 <= i < all.len() && all[i] == Cleanup::Wait(p);
        assert(i >= r.len());
        assert(r[i - r.len()] == p);
    }
}

/// The private directory of one pipeline, below the runtime directory.
pub fn audio_dir(runtime_dir: &str, instance_id: u16) -> (r: String)
    ensures
        r@ == joined(runtime_dir@, "blit-audio-"@ + digits_of(instance_id as nat)),
{
    let mut name = "blit-audio-".to_owned();
    push_number(&mut name, instance_id as u64);
    join_path(runtime_dir, name.as_str())
}

/// The value of `PULSE_SERVER` for child processes.
pub fn pulse_server_path(audio_dir: &str) -> (r: String)
    ensures
        r@ == "unix:"@ + joined(joined(audio_dir@, "pulse"@), "native"@),
{
    let pulse = join_path(audio_dir, "pulse");
    let native = join_path(pulse.as_str(), "native");
    concat("unix:", native.as_str())
}

/// The value of `PIPEWIRE_REMOTE` for child processes: an absolute path, since
/// their own runtime directory is another one.
pub fn pipewire_remote_path(audio_dir: &str) -> (r: String)
    ensures
        r@ == joined(audio_dir@, "pipewire-0"@),
{
    join_path(audio_dir, "pipewire-0")
}

/// What a process of the pipeline finds in its environment. Each has the private
/// directory as its runtime directory; all but the bus find the bus there; those
/// that read a configuration find the private one, and those that connect to
/// PipeWire its socket.
pub open spec fn process_environment_spec(
    process: Process,
    audio_dir: Seq<char>,
    bus_address: Seq<char>,
) -> Seq<(Seq<char>, Seq<char>)> {
    let remote = ("PIPEWIRE_REMOTE"@, joined(audio_dir, "pipewire-0"@));
    let config = ("XDG_CONFIG_HOME"@, audio_dir);
    let bus = ("DBUS_SESSION_BUS_ADDRESS"@, bus_address);
    let runtime = ("XDG_RUNTIME_DIR"@, audio_dir);
    match process {
        Process::Bus => seq![runtime],
        Process::Pipewire => seq![config, bus, runtime],
        Process::Wireplumber => seq![remote, config, bus, runtime],
        Process::Pulse => seq![remote, bus, runtime],
    }
}

/// The environment that a process of the pipeline is started with, the first
/// time and each time after.
pub fn process_environment(process: Process, audio_dir: &str, bus_address: &str) -> (out: Vec<
    EnvSetting,
>)
    ensures
        setting_views(out@) == process_environment_spec(process, audio_dir@, bus_address@),
{
    let mut out: Vec<EnvSetting> = Vec::new();
    if process == Process::Wireplumber || process == Process::Pulse {
        let remote = pipewire_remote_path(audio_dir);
        out.push(env_setting("PIPEWIRE_REMOTE", remote.as_str()));
    }
    if process == Process::Pipewire || process == Process::Wireplumber {
        out.push(env_setting("XDG_CONFIG_HOME", audio_dir));
    }
    if process != Process::Bus {
        out.push(env_setting("DBUS_SESSION_BUS_ADDRESS", bus_address));
    }
    out.push(env_setting("XDG_RUNTIME_DIR", audio_dir));
    proof {
        assert(setting_views(out@) =~= process_environment_spec(
            process,
            audio_dir@,
            bus_address@,
        ));
    }
    out
}

/// What ends a running pipeline, once its capture has stopped: every process is
/// killed, those that depend on others first, before any is waited for.
pub fn shutdown_cleanup(wireplumber: bool) -> (v: Vec<Cleanup>)
    ensures
        v@ == (if wireplumber {
            seq![
                Cleanup::Kill(Process::Pulse),
                Cleanup::Kill(Process::Wireplumber),
                Cleanup::Kill(Process::Pipewire),
                Cleanup::Kill(Process::Bus),
                Cleanup::Wait(Process::Pulse),
                Cleanup::Wait(Process::Wireplumber),
                Cleanup::Wait(Process::Pipewire),
                Cleanup::Wait(Process::Bus),
            ]
        } else {
            seq![
                Cleanup::Kill(Process::Pulse),
                Cleanup::Kill(Process::Pipewire),
                Cleanup::Kill(Process::Bus),
                Cleanup::Wait(Process::Pulse),
                Cleanup::Wait(Process::Pipewire),
                Cleanup::Wait(Process::Bus),
            ]
        }),
{
    let mut v: Vec<Cleanup> = Vec::new();
    v.push(Cleanup::Kill(Process::Pulse));
    if wireplumber {
        v.push(Cleanup::Kill(Process::Wireplumber));
    }
    v.push(Cleanup::Kill(Process::Pipewire));
    v.push(Cleanup::Kill(Process::Bus));
    v.push(Cleanup::Wait(Process::Pulse));
    if wireplumber {
        v.push(Cleanup::Wait(Process::Wireplumber));
    }
    v.push(Cleanup::Wait(Process::Pipewire));
    v.push(Cleanup::Wait(Process::Bus));
    v
}

/// Where a program may lie: its name below each directory of the search path.
pub fn program_candidates(path_var: &str, name: &str) -> (out: Vec<String>)
    ensures
        texts(out@) == pieces(path_var@, ':').map_values(|d: Seq<char>| joined(d, name@)),
{
    let dirs = split_at_char(path_var, ':');
    let mut out: Vec<String> = Vec::new();
    let mut i: usize = 0;
    let ghost all = texts(dirs@).map_values(|d: Seq<char>| joined(d, name@));
    while i < dirs.len()
        invariant
            i <= dirs@.len(),
            all == texts(dirs@).map_values(|d: Seq<char>| joined(d, name@)),
            texts(out@) == all.take(i as int),
        decreases dirs.len() - i,
    {
        let candidate = join_path(dirs[i].as_str(), name);
        let ghost prior = texts(out@);
        out.push(candidate);
        proof {
            assert(texts(out@) =~= prior.push(candidate@));
            assert(all.take(i + 1) =~= all.take(i as int).push(all[i as int]));
        }
        i = i + 1;
    }
    proof {
        assert(all.take(all.len() as int) =~= all);
    }
    out
}

/// The first candidate that is a file.
pub fn find_program(is_file: &Vec<bool>) -> (r: Option<usize>)
    ensures
        match r {
            Some(i) => i < is_file@.len() && is_file@[i as int] && forall|k: int|
                0 <= k < i ==> !is_file@[k],
            None => forall|k: int| 0 <= k < is_file@.len() ==> !is_file@[k],
        },
{
    let mut i: usize = 0;
    while i < is_file.len()
        invariant
            i <= is_file@.len(),
            forall|k: int| 0 <= k < i ==> !is_file@[k],
        decreases is_file.len() - i,
    {
        if is_file[i] {
            return Some(i);
        }
        i = i + 1;
    }
    None
}

/// The required programs that were not found, in order.
pub open spec fn missing_programs(pipewire: bool, pulse: bool, bus: bool) -> Seq<Seq<char>> {
    (if pipewire {
        Seq::<Seq<char>>::empty()
    } else {
        seq!["pipewire"@]
    }) + (if pulse {
        Seq::<Seq<char>>::empty()
    } else {
        seq!["pipewire-pulse"@]
    }) + (if bus {
        Seq::<Seq<char>>::empty()
    } else {
        seq!["dbus-daemon"@]
    })
}

/// Which required programs are missing, given which were found.
pub fn missing_pipewire_binaries(pipewire: bool, pulse: bool, bus: bool) -> (v: Vec<&'static str>)
    ensures
        v@.map_values(|s: &'static str| s@) == missing_programs(pipewire, pulse, bus),
{
    let mut v: Vec<&'static str> = Vec::new();
    if !pipewire {
        v.push("pipewire");
    }
    if !pulse {
        v.push("pipewire-pulse");
    }
    if !bus {
        v.push("dbus-daemon");
    }
    proof {
        assert(v@.map_values(|s: &'static str| s@) =~= missing_programs(pipewire, pulse, bus));
    }
    v
}

/// Whether audio can run: every required program and the library are there.
pub fn pipewire_available(pipewire: bool, pulse: bool, bus: bool, load: &Load) -> (r: bool)
    ensures
        r == (missing_programs(pipewire, pulse, bus).len() == 0 && load.stage == LoadStage::Loaded),
{
    let missing = missing_pipewire_binaries(pipewire, pulse, bus);
    proof {
        assert(missing@.len() == missing@.map_values(|s: &'static str| s@).len());
    }
    missing.len() == 0 && crate::audio_pw::available(load)
}

} // verus!
