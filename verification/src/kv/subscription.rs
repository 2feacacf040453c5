//! One prefix subscription: what is queued while its snapshot goes out, what it
//! has not acknowledged, and when it is given up.

use vstd::prelude::*;

use crate::bytes::{byte_seqs, copy_range, le16, le32, push_bytes, push_u16, push_u32};

verus! {

/// The shortest frame of an update: a kind, the subscription's id and the
/// update's.
pub const UPDATE_HEADER: usize = 7;

/// Where a subscription stands. Updates that come while its snapshot goes out
/// are queued, so that they follow it.
pub enum SubPhase {
    Snapshotting(Vec<Vec<u8>>),
    Live,
}

/// One subscription.
pub struct SubEntry {
    pub kv_id: u16,
    pub prefix: String,
    pub inline_max: u32,
    /// How many bytes may be sent and not acknowledged.
    pub unacked_max: u64,
    /// Whether its connection still takes messages.
    pub connected: bool,
    /// The id of the last update.
    pub update_id: u32,
    pub phase: SubPhase,
    /// The updates that are not acknowledged, each with its length.
    pub unacked: Vec<(u32, u64)>,
    pub unacked_bytes: u64,
    /// Whether it was given up.
    pub closed: bool,
}

/// What a [`SubEntry`] is.
pub ghost struct SubView {
    pub kv_id: u16,
    pub prefix: Seq<char>,
    pub inline_max: u32,
    pub unacked_max: u64,
    pub connected: bool,
    pub update_id: u32,
    /// The queued updates, while the snapshot goes out.
    pub pending: Option<Seq<Seq<u8>>>,
    pub unacked: Seq<(u32, u64)>,
    pub closed: bool,
}

impl View for SubEntry {
    type V = SubView;

    open spec fn view(&self) -> SubView {
        SubView {
            kv_id: self.kv_id,
            prefix: self.prefix@,
            inline_max: self.inline_max,
            unacked_max: self.unacked_max,
            connected: self.connected,
            update_id: self.update_id,
            pending: match self.phase {
                SubPhase::Snapshotting(v) => Some(byte_seqs(v@)),
                SubPhase::Live => None,
            },
            unacked: self.unacked@,
            closed: self.closed,
        }
    }
}

/// What a subscription sends.
pub enum Sent {
    Update(Vec<u8>),
    /// It was given up because too much is not acknowledged.
    Closed { kv_id: u16 },
}

/// What a [`Sent`] says.
pub ghost enum SentView {
    Update(Seq<u8>),
    Closed { kv_id: u16 },
}

impl View for Sent {
    type V = SentView;

    open spec fn view(&self) -> SentView {
        match self {
            Sent::Update(m) => SentView::Update(m@),
            Sent::Closed { kv_id } => SentView::Closed { kv_id: *kv_id },
        }
    }
}

pub open spec fn sent_views(v: Seq<Sent>) -> Seq<SentView> {
    Seq::new(v.len(), |i: int| v[i]@)
}

/// The bytes that are not acknowledged.
pub open spec fn window(unacked: Seq<(u32, u64)>) -> nat
    decreases unacked.len(),
{
    if unacked.len() == 0 {
        0
    } else {
        window(unacked.drop_last()) + unacked.last().1 as nat
    }
}

/// The id after `id`.
pub open spec fn next_id(id: u32) -> u32 {
    if id == u32::MAX {
        0
    } else {
        (id + 1) as u32
    }
}

/// A frame with its update's id written in.
pub open spec fn stamped(msg: Seq<u8>, id: u32) -> Seq<u8> {
    msg.subrange(0, 3) + le32(id) + msg.subrange(7, msg.len() as int)
}

/// A frame with its subscription's id written in.
pub open spec fn addressed(msg: Seq<u8>, kv_id: u16) -> Seq<u8> {
    msg.subrange(0, 1) + le16(kv_id) + msg.subrange(3, msg.len() as int)
}

/// What a step of a subscription comes to: what it is then, what it sends, and
/// whether it goes on.
pub ghost struct Outcome {
    pub sub: SubView,
    pub sent: Seq<SentView>,
    pub ok: bool,
}

/// Sends one update under the next id, or gives the subscription up where too
/// much would not be acknowledged.
pub open spec fn charged(s: SubView, msg: Seq<u8>) -> Outcome {
    if window(s.unacked) + msg.len() > s.unacked_max {
        Outcome {
            sub: SubView { closed: true, ..s },
            sent: if s.connected {
                seq![SentView::Closed { kv_id: s.kv_id }]
            } else {
                Seq::empty()
            },
            ok: false,
        }
    } else {
        let id = next_id(s.update_id);
        Outcome {
            sub: SubView {
                update_id: id,
                unacked: s.unacked.push((id, msg.len() as u64)),
                ..s
            },
            sent: if s.connected {
                seq![SentView::Update(stamped(msg, id))]
            } else {
                Seq::empty()
            },
            ok: s.connected,
        }
    }
}

/// Delivers one update: it is queued while the snapshot goes out.
pub open spec fn delivered(s: SubView, msg: Seq<u8>) -> Outcome {
    if s.closed {
        Outcome { sub: s, sent: Seq::empty(), ok: false }
    } else {
        match s.pending {
            Some(q) => Outcome {
                sub: SubView { pending: Some(q.push(msg)), ..s },
                sent: Seq::empty(),
                ok: true,
            },
            None => charged(s, msg),
        }
    }
}

/// Sends updates in order until one does not go out.
pub open spec fn flushed(s: SubView, queue: Seq<Seq<u8>>) -> Outcome
    decreases queue.len(),
{
    if queue.len() == 0 || s.closed {
        Outcome { sub: s, sent: Seq::empty(), ok: true }
    } else {
        let one = charged(s, queue[0]);
        if !one.ok {
            one
        } else {
            let rest = flushed(one.sub, queue.subrange(1, queue.len() as int));
            Outcome { sub: rest.sub, sent: one.sent + rest.sent, ok: rest.ok }
        }
    }
}

/// What was queued goes out, and the subscription is live.
pub open spec fn gone_live(s: SubView) -> Outcome {
    let queue = match s.pending {
        Some(q) => q,
        None => Seq::empty(),
    };
    flushed(SubView { pending: None, ..s }, queue)
}

/// The updates that stay unacknowledged after everything through `id` was
/// acknowledged.
pub open spec fn after_ack(unacked: Seq<(u32, u64)>, id: u32) -> Seq<(u32, u64)>
    decreases unacked.len(),
{
    if unacked.len() == 0 || unacked[0].0 > id {
        unacked
    } else {
        after_ack(unacked.subrange(1, unacked.len() as int), id)
    }
}

proof fn lemma_window_front(unacked: Seq<(u32, u64)>)
    requires
        unacked.len() > 0,
    ensures
        window(unacked) == unacked[0].1 + window(unacked.subrange(1, unacked.len() as int)),
    decreases unacked.len(),
{
    let rest = unacked.subrange(1, unacked.len() as int);
    if unacked.len() == 1 {
        assert(unacked.drop_last() =~= Seq::empty());
        assert(rest =~= Seq::empty());
    } else {
        lemma_window_front(unacked.drop_last());
        assert(unacked.drop_last().subrange(1, unacked.len() - 1) =~= rest.drop_last());
        assert(rest.last() == unacked.last());
    }
}

fn stamp(msg: &Vec<u8>, id: u32) -> (out: Vec<u8>)
    requires
        msg@.len() >= UPDATE_HEADER,
    ensures
        out@ == stamped(msg@, id),
{
    let mut out: Vec<u8> = copy_range(msg.as_slice(), 0, 3);
    push_u32(&mut out, id);
    let tail = copy_range(msg.as_slice(), 7, msg.len());
    push_bytes(&mut out, tail.as_slice());
    out
}

/// A copy of a frame for one subscription.
pub fn address(msg: &Vec<u8>, kv_id: u16) -> (out: Vec<u8>)
    requires
        msg@.len() >= UPDATE_HEADER,
    ensures
        out@ == addressed(msg@, kv_id),
        out@.len() == msg@.len(),
{
    let mut out: Vec<u8> = copy_range(msg.as_slice(), 0, 1);
    push_u16(&mut out, kv_id);
    let tail = copy_range(msg.as_slice(), 3, msg.len());
    push_bytes(&mut out, tail.as_slice());
    proof {
        lemma_le16_len(kv_id);
    }
    out
}

proof fn lemma_le16_len(v: u16)
    ensures
        le16(v).len() == 2,
{
    crate::bytes::lemma_le_bytes_len(v as nat, 2);
}

impl SubEntry {
    /// What is unacknowledged is counted, and within bounds; every queued frame
    /// has room for its ids.
    pub open spec fn wf(self) -> bool {
        &&& self.unacked_bytes as nat == window(self.unacked@)
        &&& self.unacked_bytes <= self.unacked_max
        &&& self.phase matches SubPhase::Snapshotting(v) ==> forall|i: int|
            0 <= i < v@.len() ==> (#[trigger] v@[i])@.len() >= UPDATE_HEADER
    }

    pub fn new(kv_id: u16, prefix: String, inline_max: u32, unacked_max: u64) -> (s: SubEntry)
        ensures
            s.wf(),
            s@ == (SubView {
                kv_id,
                prefix: prefix@,
                inline_max,
                unacked_max,
                connected: true,
                update_id: 0,
                pending: Some(Seq::empty()),
                unacked: Seq::empty(),
                closed: false,
            }),
    {
        let s = SubEntry {
            kv_id,
            prefix,
            inline_max,
            unacked_max,
            connected: true,
            update_id: 0,
            phase: SubPhase::Snapshotting(Vec::new()),
            unacked: Vec::new(),
            unacked_bytes: 0,
            closed: false,
        };
        proof {
            assert(s@.pending->0 =~= Seq::<Seq<u8>>::empty());
            assert(s@.unacked =~= Seq::<(u32, u64)>::empty());
        }
        s
    }

    /// The longest value that an update of this subscription carries; none
    /// given means any.
    pub open spec fn spec_inline_limit(self) -> u64 {
        if self.inline_max == 0 {
            u64::MAX
        } else {
            self.inline_max as u64
        }
    }

    pub fn inline_limit(&self) -> (n: u64)
        ensures
            n == self.spec_inline_limit(),
    {
        if self.inline_max == 0 {
            u64::MAX
        } else {
            self.inline_max as u64
        }
    }

    /// Sends one update, or gives the subscription up.
    fn charge_and_send(&mut self, msg: Vec<u8>) -> (r: (bool, Option<Sent>))
        requires
            old(self).wf(),
            msg@.len() >= UPDATE_HEADER,
        ensures
            final(self).wf(),
            final(self)@ == charged(old(self)@, msg@).sub,
            r.0 == charged(old(self)@, msg@).ok,
            one_sent(r.1) == charged(old(self)@, msg@).sent,
            final(self).phase == old(self).phase,
    {
        let len: u64 = msg.len() as u64;
        let over: bool = match self.unacked_bytes.checked_add(len) {
            Some(total) => total > self.unacked_max,
            None => true,
        };
        if over {
            self.closed = true;
            if self.connected {
                return (false, Some(Sent::Closed { kv_id: self.kv_id }));
            }
            proof {
                assert(one_sent(None) =~= Seq::empty());
            }
            return (false, None);
        }
        let id: u32 = self.update_id.wrapping_add(1);
        let ghost before = self.unacked@;
        self.update_id = id;
        self.unacked_bytes = self.unacked_bytes + len;
        self.unacked.push((id, len));
        proof {
            assert(self.unacked@.drop_last() =~= before);
        }
        if self.connected {
            (true, Some(Sent::Update(stamp(&msg, id))))
        } else {
            (false, None)
        }
    }

    /// Delivers one update, whose frame already names this subscription.
    pub fn deliver(&mut self, msg: Vec<u8>) -> (r: (bool, Option<Sent>))
        requires
            old(self).wf(),
            msg@.len() >= UPDATE_HEADER,
        ensures
            final(self).wf(),
            final(self)@ == delivered(old(self)@, msg@).sub,
            r.0 == delivered(old(self)@, msg@).ok,
            one_sent(r.1) == delivered(old(self)@, msg@).sent,
    {
        if self.closed {
            return (false, None);
        }
        let ghost before = self@;
        let ghost m = msg@;
        let queue: bool = match self.phase {
            SubPhase::Snapshotting(_) => true,
            SubPhase::Live => false,
        };
        if queue {
            let mut taken: SubPhase = SubPhase::Live;
            std::mem::swap(&mut self.phase, &mut taken);
            match taken {
                SubPhase::Snapshotting(v) => {
                    let mut v = v;
                    let ghost q = v@;
                    v.push(msg);
                    proof {
                        assert(byte_seqs(v@) =~= byte_seqs(q).push(m));
                    }
                    self.phase = SubPhase::Snapshotting(v);
                },
                SubPhase::Live => {},
            }
            return (true, None);
        }
        self.charge_and_send(msg)
    }

    /// Sends one chunk of the snapshot, before the subscription is live.
    pub fn send_chunk(&mut self, msg: Vec<u8>) -> (r: (bool, Option<Sent>))
        requires
            old(self).wf(),
            msg@.len() >= UPDATE_HEADER,
        ensures
            final(self).wf(),
            old(self).closed ==> *final(self) == *old(self) && !r.0 && r.1 is None,
            !old(self).closed ==> final(self)@ == charged(old(self)@, msg@).sub && r.0 == charged(
                old(self)@,
                msg@,
            ).ok && one_sent(r.1) == charged(old(self)@, msg@).sent,
            final(self).phase == old(self).phase,
    {
        if self.closed {
            return (false, None);
        }
        self.charge_and_send(msg)
    }

    /// Sends frames in order until one does not go out.
    fn flush(&mut self, queue: Vec<Vec<u8>>) -> (out: Vec<Sent>)
        requires
            old(self).wf(),
            forall|i: int| 0 <= i < queue@.len() ==> (#[trigger] queue@[i])@.len() >= UPDATE_HEADER,
        ensures
            final(self).wf(),
            final(self)@ == flushed(old(self)@, byte_seqs(queue@)).sub,
            sent_views(out@) == flushed(old(self)@, byte_seqs(queue@)).sent,
            final(self).phase == old(self).phase,
        decreases queue@.len(),
    {
        let ghost start = self@;
        let ghost all = byte_seqs(queue@);
        let mut out: Vec<Sent> = Vec::new();
        if queue.len() == 0 || self.closed {
            proof {
                assert(sent_views(out@) =~= Seq::empty());
            }
            return out;
        }
        let mut queue = queue;
        let first = queue.remove(0);
        proof {
            assert(first@ == all[0]);
            assert(byte_seqs(queue@) =~= all.subrange(1, all.len() as int));
        }
        let (ok, sent) = self.charge_and_send(first);
        match sent {
            Some(s) => {
                out.push(s);
            },
            None => {},
        }
        proof {
            assert(sent_views(out@) =~= charged(start, all[0]).sent);
        }
        if !ok {
            return out;
        }
        let rest = self.flush(queue);
        let ghost head = sent_views(out@);
        let ghost tail = sent_views(rest@);
        let mut rest = rest;
        out.append(&mut rest);
        proof {
            assert(sent_views(out@) =~= head + tail);
        }
        out
    }

    /// Sends a whole snapshot, then what was queued meanwhile, and goes live.
    pub fn open_with(&mut self, snapshot: Vec<Vec<u8>>) -> (out: Vec<Sent>)
        requires
            old(self).wf(),
            forall|i: int|
                0 <= i < snapshot@.len() ==> (#[trigger] snapshot@[i])@.len() >= UPDATE_HEADER,
        ensures
            final(self).wf(),
            ({
                let a = flushed(old(self)@, byte_seqs(snapshot@));
                let b = gone_live(a.sub);
                &&& final(self)@ == b.sub
                &&& sent_views(out@) == a.sent + b.sent
            }),
    {
        let mut out = self.flush(snapshot);
        let ghost head = sent_views(out@);
        let mut rest = self.go_live();
        let ghost tail = sent_views(rest@);
        out.append(&mut rest);
        proof {
            assert(sent_views(out@) =~= head + tail);
        }
        out
    }

    /// What was queued during the snapshot goes out, and the subscription is
    /// live.
    pub fn go_live(&mut self) -> (out: Vec<Sent>)
        requires
            old(self).wf(),
        ensures
            final(self).wf(),
            final(self)@ == gone_live(old(self)@).sub,
            sent_views(out@) == gone_live(old(self)@).sent,
    {
        let mut taken: SubPhase = SubPhase::Live;
        std::mem::swap(&mut self.phase, &mut taken);
        let queue: Vec<Vec<u8>> = match taken {
            SubPhase::Snapshotting(v) => v,
            SubPhase::Live => Vec::new(),
        };
        proof {
            if old(self).phase is Live {
                assert(byte_seqs(queue@) =~= Seq::empty());
            }
        }
        self.flush(queue)
    }

    /// Everything through `update_id` is acknowledged.
    pub fn ack(&mut self, update_id: u32)
        requires
            old(self).wf(),
        ensures
            final(self).wf(),
            final(self)@ == (SubView {
                unacked: after_ack(old(self)@.unacked, update_id),
                ..old(self)@
            }),
    {
        let ghost start = *self;
        while self.unacked.len() > 0 && self.unacked[0].0 <= update_id
            invariant
                self.wf(),
                self@ == (SubView { unacked: self@.unacked, ..start@ }),
                self.phase == start.phase,
                after_ack(self.unacked@, update_id) == after_ack(start.unacked@, update_id),
            decreases self.unacked@.len(),
        {
            let ghost before = self.unacked@;
            proof {
                lemma_window_front(before);
            }
            let (_, len) = self.unacked.remove(0);
            proof {
                assert(self.unacked@ =~= before.subrange(1, before.len() as int));
            }
            self.unacked_bytes = self.unacked_bytes - len;
        }
    }

    pub fn is_closed(&self) -> (r: bool)
        ensures
            r == self@.closed,
    {
        self.closed
    }
}

/// What a message, if there is one, says.
pub open spec fn one_sent(s: Option<Sent>) -> Seq<SentView> {
    match s {
        Some(x) => seq![x@],
        None => Seq::empty(),
    }
}

/// A subscription that was given up stays so and sends nothing more.
pub proof fn law_closed_is_silent(s: SubView, msg: Seq<u8>)
    requires
        s.closed,
    ensures
        delivered(s, msg).sub == s,
        delivered(s, msg).sent.len() == 0,
        !delivered(s, msg).ok,
        gone_live(s).sub.closed,
        gone_live(s).sent.len() == 0,
{
}

/// The id `n` after `id`.
pub open spec fn nth_id(id: u32, n: nat) -> u32 {
    ((id + n) % 0x1_0000_0000) as u32
}

/// What frames weigh.
pub open spec fn frame_bytes(queue: Seq<Seq<u8>>) -> nat
    decreases queue.len(),
{
    if queue.len() == 0 {
        0
    } else {
        queue[0].len() + frame_bytes(queue.subrange(1, queue.len() as int))
    }
}

/// Frames as they go out after the update `id`.
pub open spec fn numbered(queue: Seq<Seq<u8>>, id: u32) -> Seq<SentView> {
    Seq::new(
        queue.len(),
        |i: int| SentView::Update(stamped(queue[i], nth_id(id, (i + 1) as nat))),
    )
}

/// Frames that fit all go out, in order, under consecutive ids.
proof fn lemma_flush_numbers(s: SubView, queue: Seq<Seq<u8>>)
    requires
        !s.closed,
        s.connected,
        window(s.unacked) + frame_bytes(queue) <= s.unacked_max,
    ensures
        flushed(s, queue).sent == numbered(queue, s.update_id),
        flushed(s, queue).sub == (SubView {
            update_id: nth_id(s.update_id, queue.len()),
            unacked: flushed(s, queue).sub.unacked,
            ..s
        }),
        window(flushed(s, queue).sub.unacked) == window(s.unacked) + frame_bytes(queue),
    decreases queue.len(),
{
    if queue.len() == 0 {
        assert(flushed(s, queue).sent =~= numbered(queue, s.update_id));
    } else {
        let one = charged(s, queue[0]);
        let rest = queue.subrange(1, queue.len() as int);
        assert(one.sub.unacked.drop_last() =~= s.unacked);
        assert(next_id(s.update_id) == nth_id(s.update_id, 1));
        lemma_flush_numbers(one.sub, rest);
        assert forall|i: int| 0 <= i < rest.len() implies #[trigger] nth_id(
            one.sub.update_id,
            (i + 1) as nat,
        ) == nth_id(s.update_id, (i + 2) as nat) by {
            lemma_ids_add(s.update_id, (i + 1) as nat);
        }
        lemma_ids_add(s.update_id, rest.len());
        assert(flushed(s, queue).sent =~= numbered(queue, s.update_id));
    }
}

proof fn lemma_ids_add(id: u32, n: nat)
    ensures
        nth_id(next_id(id), n) == nth_id(id, n + 1),
{
    if id == u32::MAX {
        assert((0 + n) % 0x1_0000_0000 == (id + (n + 1)) % 0x1_0000_0000) by (nonlinear_arith)
            requires
                id == 0xffff_ffff,
        ;
    }
}

/// What a subscriber is sent is the whole snapshot, then every update that came
/// meanwhile in the order in which it came, under consecutive ids, as long as
/// all of it may be unacknowledged.
pub proof fn law_updates_follow_the_snapshot(
    s: SubView,
    snapshot: Seq<Seq<u8>>,
    queue: Seq<Seq<u8>>,
)
    requires
        !s.closed,
        s.connected,
        s.pending == Some(queue),
        window(s.unacked) + frame_bytes(snapshot) + frame_bytes(queue) <= s.unacked_max,
    ensures
        ({
            let a = flushed(s, snapshot);
            let b = gone_live(a.sub);
            &&& a.sent + b.sent == numbered(snapshot + queue, s.update_id)
            &&& !b.sub.closed
            &&& b.sub.pending is None
        }),
{
    lemma_flush_numbers(s, snapshot);
    let a = flushed(s, snapshot);
    let live = SubView { pending: None, ..a.sub };
    lemma_flush_numbers(live, queue);
    assert forall|i: int| 0 <= i < queue.len() implies #[trigger] nth_id(
        a.sub.update_id,
        (i + 1) as nat,
    ) == nth_id(s.update_id, (snapshot.len() + i + 1) as nat) by {
        let id = s.update_id;
        let m = snapshot.len();
        assert(((id + m) % 0x1_0000_0000 + (i + 1)) % 0x1_0000_0000 == (id + (m + i + 1))
            % 0x1_0000_0000) by (nonlinear_arith);
    }
    assert(a.sent + gone_live(a.sub).sent =~= numbered(snapshot + queue, s.update_id));
}

/// An update that would exceed what may be unacknowledged is withheld, and the
/// subscription is given up instead, once.
pub proof fn law_breach_closes(s: SubView, msg: Seq<u8>)
    requires
        !s.closed,
        s.connected,
        s.pending is None,
        window(s.unacked) + msg.len() > s.unacked_max,
    ensures
        delivered(s, msg).sub.closed,
        delivered(s, msg).sent == seq![SentView::Closed { kv_id: s.kv_id }],
        delivered(s, msg).sub.unacked == s.unacked,
        delivered(s, msg).sub.update_id == s.update_id,
{
}

/// Acknowledging what was sent last frees the whole window, so that a
/// subscriber that acknowledges is never given up for it.
pub proof fn law_ack_frees_the_window(unacked: Seq<(u32, u64)>, id: u32)
    requires
        forall|i: int| 0 <= i < unacked.len() ==> (#[trigger] unacked[i]).0 <= id,
    ensures
        after_ack(unacked, id).len() == 0,
        window(after_ack(unacked, id)) == 0,
    decreases unacked.len(),
{
    if unacked.len() > 0 {
        let rest = unacked.subrange(1, unacked.len() as int);
        assert forall|i: int| 0 <= i < rest.len() implies (#[trigger] rest[i]).0 <= id by {
            assert(rest[i] == unacked[i + 1]);
        }
        law_ack_frees_the_window(rest, id);
    }
}

} // verus!
