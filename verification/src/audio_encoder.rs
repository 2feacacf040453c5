//! What the encoder does with captured audio: it collects whole frames, encodes
//! them while somebody listens, and hands them on without ever waiting.
use vstd::prelude::*;

use crate::audio::{effective_bitrate, OpusFrame, PcmBuffer, DEFAULT_BITRATE, FRAME_BYTES};

verus! {

/// What the encoder does next.
#[derive(Clone, Copy, PartialEq, Eq, Structural, Debug)]
pub enum EncodeStage {
    /// The codec is set to the first bitrate.
    Starting,
    /// It is looked whether another bitrate is asked for.
    Polling,
    /// The codec is set to another bitrate.
    Updating(i32),
    /// The next captured chunk is awaited.
    Receiving,
    /// There is a whole frame: it is looked whether anyone listens.
    Checking,
    /// The frame is encoded.
    Encoding,
    /// The packet is handed on, if there is room for it.
    Sending,
    /// The capture or the listeners' side is closed.
    Ended,
    /// The codec refused the first bitrate.
    Failed,
}

/// What became of a packet that was handed on.
#[derive(Clone, Copy, PartialEq, Eq, Structural, Debug)]
pub enum SendOutcome {
    Taken,
    Full,
    Closed,
}

/// What came of what the encoder did.
pub enum EncodeEvent {
    /// Whether the codec took the bitrate.
    BitrateSet(bool),
    /// The bitrate that is asked for, where that has changed.
    Wanted(Option<i32>),
    /// A captured chunk, or that the capture is closed.
    Captured(Option<Vec<u8>>),
    /// Whether anyone listens.
    Listening(bool),
    /// Whether the codec encoded the frame.
    Encoded(bool),
    Sent(SendOutcome),
}

pub struct FrameEncoder {
    pcm: PcmBuffer,
    frame: Vec<u8>,
    bitrate: i32,
    stage: EncodeStage,
}

/// Captured bytes that are not framed yet, the frame in hand, the bitrate of the
/// codec and what is done next.
pub ghost struct EncoderView {
    pub bytes: Seq<u8>,
    pub frame: Seq<u8>,
    pub bitrate: i32,
    pub stage: EncodeStage,
}

impl View for FrameEncoder {
    type V = EncoderView;

    closed spec fn view(&self) -> EncoderView {
        EncoderView {
            bytes: self.pcm.bytes@,
            frame: self.frame@,
            bitrate: self.bitrate,
            stage: self.stage,
        }
    }
}

/// After a chunk or a frame: the next whole frame, or else the next chunk.
pub open spec fn onward(bytes: Seq<u8>) -> EncodeStage {
    if bytes.len() >= FRAME_BYTES {
        EncodeStage::Checking
    } else {
        EncodeStage::Polling
    }
}

/// The encoder goes on with the frame behind it.
pub open spec fn frame_done(v: EncoderView) -> EncoderView {
    EncoderView { frame: Seq::empty(), stage: onward(v.bytes), ..v }
}

/// The encoder after an event. One that does not belong to what it does is
/// passed over.
pub open spec fn encode_next(v: EncoderView, e: EncodeEvent) -> EncoderView {
    match (v.stage, e) {
        (EncodeStage::Starting, EncodeEvent::BitrateSet(taken)) => EncoderView {
            stage: if taken {
                EncodeStage::Polling
            } else {
                EncodeStage::Failed
            },
            ..v
        },
        (EncodeStage::Polling, EncodeEvent::Wanted(wanted)) => EncoderView {
            stage: match wanted {
                Some(b) => if b == v.bitrate {
                    EncodeStage::Receiving
                } else {
                    EncodeStage::Updating(b)
                },
                None => EncodeStage::Receiving,
            },
            ..v
        },
        (EncodeStage::Updating(wanted), EncodeEvent::BitrateSet(taken)) => EncoderView {
            bitrate: if taken {
                wanted
            } else {
                v.bitrate
            },
            stage: EncodeStage::Receiving,
            ..v
        },
        (EncodeStage::Receiving, EncodeEvent::Captured(chunk)) => match chunk {
            Some(c) => EncoderView { bytes: v.bytes + c@, stage: onward(v.bytes + c@), ..v },
            None => EncoderView { stage: EncodeStage::Ended, ..v },
        },
        (EncodeStage::Checking, EncodeEvent::Listening(anyone)) => if anyone {
            EncoderView {
                bytes: v.bytes.skip(FRAME_BYTES as int),
                frame: v.bytes.take(FRAME_BYTES as int),
                stage: EncodeStage::Encoding,
                ..v
            }
        } else {
            frame_done(EncoderView { bytes: v.bytes.skip(FRAME_BYTES as int), ..v })
        },
        (EncodeStage::Encoding, EncodeEvent::Encoded(done)) => if done {
            EncoderView { stage: EncodeStage::Sending, ..v }
        } else {
            frame_done(v)
        },
        (EncodeStage::Sending, EncodeEvent::Sent(outcome)) => if outcome is Closed {
            EncoderView { stage: EncodeStage::Ended, ..v }
        } else {
            frame_done(v)
        },
        _ => v,
    }
}

/// Whether a frame's worth waits only where it is about to be framed, and a
/// frame is in hand exactly where it is encoded or its packet handed on.
pub open spec fn encoder_ok(v: EncoderView) -> bool {
    match v.stage {
        EncodeStage::Checking => v.bytes.len() >= FRAME_BYTES && v.frame.len() == 0,
        EncodeStage::Encoding | EncodeStage::Sending => v.frame.len() == FRAME_BYTES,
        EncodeStage::Ended => true,
        _ => v.bytes.len() < FRAME_BYTES && v.frame.len() == 0,
    }
}

impl FrameEncoder {
    /// An encoder at the bitrate that is asked for.
    pub fn new(bitrate: i32) -> (e: FrameEncoder)
        ensures
            e@ == (EncoderView {
                bytes: Seq::empty(),
                frame: Seq::empty(),
                bitrate: if bitrate > 0 {
                    bitrate
                } else {
                    DEFAULT_BITRATE
                },
                stage: EncodeStage::Starting,
            }),
            encoder_ok(e@),
    {
        FrameEncoder {
            pcm: PcmBuffer::new(),
            frame: Vec::new(),
            bitrate: effective_bitrate(bitrate),
            stage: EncodeStage::Starting,
        }
    }

    pub fn stage(&self) -> (r: EncodeStage)
        ensures
            r == self@.stage,
    {
        self.stage
    }

    /// The bitrate that the codec is at, or is first set to.
    pub fn bitrate(&self) -> (r: i32)
        ensures
            r == self@.bitrate,
    {
        self.bitrate
    }

    /// The frame in hand, as little-endian samples.
    pub fn frame(&self) -> (r: &Vec<u8>)
        ensures
            r@ == self@.frame,
    {
        &self.frame
    }

    fn finish_frame(&mut self)
        ensures
            final(self)@ == frame_done(old(self)@),
    {
        self.frame = Vec::new();
        self.stage = if self.pcm.bytes.len() >= FRAME_BYTES {
            EncodeStage::Checking
        } else {
            EncodeStage::Polling
        };
    }

    /// Goes on after an event.
    pub fn advance(&mut self, event: EncodeEvent)
        requires
            encoder_ok(old(self)@),
        ensures
            final(self)@ == encode_next(old(self)@, event),
            encoder_ok(final(self)@),
    {
        match (self.stage, event) {
            (EncodeStage::Starting, EncodeEvent::BitrateSet(taken)) => {
                self.stage = if taken {
                    EncodeStage::Polling
                } else {
                    EncodeStage::Failed
                };
            },
            (EncodeStage::Polling, EncodeEvent::Wanted(wanted)) => {
                self.stage = match wanted {
                    Some(b) => if b == self.bitrate {
                        EncodeStage::Receiving
                    } else {
                        EncodeStage::Updating(b)
                    },
                    None => EncodeStage::Receiving,
                };
            },
            (EncodeStage::Updating(wanted), EncodeEvent::BitrateSet(taken)) => {
                if taken {
                    self.bitrate = wanted;
                }
                self.stage = EncodeStage::Receiving;
            },
            (EncodeStage::Receiving, EncodeEvent::Captured(chunk)) => {
                match chunk {
                    Some(c) => {
                        assert(self.frame@ =~= Seq::empty());
                        self.pcm.push_chunk(c.as_slice());
                        self.finish_frame();
                    },
                    None => {
                        self.stage = EncodeStage::Ended;
                    },
                }
            },
            (EncodeStage::Checking, EncodeEvent::Listening(anyone)) => {
                let ghost bytes = self.pcm.bytes@;
                let next = self.pcm.next_frame();
                if let Some(frame) = next {
                    proof {
                        assert(frame@ =~= bytes.take(FRAME_BYTES as int));
                        assert(self.pcm.bytes@ =~= bytes.skip(FRAME_BYTES as int));
                    }
                    if anyone {
                        self.frame = frame;
                        self.stage = EncodeStage::Encoding;
                    } else {
                        self.finish_frame();
                    }
                }
            },
            (EncodeStage::Encoding, EncodeEvent::Encoded(done)) => {
                if done {
                    self.stage = EncodeStage::Sending;
                } else {
                    self.finish_frame();
                }
            },
            (EncodeStage::Sending, EncodeEvent::Sent(outcome)) => {
                match outcome {
                    SendOutcome::Closed => {
                        self.stage = EncodeStage::Ended;
                    },
                    SendOutcome::Taken => {
                        self.finish_frame();
                    },
                    SendOutcome::Full => {
                        self.finish_frame();
                    },
                }
            },
            _ => {},
        }
    }
}

/// A packet with its time: the milliseconds since the epoch that audio and video
/// share, in the 32 bits that the wire has for them.
pub fn encoded_frame(elapsed_ms: u64, packet: Vec<u8>) -> (f: OpusFrame)
    ensures
        f.timestamp == elapsed_ms % 0x1_0000_0000,
        f.data == packet,
{
    let timestamp: u32 = (elapsed_ms % 0x1_0000_0000) as u32;
    OpusFrame { timestamp, data: packet }
}

/// What an event brings to the captured bytes.
pub open spec fn brought(v: EncoderView, e: EncodeEvent) -> Seq<u8> {
    match (v.stage, e) {
        (EncodeStage::Receiving, EncodeEvent::Captured(Some(c))) => c@,
        _ => Seq::empty(),
    }
}

/// What an event takes from the captured bytes.
pub open spec fn taken(v: EncoderView, e: EncodeEvent) -> Seq<u8> {
    if v.stage is Checking && e is Listening {
        v.bytes.take(FRAME_BYTES as int)
    } else {
        Seq::empty()
    }
}

/// Captured bytes are framed in their order, whole frames at a time, and none is
/// lost or framed twice; a frame is encoded only while somebody listens, and
/// taken away all the same while nobody does.
pub proof fn law_capture_is_framed_in_order(v: EncoderView, e: EncodeEvent)
    requires
        encoder_ok(v),
    ensures
        encoder_ok(encode_next(v, e)),
        v.bytes + brought(v, e) == taken(v, e) + encode_next(v, e).bytes,
        taken(v, e).len() == 0 || taken(v, e).len() == FRAME_BYTES,
        encode_next(v, e).stage is Encoding && !(v.stage is Encoding) ==> e
            == EncodeEvent::Listening(true) && encode_next(v, e).frame == taken(v, e),
{
    let n = encode_next(v, e);
    assert(v.bytes + brought(v, e) =~= taken(v, e) + n.bytes);
}

/// Neither a frame that the codec refuses nor one that finds no room ends the
/// encoder: it ends when the capture or the listeners' side is closed, and fails
/// only where the codec refuses the first bitrate.
pub proof fn law_lost_frame_does_not_end_the_encoder(v: EncoderView, e: EncodeEvent)
    requires
        !(v.stage is Ended),
        !(v.stage is Failed),
    ensures
        encode_next(v, e).stage is Ended ==> e == EncodeEvent::Captured(None) || e
            == EncodeEvent::Sent(SendOutcome::Closed),
        encode_next(v, e).stage is Failed ==> v.stage is Starting && e
            == EncodeEvent::BitrateSet(false),
{
}

/// While nobody listens nothing is encoded, and less than a frame is ever kept
/// until the next chunk.
pub proof fn law_unheard_capture_does_not_pile_up(v: EncoderView)
    requires
        encoder_ok(v),
        v.stage is Checking,
    ensures
        ({
            let n = encode_next(v, EncodeEvent::Listening(false));
            &&& n.bytes.len() == v.bytes.len() - FRAME_BYTES
            &&& n.stage is Checking || n.stage is Polling && n.bytes.len() < FRAME_BYTES
        }),
{
}

} // verus!
