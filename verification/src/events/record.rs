//! Records of events and their payloads.

use vstd::prelude::*;
use vstd::string::StringSliceAdditionalSpecFns;
use vstd::utf8::encode_utf8;

use crate::bytes::{
    copy_range, law_le_round_trip, le16, le32, le64, lemma_byte_range_values, lemma_le_bytes_len,
    push_bytes, push_u16, push_u32, push_u64, u32_at,
};

verus! {

/// The bytes before a record's payload: its length, kind, flags, sequence
/// number and two times.
pub const RECORD_HEADER: usize = 32;

/// The longest payload that a record can carry.
pub const MAX_PAYLOAD: usize = 0xffff_ffdf;

/// What a record is about.
#[derive(Clone, Copy)]
pub struct RecordHead {
    pub kind: u16,
    pub flags: u16,
    pub sequence: u64,
    pub monotonic_ns: u64,
    pub unix_ns: u64,
}

/// The bytes of a record.
pub open spec fn record_bytes(head: RecordHead, payload: Seq<u8>) -> Seq<u8> {
    le32((RECORD_HEADER + payload.len()) as u32) + le16(head.kind) + le16(head.flags) + le64(
        head.sequence,
    ) + le64(head.monotonic_ns) + le64(head.unix_ns) + payload
}

/// Whether bytes are one whole record: they start with their own length.
pub open spec fn whole(record: Seq<u8>) -> bool {
    record.len() >= RECORD_HEADER && u32_at(record, 0) == record.len()
}

/// A payload cut to what a record can carry.
pub open spec fn fitting(payload: Seq<u8>) -> Seq<u8> {
    if payload.len() > MAX_PAYLOAD {
        payload.take(MAX_PAYLOAD as int)
    } else {
        payload
    }
}

pub proof fn lemma_record_whole(head: RecordHead, payload: Seq<u8>)
    requires
        payload.len() <= MAX_PAYLOAD,
    ensures
        whole(record_bytes(head, payload)),
        record_bytes(head, payload).len() == RECORD_HEADER + payload.len(),
{
    let r = record_bytes(head, payload);
    let len = (RECORD_HEADER + payload.len()) as u32;
    lemma_le_bytes_len(len as nat, 4);
    lemma_le_bytes_len(head.kind as nat, 2);
    lemma_le_bytes_len(head.flags as nat, 2);
    lemma_le_bytes_len(head.sequence as nat, 8);
    lemma_le_bytes_len(head.monotonic_ns as nat, 8);
    lemma_le_bytes_len(head.unix_ns as nat, 8);
    lemma_byte_range_values();
    law_le_round_trip(len as nat, 4);
    assert(r.subrange(0, 4) =~= le32(len));
}

/// Writes a record; a payload that is too long is cut.
pub fn encode_record(head: &RecordHead, payload: &[u8]) -> (r: Vec<u8>)
    ensures
        r@ == record_bytes(*head, fitting(payload@)),
        whole(r@),
{
    let n: usize = if payload.len() > MAX_PAYLOAD {
        MAX_PAYLOAD
    } else {
        payload.len()
    };
    let body = copy_range(payload, 0, n);
    proof {
        assert(body@ =~= fitting(payload@));
        lemma_record_whole(*head, body@);
    }
    let mut r: Vec<u8> = Vec::new();
    push_u32(&mut r, (RECORD_HEADER + n) as u32);
    push_u16(&mut r, head.kind);
    push_u16(&mut r, head.flags);
    push_u64(&mut r, head.sequence);
    push_u64(&mut r, head.monotonic_ns);
    push_u64(&mut r, head.unix_ns);
    push_bytes(&mut r, body.as_slice());
    proof {
        assert(r@ =~= record_bytes(*head, body@));
    }
    r
}

/// What a stream is told of records that it missed.
pub open spec fn gap_bytes(kind: u16, lost: u64) -> Seq<u8> {
    record_bytes(
        RecordHead { kind, flags: 0, sequence: 0, monotonic_ns: 0, unix_ns: 0 },
        le64(lost),
    )
}

pub fn gap_record(kind: u16, lost: u64) -> (r: Vec<u8>)
    ensures
        r@ == gap_bytes(kind, lost),
        whole(r@),
{
    let mut body: Vec<u8> = Vec::new();
    push_u64(&mut body, lost);
    proof {
        lemma_le_bytes_len(lost as nat, 8);
        assert(body@ =~= le64(lost));
    }
    encode_record(
        &RecordHead { kind, flags: 0, sequence: 0, monotonic_ns: 0, unix_ns: 0 },
        body.as_slice(),
    )
}

/// Bytes cut to a length.
pub open spec fn cut(s: Seq<u8>, n: int) -> Seq<u8> {
    if s.len() > n {
        s.take(n)
    } else {
        s
    }
}

/// A name as a payload: its length, then its bytes, cut to what the length can
/// say.
pub open spec fn name_payload(name: Seq<char>) -> Seq<u8> {
    let bytes = cut(encode_utf8(name), 0xffff);
    le16(bytes.len() as u16) + bytes
}

pub fn payload_name(name: &str) -> (p: Vec<u8>)
    ensures
        p@ == name_payload(name@),
{
    let bytes = name.as_bytes();
    let n: usize = if bytes.len() > 0xffff {
        0xffff
    } else {
        bytes.len()
    };
    let body = copy_range(bytes, 0, n);
    let mut p: Vec<u8> = Vec::new();
    push_u16(&mut p, n as u16);
    push_bytes(&mut p, body.as_slice());
    proof {
        assert(bytes@ == encode_utf8(name@));
        assert(body@ =~= cut(encode_utf8(name@), 0xffff));
        assert(p@ =~= name_payload(name@));
    }
    p
}

pub fn payload_client(client_id: u64) -> (p: Vec<u8>)
    ensures
        p@ == le64(client_id),
{
    let mut p: Vec<u8> = Vec::new();
    push_u64(&mut p, client_id);
    proof {
        assert(p@ =~= le64(client_id));
    }
    p
}

/// A frame as a payload: whose it is, its length, then its bytes, cut to what
/// the length can say.
pub open spec fn frame_payload(client_id: u64, frame: Seq<u8>) -> Seq<u8> {
    let bytes = cut(frame, 0xffff_ffff);
    le64(client_id) + le32(bytes.len() as u32) + bytes
}

pub fn payload_frame(client_id: u64, frame: &[u8]) -> (p: Vec<u8>)
    ensures
        p@ == frame_payload(client_id, frame@),
{
    let n: usize = if frame.len() > 0xffff_ffff {
        0xffff_ffff
    } else {
        frame.len()
    };
    let body = copy_range(frame, 0, n);
    let mut p: Vec<u8> = Vec::new();
    push_u64(&mut p, client_id);
    push_u32(&mut p, n as u32);
    push_bytes(&mut p, body.as_slice());
    proof {
        assert(body@ =~= cut(frame@, 0xffff_ffff));
        assert(p@ =~= frame_payload(client_id, frame@));
    }
    p
}

} // verus!
