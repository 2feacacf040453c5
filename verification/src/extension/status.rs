//! Replies to extension requests.

use vstd::prelude::*;
use vstd::string::StringSliceAdditionalSpecFns;
use vstd::utf8::{
    decode_utf8, encode_utf8, encode_utf8_decode_utf8, is_char_boundary, encode_utf8_valid_utf8,
    is_char_boundary_start_end_of_seq,
};

use crate::extension::definition::{Definition, Snapshot};
use crate::extension::protocol::{
    spec_zero_hash, zero_hash, Flags, ObjectHash, Phase, Restart, Status,
};

verus! {

/// The reply that correlates with a request or describes a definition.
#[derive(Debug)]
pub struct StatusReply {
    pub nonce: u16,
    pub status: Status,
    pub phase: Phase,
    pub flags: Flags,
    pub restart: Restart,
    pub extension_id: u64,
    pub definition_revision: u64,
    pub attempt: u64,
    pub last_running_attempt: u64,
    pub task_id: u32,
    pub replay_from_sequence: u64,
    pub output_sequence: u64,
    pub next_start_unix_ms: u64,
    pub hash: ObjectHash,
    pub detail: String,
}

/// What a [`StatusReply`] says.
pub ghost struct StatusView {
    pub nonce: u16,
    pub status: Status,
    pub phase: Phase,
    pub flags: Flags,
    pub restart: Restart,
    pub extension_id: u64,
    pub definition_revision: u64,
    pub attempt: u64,
    pub last_running_attempt: u64,
    pub task_id: u32,
    pub replay_from_sequence: u64,
    pub output_sequence: u64,
    pub next_start_unix_ms: u64,
    pub hash: Seq<u8>,
    pub detail: Seq<char>,
}

impl View for StatusReply {
    type V = StatusView;

    open spec fn view(&self) -> StatusView {
        StatusView {
            nonce: self.nonce,
            status: self.status,
            phase: self.phase,
            flags: self.flags,
            restart: self.restart,
            extension_id: self.extension_id,
            definition_revision: self.definition_revision,
            attempt: self.attempt,
            last_running_attempt: self.last_running_attempt,
            task_id: self.task_id,
            replay_from_sequence: self.replay_from_sequence,
            output_sequence: self.output_sequence,
            next_start_unix_ms: self.next_start_unix_ms,
            hash: self.hash@,
            detail: self.detail@,
        }
    }
}

/// The last position at or before `i` where a character of `bytes` begins or
/// the text ends.
pub open spec fn boundary_at_most(bytes: Seq<u8>, i: nat) -> nat
    decreases i,
{
    if i == 0 || is_char_boundary(bytes, i as int) {
        i
    } else {
        boundary_at_most(bytes, (i - 1) as nat)
    }
}

/// `detail` where it fits in `max` bytes, else its longest prefix of whole
/// characters that does.
pub open spec fn bounded(detail: Seq<char>, max: nat) -> Seq<char> {
    let bytes = encode_utf8(detail);
    if bytes.len() <= max {
        detail
    } else {
        decode_utf8(bytes.subrange(0, boundary_at_most(bytes, max) as int))
    }
}

/// Cuts `detail` to `max` bytes without splitting a character.
pub fn bounded_detail(detail: &str, max: usize) -> (r: String)
    ensures
        r@ == bounded(detail@, max as nat),
{
    let len: usize = detail.as_bytes().len();
    if len <= max {
        return detail.to_owned();
    }
    let mut end: usize = max;
    let ghost bytes = detail.spec_bytes();
    proof {
        assert(bytes == encode_utf8(detail@));
    }
    while end > 0 && !detail.is_char_boundary(end)
        invariant
            bytes == detail.spec_bytes(),
            boundary_at_most(bytes, end as nat) == boundary_at_most(bytes, max as nat),
        decreases end,
    {
        end = end - 1;
    }
    proof {
        encode_utf8_valid_utf8(detail@);
        is_char_boundary_start_end_of_seq(bytes);
        assert(end == boundary_at_most(bytes, max as nat));
    }
    let r = detail.split_at(end).0.to_owned();
    proof {
        encode_utf8_decode_utf8(r@);
    }
    r
}

/// The reply that describes what a definition was. A task id is shown only
/// while running, and a start time only in backoff.
pub open spec fn snapshot_status(
    s: Snapshot,
    nonce: u16,
    status: Status,
    replay_from_sequence: u64,
    detail: Seq<char>,
    detail_max: nat,
) -> StatusView {
    StatusView {
        nonce,
        status,
        phase: s.phase,
        flags: s.flags,
        restart: s.restart,
        extension_id: s.extension_id,
        definition_revision: s.definition_revision,
        attempt: s.attempt,
        last_running_attempt: s.last_running_attempt,
        task_id: if s.phase == Phase::Running {
            s.task_id
        } else {
            0
        },
        replay_from_sequence,
        output_sequence: s.output_sequence,
        next_start_unix_ms: if s.phase == Phase::Backoff {
            s.next_start_unix_ms
        } else {
            0
        },
        hash: s.hash@,
        detail: bounded(detail, detail_max),
    }
}

/// The reply that describes `d` as it stands.
pub open spec fn definition_status(
    d: Definition,
    nonce: u16,
    status: Status,
    replay_from_sequence: u64,
    detail: Seq<char>,
    detail_max: nat,
) -> StatusView {
    snapshot_status(d.spec_snapshot(), nonce, status, replay_from_sequence, detail, detail_max)
}

pub fn status_packet_with_replay(
    s: &Snapshot,
    nonce: u16,
    status: Status,
    replay_from_sequence: u64,
    detail: &str,
    detail_max: usize,
) -> (r: StatusReply)
    ensures
        r@ == snapshot_status(
            *s,
            nonce,
            status,
            replay_from_sequence,
            detail@,
            detail_max as nat,
        ),
{
    StatusReply {
        nonce,
        status,
        phase: s.phase,
        flags: s.flags,
        restart: s.restart,
        extension_id: s.extension_id,
        definition_revision: s.definition_revision,
        attempt: s.attempt,
        last_running_attempt: s.last_running_attempt,
        task_id: match s.phase {
            Phase::Running => s.task_id,
            _ => 0,
        },
        replay_from_sequence,
        output_sequence: s.output_sequence,
        next_start_unix_ms: match s.phase {
            Phase::Backoff => s.next_start_unix_ms,
            _ => 0,
        },
        hash: s.hash,
        detail: bounded_detail(detail, detail_max),
    }
}

/// The reply that describes `d` as it stands.
pub fn status_packet(d: &Definition, nonce: u16, status: Status, detail: &str, detail_max: usize) -> (r:
    StatusReply)
    ensures
        r@ == definition_status(*d, nonce, status, 0, detail@, detail_max as nat),
{
    status_packet_with_replay(&d.snapshot(), nonce, status, 0, detail, detail_max)
}

/// A reply that tells nothing of a definition's progress.
pub open spec fn bare_status(
    nonce: u16,
    status: Status,
    phase: Phase,
    flags: Flags,
    restart: Restart,
    extension_id: u64,
    definition_revision: u64,
    hash: Seq<u8>,
    detail: Seq<char>,
    detail_max: nat,
) -> StatusView {
    StatusView {
        nonce,
        status,
        phase,
        flags,
        restart,
        extension_id,
        definition_revision,
        attempt: 0,
        last_running_attempt: 0,
        task_id: 0,
        replay_from_sequence: 0,
        output_sequence: 0,
        next_start_unix_ms: 0,
        hash,
        detail: bounded(detail, detail_max),
    }
}

fn bare(
    nonce: u16,
    status: Status,
    phase: Phase,
    flags: Flags,
    restart: Restart,
    extension_id: u64,
    definition_revision: u64,
    hash: ObjectHash,
    detail: &str,
    detail_max: usize,
) -> (r: StatusReply)
    ensures
        r@ == bare_status(
            nonce,
            status,
            phase,
            flags,
            restart,
            extension_id,
            definition_revision,
            hash@,
            detail@,
            detail_max as nat,
        ),
{
    StatusReply {
        nonce,
        status,
        phase,
        flags,
        restart,
        extension_id,
        definition_revision,
        attempt: 0,
        last_running_attempt: 0,
        task_id: 0,
        replay_from_sequence: 0,
        output_sequence: 0,
        next_start_unix_ms: 0,
        hash,
        detail: bounded_detail(detail, detail_max),
    }
}

/// A reply about an id that carries no definition.
pub open spec fn id_status(
    nonce: u16,
    status: Status,
    extension_id: u64,
    detail: Seq<char>,
    detail_max: nat,
) -> StatusView {
    bare_status(
        nonce,
        status,
        Phase::Absent,
        Flags::spec_none(),
        Restart::Never,
        extension_id,
        0,
        spec_zero_hash(),
        detail,
        detail_max,
    )
}

pub fn fixed_status(
    nonce: u16,
    status: Status,
    extension_id: u64,
    detail: &str,
    detail_max: usize,
) -> (r: StatusReply)
    ensures
        r@ == id_status(nonce, status, extension_id, detail@, detail_max as nat),
{
    bare(
        nonce,
        status,
        Phase::Absent,
        Flags::none(),
        Restart::Never,
        extension_id,
        0,
        zero_hash(),
        detail,
        detail_max,
    )
}

/// A refused run: nothing but the object it named and why.
pub open spec fn run_error(
    nonce: u16,
    status: Status,
    hash: Seq<u8>,
    detail: Seq<char>,
    detail_max: nat,
) -> StatusView {
    bare_status(
        nonce,
        status,
        Phase::Absent,
        Flags::spec_none(),
        Restart::Never,
        0,
        0,
        hash,
        detail,
        detail_max,
    )
}

pub fn run_error_status(
    nonce: u16,
    status: Status,
    hash: ObjectHash,
    detail: &str,
    detail_max: usize,
) -> (r: StatusReply)
    ensures
        r@ == run_error(nonce, status, hash@, detail@, detail_max as nat),
{
    bare(
        nonce,
        status,
        Phase::Absent,
        Flags::none(),
        Restart::Never,
        0,
        0,
        hash,
        detail,
        detail_max,
    )
}

/// The reply to a creation: the new definition, before any attempt.
pub open spec fn creation(d: Snapshot, nonce: u16, detail: Seq<char>, detail_max: nat) -> StatusView {
    bare_status(
        nonce,
        Status::Success,
        d.phase,
        d.flags,
        d.restart,
        d.extension_id,
        d.definition_revision,
        d.hash@,
        detail,
        detail_max,
    )
}

pub fn creation_status(d: &Snapshot, nonce: u16, detail: &str, detail_max: usize) -> (r: StatusReply)
    ensures
        r@ == creation(*d, nonce, detail@, detail_max as nat),
{
    bare(
        nonce,
        Status::Success,
        d.phase,
        d.flags,
        d.restart,
        d.extension_id,
        d.definition_revision,
        d.hash,
        detail,
        detail_max,
    )
}

/// The reply to an update: the definition under the object and restart policy
/// that the request named.
pub open spec fn update_operation(
    d: Snapshot,
    nonce: u16,
    phase: Phase,
    hash: Seq<u8>,
    restart: Restart,
    detail: Seq<char>,
    detail_max: nat,
) -> StatusView {
    bare_status(
        nonce,
        Status::Success,
        phase,
        d.flags,
        restart,
        d.extension_id,
        d.definition_revision,
        hash,
        detail,
        detail_max,
    )
}

pub fn update_operation_status(
    d: &Snapshot,
    nonce: u16,
    phase: Phase,
    hash: ObjectHash,
    restart: Restart,
    detail: &str,
    detail_max: usize,
) -> (r: StatusReply)
    ensures
        r@ == update_operation(*d, nonce, phase, hash@, restart, detail@, detail_max as nat),
{
    bare(
        nonce,
        Status::Success,
        phase,
        d.flags,
        restart,
        d.extension_id,
        d.definition_revision,
        hash,
        detail,
        detail_max,
    )
}

/// The reply to one upload chunk.
#[derive(Debug)]
pub struct PutReply {
    pub nonce: u16,
    pub status: Status,
    pub hash: ObjectHash,
    pub received: u64,
    pub detail: String,
}

/// What a [`PutReply`] says.
pub ghost struct PutView {
    pub nonce: u16,
    pub status: Status,
    pub hash: Seq<u8>,
    pub received: u64,
    pub detail: Seq<char>,
}

impl View for PutReply {
    type V = PutView;

    open spec fn view(&self) -> PutView {
        PutView {
            nonce: self.nonce,
            status: self.status,
            hash: self.hash@,
            received: self.received,
            detail: self.detail@,
        }
    }
}

pub fn put_status(
    nonce: u16,
    status: Status,
    hash: ObjectHash,
    received: u64,
    detail: &str,
    detail_max: usize,
) -> (r: PutReply)
    ensures
        r@ == (PutView {
            nonce,
            status,
            hash: hash@,
            received,
            detail: bounded(detail@, detail_max as nat),
        }),
{
    PutReply { nonce, status, hash, received, detail: bounded_detail(detail, detail_max) }
}

} // verus!
