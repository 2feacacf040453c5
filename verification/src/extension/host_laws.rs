//! What holds of how requests are told apart and answered, of how the service starts, and
//! of how programs are run.

use vstd::prelude::*;
use vstd::utf8::encode_utf8;

use crate::bytes::{le16, le64, lemma_byte_range_values, lemma_le_bytes_len};
use crate::channel::fabric::ListenerSnapshot;
use crate::extension::announce::{speaks_for, Identity};
use crate::extension::config::{
    as_ms, from_catalog, host_running_default, object_block, started_up, startup_fault,
};
use crate::extension::config::{StartupObject, Stored};
use crate::extension::definition::Definition;
use crate::extension::dispatch::{
    decode_reply, disabled_reply, field16, field64, field_hash, listens, owns, registration_answer,
    spec_lane,
};
use crate::extension::dispatch::{
    Addressed, CommandListener, CommandOwner, Lane, Opcodes, RegisterOutcome, ReplyView, Sent,
};
use crate::extension::exit::{AttemptOutcome, FailureKind};
use crate::extension::protocol::{ObjectHash, Phase, Status};
use crate::extension::quickjs_host::{
    check_spawn, context_of, ended_as, exit_code, handoff_after, random_length, setup_of, stack_bounded, start_of,
    step_failure, wait_code,
};
use crate::extension::quickjs_host::{
    AttemptSpec, AttemptState, Exported, GuestInfo, Handoff, LifecycleError, PrepareStep, SeenView,
    SpawnError, WaitOutcome, WasmiHostConfig,
};
use crate::extension::service::Service;
use crate::random::Draw;

verus! {

/// While extensions are off every request is answered that it is not permitted, under its
/// own number and in the form that it expects; an event is not answered.
pub proof fn law_requests_while_off(
    nonce: u16,
    hash: ObjectHash,
    id: u64,
    detail: Seq<char>,
    max: nat,
)
    ensures
        disabled_reply(Addressed::Event, detail, max) is None,
        disabled_reply(Addressed::Run { nonce, hash }, detail, max) matches Some(
            ReplyView::Status(s),
        ) && s.nonce == nonce && s.status == Status::Permission && s.hash == hash@,
        disabled_reply(Addressed::Control { nonce, extension_id: id }, detail, max) matches Some(
            ReplyView::Status(s),
        ) && s.nonce == nonce && s.status == Status::Permission && s.extension_id == id,
        disabled_reply(Addressed::List { nonce }, detail, max) == Some(
            ReplyView::List { nonce, status: Status::Permission },
        ),
        disabled_reply(Addressed::Put { nonce, hash }, detail, max) matches Some(ReplyView::Put(p))
            && p.nonce == nonce && p.status == Status::Permission && p.hash == hash@ && p.received
            == 0,
        disabled_reply(Addressed::CommandRegister { nonce }, detail, max) matches Some(
            ReplyView::Registered { nonce: n, status, .. },
        ) && n == nonce && status == Status::Permission,
        disabled_reply(Addressed::CommandDiscover { nonce }, detail, max) == Some(
            ReplyView::Commands { nonce, status: Status::Permission },
        ),
{
}

/// A field is read where the packet holds it, and else nothing of it is.
pub proof fn law_fields_are_read(front: Seq<u8>, n: u16, m: u64, hash: Seq<u8>, rest: Seq<u8>)
    requires
        hash.len() == 32,
    ensures
        field16(front + le16(n) + rest, front.len()) == n,
        field64(front + le64(m) + rest, front.len()) == m,
        field_hash(front + hash + rest, front.len()) == hash,
        field16(front, front.len()) == 0,
        field64(front, front.len()) == 0,
        forall|i: int| 0 <= i < 32 ==> #[trigger] field_hash(front, front.len())[i] == 0,
{
    lemma_byte_range_values();
    lemma_le_bytes_len(n as nat, 2);
    lemma_le_bytes_len(m as nat, 8);
    crate::bytes::law_le_round_trip(n as nat, 2);
    crate::bytes::law_le_round_trip(m as nat, 8);
    let at = front.len() as int;
    assert((front + le16(n) + rest).subrange(at, at + 2) =~= le16(n));
    assert((front + le64(m) + rest).subrange(at, at + 8) =~= le64(m));
    assert((front + hash + rest).subrange(at, at + 32) =~= hash);
}

/// A packet that cannot be read is answered as invalid, in the form that its first bytes
/// ask for and with the number that they hold; an event and what nobody knows are not
/// answered.
pub proof fn law_unreadable_packets_are_answered(
    packet: Seq<u8>,
    codes: Opcodes,
    detail: Seq<char>,
    max: nat,
)
    requires
        packet.len() > 0,
        codes.event != codes.run,
        codes.event != codes.put,
        codes.event != codes.control,
        codes.event != codes.command,
        codes.run != codes.put,
        codes.run != codes.control,
        codes.run != codes.command,
        codes.put != codes.control,
        codes.put != codes.command,
        codes.control != codes.command,
    ensures
        ({
            let r = decode_reply(packet, codes, detail, max);
            let known = packet[0] == codes.run || packet[0] == codes.put || packet[0]
                == codes.control || packet[0] == codes.command;
            &&& r is None <==> !known
            &&& packet[0] == codes.run ==> (r matches Some(ReplyView::Status(s)) && s.status
                == Status::Invalid && s.nonce == field16(packet, 1) && s.hash == field_hash(
                packet,
                21,
            ) && s.extension_id == 0)
            &&& packet[0] == codes.put ==> (r matches Some(ReplyView::Put(p)) && p.status
                == Status::Invalid && p.nonce == field16(packet, 1) && p.hash == field_hash(
                packet,
                4,
            ) && p.received == 0)
            &&& packet[0] == codes.control ==> (r matches Some(ReplyView::Status(s)) && s.status
                == Status::Invalid && s.nonce == field16(packet, 1) && s.extension_id == field64(
                packet,
                3,
            ))
            &&& packet[0] == codes.command && packet.len() >= 2 && packet[1]
                == codes.command_register ==> (r matches Some(
                ReplyView::Registered { nonce, status, .. },
            ) && status == Status::Invalid && nonce == field16(packet, 2))
            &&& packet[0] == codes.command && !(packet.len() >= 2 && packet[1]
                == codes.command_register) ==> (r matches Some(
                ReplyView::Commands { nonce, status },
            ) && status == Status::Invalid && nonce == field16(packet, 2))
        }),
{
}

/// Where a message is worked on: a run as a job unless it is refused without looking,
/// an upload in a line of its own, and everything else at once; and everything at once
/// where extensions are off.
pub proof fn law_lanes(persist_allowed: bool, persist: bool, text: bool, begin: bool, last: bool, m: Sent)
    ensures
        spec_lane(false, persist_allowed, m) == Lane::Inline,
        spec_lane(true, persist_allowed, Sent::Other) == Lane::Inline,
        spec_lane(true, persist_allowed, Sent::Put { begin, last }) == Lane::OrderedJob,
        spec_lane(true, persist_allowed, Sent::Run { persist, text }) == (if persist && (
        !persist_allowed || !text) {
            Lane::Inline
        } else {
            Lane::Job
        }),
{
}

/// A command is served by the listener that it was registered with: the same endpoint in
/// the same life, the same channel and the same listener on it.
pub proof fn law_command_listeners(
    l: CommandListener,
    endpoint_generation: u64,
    snapshot: ListenerSnapshot,
)
    requires
        listens(l, endpoint_generation, snapshot),
    ensures
        l.endpoint_id == snapshot.endpoint && l.endpoint_generation == endpoint_generation
            && l.listener_id == snapshot.channel_id && l.listener_generation == snapshot.generation
            && l.name == snapshot.name && l.token == snapshot.token,
{
}

/// A registration that was published says so and of what; one that was refused says why
/// and of what it was asked; and one that was overtaken says what it found.
pub proof fn law_registrations_are_answered(
    nonce: u16,
    target: (u64, u64),
    status: Status,
    detail: String,
    id: u64,
    revision: u64,
    max: nat,
)
    requires
        encode_utf8(detail@).len() <= max,
    ensures
        registration_answer(nonce, target, RegisterOutcome::Refused { status, detail }, max) == (
        ReplyView::Registered {
            nonce,
            status,
            extension_id: target.0,
            definition_revision: target.1,
            detail: detail@,
        }),
        registration_answer(
            nonce,
            target,
            RegisterOutcome::Overtaken {
                extension_id: id,
                definition_revision: revision,
                status,
                detail,
            },
            max,
        ) == (ReplyView::Registered {
            nonce,
            status,
            extension_id: id,
            definition_revision: revision,
            detail: detail@,
        }),
        registration_answer(
            nonce,
            target,
            RegisterOutcome::Published { extension_id: id, definition_revision: revision },
            max,
        ) matches ReplyView::Registered {
            nonce: n,
            status: s,
            extension_id: e,
            definition_revision: r,
            ..
        } && n == nonce && s == Status::Success && e == id && r == revision,
{
}

/// The owner of a command is the attempt that registers it; it is the one that runs where
/// the definition runs at that revision and is controlled by that attempt and task.
pub proof fn law_command_owners(
    o: CommandOwner,
    d: Definition,
    endpoint: u64,
    generation: u64,
    who: Identity,
)
    requires
        owns(o, d, endpoint, generation, who),
    ensures
        o.endpoint_id == endpoint && o.endpoint_generation == generation,
        o.extension_id == d.extension_id && o.definition_revision == d.definition_revision
            && o.attempt == who.attempt && o.hash == d.hash && o.name@ == d.name@,
        o.persistent == d.flags.persist && o.enabled == d.flags.enabled,
        o.running <==> d.phase == Phase::Running && d.definition_revision
            == who.definition_revision && d.control is Some && d.control->0.attempt == who.attempt
            && d.control->0.task_id == who.task_id,
{
}

/// A connection speaks for a definition only where that is controlled by the very attempt
/// and task that the connection belongs to.
pub proof fn law_who_speaks(d: Definition, who: Identity)
    ensures
        speaks_for(d, who) <==> d.control is Some && d.control->0.attempt == who.attempt
            && d.control->0.task_id == who.task_id && d.control->0.definition_revision
            == who.definition_revision,
{
}

/// Seconds are a thousand milliseconds each, as far as they can be counted.
pub proof fn law_seconds(s: u64)
    ensures
        s * 1000 <= u64::MAX ==> as_ms(s) == s * 1000,
        s * 1000 > u64::MAX ==> as_ms(s) == u64::MAX,
{
}

/// Where nothing is set one processor is left free, and from one to four attempts run.
pub proof fn law_how_many_run(processors: usize, n: usize, unknown: usize)
    requires
        call_ensures(host_running_default, (Some(processors),), n),
        call_ensures(host_running_default, (None,), unknown),
    ensures
        unknown == 1,
        1 <= n <= 4,
        2 <= processors <= 5 ==> n == processors - 1,
        processors > 5 ==> n == 4,
{
}

/// What comes from the catalog is what was stored: blocked where it was, waiting where it
/// is wanted and its next start is still to come, and else stopped; nothing of an earlier
/// life is left.
pub proof fn law_what_was_stored(d: Definition, s: Stored, now_unix_ms: u64)
    requires
        from_catalog(d, s, now_unix_ms),
    ensures
        ({
            let waits = s.flags.enabled && s.flags.desired_running && s.next_start_unix_ms
                > now_unix_ms;
            &&& d.phase == Phase::Blocked <==> s.blocked
            &&& d.phase == Phase::Backoff <==> !s.blocked && waits
            &&& d.phase == Phase::Stopped <==> !s.blocked && !waits
            &&& d.next_start_unix_ms == (if !s.blocked && waits {
                s.next_start_unix_ms
            } else {
                0
            })
            &&& s.blocked ==> d.detail@ == s.blocked_detail@
        }),
        d.extension_id == s.extension_id && d.definition_revision == s.definition_revision
            && d.flags == s.flags && d.restart == s.restart && d.hash == s.hash && d.name@
            == s.name@ && d.attempt == s.attempt && d.last_running_attempt
            == s.last_running_attempt && d.failure_count == s.failure_count,
        d.control is None && d.interrupt is None && d.owner_endpoint is None && d.task_id == 0
            && d.followers@.dom() == Set::<u64>::empty() && d.catalog_committed,
{
    assert(d.followers@.dom() =~= Set::<u64>::empty());
}

/// At the start what has no object, or one that is too large, is blocked, and so is what
/// is wanted where keeping is not permitted; everything else stays as it was.
pub proof fn law_what_starts_up(
    e: Definition,
    d: Definition,
    o: StartupObject,
    persist_allowed: bool,
)
    requires
        started_up(e, d, o, persist_allowed),
    ensures
        ({
            let barred = !persist_allowed && d.flags.enabled && d.flags.desired_running;
            &&& o == StartupObject::Absent || o == StartupObject::TooLarge || barred ==> e.phase
                == Phase::Blocked && e.next_start_unix_ms == 0
            &&& o == StartupObject::Usable && !barred ==> e.phase == d.phase && e.detail@
                == d.detail@
            &&& o == StartupObject::Usable && !barred && d.phase == Phase::Backoff
                ==> e.next_start_unix_ms == d.next_start_unix_ms
            &&& e.object_pinned <==> o != StartupObject::Absent
        }),
        e.flags == d.flags && e.generation == d.generation && e.attempt == d.attempt && e.hash
            == d.hash && e.extension_id == d.extension_id,
        object_block(StartupObject::Usable) is None,
        object_block(StartupObject::Absent) is Some && object_block(StartupObject::TooLarge) is Some,
{
}

/// The service starts where nothing stands in its way: a catalog that fits in a list, its
/// objects collected, sound limits and a store that could be read. The first of these that
/// fails is told.
pub proof fn law_what_keeps_it_from_starting(
    stored_error: Option<String>,
    list_fits: bool,
    collection_error: Option<String>,
    limits_valid: bool,
)
    ensures
        ({
            let f = startup_fault(stored_error, list_fits, collection_error, limits_valid);
            &&& f is None <==> list_fits && collection_error is None && limits_valid
                && stored_error is None
            &&& list_fits && collection_error is Some ==> f == Some(collection_error->0@)
            &&& list_fits && collection_error is None && limits_valid && stored_error is Some
                ==> f == Some(stored_error->0@)
        }),
{
}

/// What a failure to prepare a program is told as: the engine could not be made, or the
/// source is not valid; the engine's own text comes last.
pub proof fn law_engine_failures_are_told(text: Seq<char>)
    ensures
        step_failure(PrepareStep::Runtime, text).0 == FailureKind::Instantiation,
        step_failure(PrepareStep::Context, text).0 == FailureKind::Instantiation,
        step_failure(PrepareStep::Compile, text).0 == FailureKind::Validation,
        forall|step: PrepareStep|
            {
                let t = (#[trigger] step_failure(step, text)).1;
                t.len() >= text.len() && t.skip(t.len() - text.len()) == text
            },
{
    assert forall|step: PrepareStep|
        {
            let t = (#[trigger] step_failure(step, text)).1;
            t.len() >= text.len() && t.skip(t.len() - text.len()) == text
        } by {
        let t = step_failure(step, text).1;
        assert(t.skip(t.len() - text.len()) =~= text);
    }
}

/// How a program ended: cancelled where it was, whatever it came to; with its code where it
/// returned; and trapped where it threw.
pub proof fn law_how_programs_end(o: AttemptOutcome, result: Result<i32, String>, cancelled: bool)
    requires
        ended_as(o, result, cancelled),
    ensures
        cancelled ==> o is Cancelled,
        !cancelled ==> (result matches Ok(code) ==> o == AttemptOutcome::Returned(code)),
        !cancelled && result is Err ==> (o matches AttemptOutcome::Failed(f) && f.kind
            == FailureKind::Trap),
{
}

/// A program that exports nothing, or nothing but undefined, ends with zero; a number is
/// its code; and anything else is refused.
pub proof fn law_exit_codes(
    n: i32,
    none: Result<i32, &'static str>,
    undefined: Result<i32, &'static str>,
    number: Result<i32, &'static str>,
    other: Result<i32, &'static str>,
)
    requires
        call_ensures(exit_code, (Exported::Nothing,), none),
        call_ensures(exit_code, (Exported::Undefined,), undefined),
        call_ensures(exit_code, (Exported::Int(n),), number),
        call_ensures(exit_code, (Exported::Other,), other),
    ensures
        none == Ok::<i32, &'static str>(0),
        undefined == Ok::<i32, &'static str>(0),
        number == Ok::<i32, &'static str>(n),
        other is Err,
{
}

/// What a program that waits is told: zero when its time is over, one when a packet has
/// come, and two when its connection is closed.
pub proof fn law_wait_codes(late: i32, packet: i32, closed: i32)
    requires
        call_ensures(wait_code, (WaitOutcome::Deadline,), late),
        call_ensures(wait_code, (WaitOutcome::Packet,), packet),
        call_ensures(wait_code, (WaitOutcome::Closed,), closed),
    ensures
        late == 0 && packet == 1 && closed == 2,
{
}

/// A connection is handed over whole only by a program that returned.
pub proof fn law_handing_over(o: AttemptOutcome, h: Handoff)
    requires
        call_ensures(handoff_after, (&o,), h),
    ensures
        h == Handoff::Seal <==> o is Returned,
{
}

/// Up to sixteen mebibytes of random bytes can be asked for at once.
pub proof fn law_random_bytes(length: u32, r: Result<usize, &'static str>)
    requires
        call_ensures(random_length, (length,), r),
    ensures
        r is Ok <==> length <= 16 * 1024 * 1024,
        r matches Ok(n) ==> n == length,
{
}

/// A program is spawned where its configuration is sound and its extension has an id.
pub proof fn law_spawning(spec: AttemptSpec, r: Result<(), SpawnError>)
    requires
        call_ensures(check_spawn, (&spec,), r),
    ensures
        r is Ok <==> spec.config.fault is None && spec.extension_id != 0,
        r matches Err(SpawnError::InvalidConfig(t)) ==> spec.config.fault is Some && t@
            == spec.config.fault->0@,
        r matches Err(SpawnError::InvalidExtensionId) ==> spec.config.fault is None,
        !(r matches Err(SpawnError::Thread(_))),
{
}

/// A program can be started once, and only when it was prepared.
pub proof fn law_starting(s: AttemptState)
    ensures
        start_of(s).0 is Ok <==> s.prepared && !s.started,
        !s.prepared ==> start_of(s).0 == Err::<(), LifecycleError>(LifecycleError::NotPrepared),
        s.prepared && s.started ==> start_of(s).0 == Err::<(), LifecycleError>(
            LifecycleError::AlreadyStarted,
        ),
        start_of(s).0 is Ok ==> start_of(s).1.started,
        start_of(s).0 is Err ==> start_of(s).1 == s,
        start_of(s).1.prepared == s.prepared && start_of(s).1.joined == s.joined
            && start_of(s).1.observed == s.observed,
{
}

/// The engine gets the memory and the stack that are set, and a stack is sound from one
/// byte to sixteen mebibytes.
pub proof fn law_engine_is_set_up(config: WasmiHostConfig, bytes: usize)
    ensures
        setup_of(config).memory_bytes == config.memory_bytes,
        setup_of(config).stack_bytes == config.value_stack_bytes,
        stack_bounded(bytes) <==> 1 <= bytes <= 16 * 1024 * 1024,
{
}

/// A program sees who it is: what it is asked for by name is what it was started with.
pub proof fn law_programs_see_who_they_are(i: GuestInfo)
    ensures
        ({
            let c = context_of(i);
            &&& c.len() == 15
            &&& c.contains(("extensionId"@, SeenView::Big(i.extension_id)))
            &&& c.contains(("definitionRevision"@, SeenView::Big(i.definition_revision)))
            &&& c.contains(("attempt"@, SeenView::Big(i.attempt)))
            &&& c.contains(("taskId"@, SeenView::Number(i.task_id)))
            &&& c.contains(("name"@, SeenView::Text(i.name@)))
            &&& c.contains(("detached"@, SeenView::Flag(i.detached)))
            &&& c.contains(("persistent"@, SeenView::Flag(i.persistent)))
            &&& c.contains(("enabled"@, SeenView::Flag(i.enabled)))
            &&& c.contains(("desiredRunning"@, SeenView::Flag(i.desired_running)))
            &&& c.contains(("features"@, SeenView::Number(i.features)))
            &&& c.contains(("bootGeneration"@, SeenView::MaybeBig(i.boot_generation)))
            &&& c.contains(("protocolVersion"@, SeenView::Number(i.protocol_version as u32)))
        }),
{
    let c = context_of(i);
    assert(c[0] == ("extensionId"@, SeenView::Big(i.extension_id)));
    assert(c[1] == ("definitionRevision"@, SeenView::Big(i.definition_revision)));
    assert(c[2] == ("attempt"@, SeenView::Big(i.attempt)));
    assert(c[3] == ("taskId"@, SeenView::Number(i.task_id)));
    assert(c[5] == ("name"@, SeenView::Text(i.name@)));
    assert(c[7] == ("detached"@, SeenView::Flag(i.detached)));
    assert(c[8] == ("persistent"@, SeenView::Flag(i.persistent)));
    assert(c[9] == ("enabled"@, SeenView::Flag(i.enabled)));
    assert(c[10] == ("desiredRunning"@, SeenView::Flag(i.desired_running)));
    assert(c[11] == ("protocolVersion"@, SeenView::Number(i.protocol_version as u32)));
    assert(c[12] == ("features"@, SeenView::Number(i.features)));
    assert(c[13] == ("bootGeneration"@, SeenView::MaybeBig(i.boot_generation)));
}

/// A drawn id is used where it is not zero and nothing has it; one that is not is drawn
/// again as long as there are draws left; and a draw that fails ends it.
pub proof fn law_ids_are_drawn(s: Service, id: u64, task: u32, left: usize, refused: String)
    ensures
        s.extension_id_drawn(Ok(id), left) == (if id != 0 && !s.has(id) {
            Draw::Found(id)
        } else if left > 0 {
            Draw::Again
        } else {
            Draw::GiveUp
        }),
        s.extension_id_drawn(Err(refused), left) is GiveUp,
        s.task_id_drawn(Ok(task), left) == (if task != 0 && !s.tasks@.dom().contains(task as u64) {
            Draw::Found(task)
        } else if left > 0 {
            Draw::Again
        } else {
            Draw::GiveUp
        }),
        s.task_id_drawn(Err(refused), left) is GiveUp,
{
}

} // verus!
