//! What holds of what clients are told: replies, lists and the reasons of refusals.

use vstd::prelude::*;
use vstd::utf8::{
    decode_utf8_encode_utf8, encode_utf8, encode_utf8_valid_utf8, is_char_boundary,
    is_char_boundary_start_end_of_seq, valid_utf8_split,
};

use crate::bytes::lex_lt;
use crate::catalog::CatalogErrorView;
use crate::extension::control::{
    control_refusal, inspection_reply, lists_before, may_attach, records, unknown_id,
};
use crate::extension::control::{Inspection, ListRecord, Mutation};
use crate::extension::definition::{Definition, Snapshot};
use crate::extension::errors::{spec_catalog_status, spec_object_status};
use crate::extension::errors::{ObjectError, ObjectFault};
use crate::extension::protocol::{Phase, Restart, Status};
use crate::extension::put::{put_reply, PutChunk};
use crate::extension::replay::{followed_by, followers_of};
use crate::extension::service::Service;
use crate::extension::status::{
    boundary_at_most, bounded, creation, definition_status, run_error, snapshot_status,
    update_operation,
};
use crate::id_map::IdMap;

verus! {

/// A text that is short enough is told whole. A longer one is cut at the last place
/// between two characters that is not past the bound.
pub proof fn law_details_are_cut_between_characters(detail: Seq<char>, max: nat)
    ensures
        encode_utf8(detail).len() <= max ==> bounded(detail, max) == detail,
        encode_utf8(detail).len() > max ==> {
            let all = encode_utf8(detail);
            let n = encode_utf8(bounded(detail, max)).len();
            &&& n <= max
            &&& encode_utf8(bounded(detail, max)) == all.take(n as int)
            &&& forall|i: int| n < i <= max ==> !#[trigger] is_char_boundary(all, i)
        },
{
    let all = encode_utf8(detail);
    if all.len() > max {
        encode_utf8_valid_utf8(detail);
        is_char_boundary_start_end_of_seq(all);
        lemma_boundary(all, max);
        let n = boundary_at_most(all, max) as int;
        valid_utf8_split(all, n);
        decode_utf8_encode_utf8(all.subrange(0, n));
        assert(all.take(n) =~= all.subrange(0, n));
    }
}

proof fn lemma_boundary(bytes: Seq<u8>, i: nat)
    requires
        is_char_boundary(bytes, 0),
    ensures
        boundary_at_most(bytes, i) <= i,
        is_char_boundary(bytes, boundary_at_most(bytes, i) as int),
        forall|j: int| boundary_at_most(bytes, i) < j <= i ==> !#[trigger] is_char_boundary(bytes, j),
    decreases i,
{
    if i > 0 && !is_char_boundary(bytes, i as int) {
        lemma_boundary(bytes, (i - 1) as nat);
    }
}

/// A reply about a definition says what the definition holds, under the number of the
/// request. It names the task only of one that runs, and the next start only of one that
/// waits for it.
pub proof fn law_reply_says_what_the_definition_holds(
    d: Definition,
    nonce: u16,
    status: Status,
    replay_from_sequence: u64,
    detail: Seq<char>,
    detail_max: nat,
)
    ensures
        ({
            let r = definition_status(d, nonce, status, replay_from_sequence, detail, detail_max);
            &&& r.nonce == nonce && r.status == status && r.phase == d.phase && r.flags == d.flags
            &&& r.restart == d.restart && r.extension_id == d.extension_id
            &&& r.definition_revision == d.definition_revision && r.attempt == d.attempt
            &&& r.last_running_attempt == d.last_running_attempt && r.hash == d.hash@
            &&& r.replay_from_sequence == replay_from_sequence
            &&& d.phase == Phase::Running ==> r.task_id == d.task_id
            &&& d.phase != Phase::Running ==> r.task_id == 0
            &&& d.phase == Phase::Backoff ==> r.next_start_unix_ms == d.next_start_unix_ms
            &&& d.phase != Phase::Backoff ==> r.next_start_unix_ms == 0
            &&& d.next_output_sequence > 0 ==> r.output_sequence + 1 == d.next_output_sequence
            &&& encode_utf8(detail).len() <= detail_max ==> r.detail == detail
        }),
{
}

/// A reply to a request that came to nothing speaks of no definition: only the request's
/// number, the reason, the object and the text are in it.
pub proof fn law_refused_run_speaks_of_no_definition(
    nonce: u16,
    status: Status,
    hash: Seq<u8>,
    id: u64,
    detail: Seq<char>,
    detail_max: nat,
)
    ensures
        ({
            let r = run_error(nonce, status, hash, detail, detail_max);
            let u = unknown_id(nonce, id, detail_max);
            &&& r.nonce == nonce && r.status == status && r.hash == hash && r.extension_id == 0
            &&& r.phase == Phase::Absent && r.attempt == 0 && r.task_id == 0
            &&& r.definition_revision == 0 && r.restart == Restart::Never
            &&& !r.flags.enabled && !r.flags.desired_running && !r.flags.persist && !r.flags.detach
            &&& encode_utf8(detail).len() <= detail_max ==> r.detail == detail
            &&& u.nonce == nonce && u.status == Status::UnknownId && u.extension_id == id
            &&& u.phase == Phase::Absent && u.definition_revision == 0 && u.hash.len() == 32
            &&& forall|i: int| 0 <= i < 32 ==> #[trigger] u.hash[i] == 0
        }),
{
}

/// What was created is told of with its id, its revision, its phase and its object, and
/// so is an update, with the phase, the object and the policy that it has then.
pub proof fn law_creation_and_update_are_told(
    d: Snapshot,
    nonce: u16,
    phase: Phase,
    hash: Seq<u8>,
    restart: Restart,
    detail: Seq<char>,
    detail_max: nat,
)
    ensures
        ({
            let c = creation(d, nonce, detail, detail_max);
            let u = update_operation(d, nonce, phase, hash, restart, detail, detail_max);
            &&& c.nonce == nonce && c.status == Status::Success && c.extension_id == d.extension_id
            &&& c.definition_revision == d.definition_revision && c.phase == d.phase
            &&& c.flags == d.flags && c.restart == d.restart && c.hash == d.hash@
            &&& u.nonce == nonce && u.status == Status::Success && u.extension_id == d.extension_id
            &&& u.definition_revision == d.definition_revision && u.phase == phase
            &&& u.flags == d.flags && u.restart == restart && u.hash == hash
        }),
{
}

/// A request to look at a definition succeeds; a request that nobody knows is invalid;
/// and a follower that finds no place is told of the budget.
pub proof fn law_looking_at_a_definition(d: Definition, nonce: u16, max: nat)
    ensures
        inspection_reply(d, nonce, Inspection::Status, max).status == Status::Success,
        inspection_reply(d, nonce, Inspection::Unfollow, max).status == Status::Success,
        inspection_reply(d, nonce, Inspection::Attach, max).status == Status::Budget,
        inspection_reply(d, nonce, Inspection::Unknown, max).status == Status::Invalid,
        encode_utf8(d.detail@).len() <= max ==> inspection_reply(
            d,
            nonce,
            Inspection::Status,
            max,
        ).detail == d.detail@,
        forall|what: Inspection|
            (#[trigger] inspection_reply(d, nonce, what, max)).extension_id == d.extension_id
                && inspection_reply(d, nonce, what, max).nonce == nonce && inspection_reply(
                d,
                nonce,
                what,
                max,
            ).phase == d.phase,
{
}

/// The records of a list hold what their definitions hold, and a task is named whatever
/// the phase.
pub proof fn law_list_says_what_is_there(r: ListRecord, d: Definition)
    requires
        records(r, d),
    ensures
        r.extension_id == d.extension_id && r.definition_revision == d.definition_revision && r.phase
            == d.phase && r.flags == d.flags && r.restart == d.restart && r.attempt == d.attempt
            && r.last_running_attempt == d.last_running_attempt && r.task_id == d.task_id
            && r.next_start_unix_ms == d.next_start_unix_ms && r.hash == d.hash && r.name@
            == d.name@,
        d.next_output_sequence > 0 ==> r.output_sequence + 1 == d.next_output_sequence,
{
}

/// A list is ordered by name, and by id under one name.
pub proof fn law_list_order(a: ListRecord, b: ListRecord)
    ensures
        a.name@ == b.name@ ==> (lists_before(a, b) <==> a.extension_id < b.extension_id),
        lex_lt(encode_utf8(a.name@), encode_utf8(b.name@)) ==> lists_before(a, b)
            && !lists_before(b, a),
        lists_before(a, b) ==> a.name@ == b.name@ || lex_lt(
            encode_utf8(a.name@),
            encode_utf8(b.name@),
        ),
{
    crate::bytes::lemma_lex_irreflexive(encode_utf8(a.name@));
    if lex_lt(encode_utf8(a.name@), encode_utf8(b.name@)) {
        if lex_lt(encode_utf8(b.name@), encode_utf8(a.name@)) {
            crate::bytes::lemma_lex_transitive(
                encode_utf8(a.name@),
                encode_utf8(b.name@),
                encode_utf8(a.name@),
            );
        }
    }
    if encode_utf8(a.name@) == encode_utf8(b.name@) {
        crate::text_map::lemma_same_bytes_same_text(a.name@, b.name@);
    }
}

/// An endpoint can always come back to what it follows; a new follower needs a place among
/// its endpoint's and among all.
pub proof fn law_followers_find_a_place(s: Service, id: u64, endpoint: u64)
    ensures
        ({
            let rows = s.registry.definitions.spec_rows();
            let follows = s.spec_definitions()[id].followers@.dom().contains(endpoint);
            &&& follows ==> may_attach(s, id, endpoint)
            &&& !follows ==> (may_attach(s, id, endpoint) <==> followed_by(rows, endpoint)
                < s.limits.follow_max_per_endpoint && followers_of(rows) < s.limits.follow_max)
        }),
{
}

/// What an endpoint follows is counted once for each definition that it follows, and the
/// followers of all are those of each together.
pub proof fn law_followers_are_counted(
    rows: Seq<(u64, Definition)>,
    row: (u64, Definition),
    endpoint: u64,
)
    ensures
        followed_by(Seq::empty(), endpoint) == 0,
        followers_of(Seq::empty()) == 0,
        row.1.followers@.dom().contains(endpoint) ==> followed_by(rows.push(row), endpoint)
            == followed_by(rows, endpoint) + 1,
        !row.1.followers@.dom().contains(endpoint) ==> followed_by(rows.push(row), endpoint)
            == followed_by(rows, endpoint),
        followers_of(rows.push(row)) == followers_of(rows) + row.1.followers.spec_rows().len(),
{
    assert(rows.push(row).drop_last() =~= rows);
}

/// A cancellation is never refused.
pub proof fn law_cancel_is_never_refused(s: Service, id: u64)
    ensures
        control_refusal(s, id, Mutation::Cancel) is None,
{
}

/// A restart is refused as not permitted where the extension is kept and that is not
/// permitted, and as a conflict where its owner is gone or it is disabled; else it is
/// not refused.
pub proof fn law_restart_is_refused(s: Service, id: u64)
    ensures
        ({
            let d = s.spec_definitions()[id];
            let r = control_refusal(s, id, Mutation::Restart);
            let barred = d.flags.persist && !s.limits.persist_allowed;
            let alone = d.owner_endpoint is Some && !s.endpoints@.dom().contains(
                d.owner_endpoint->0,
            );
            &&& r is Some && (r->0).0 == Status::Permission <==> barred
            &&& r is Some && (r->0).0 == Status::Conflict <==> !barred && (alone
                || !d.flags.enabled)
            &&& r is None <==> !barred && !alone && d.flags.enabled
        }),
{
}

/// Only what is kept can be enabled, where that is permitted, disabled and removed; and
/// it is removed only when it is disabled and at rest.
pub proof fn law_switching_is_refused(s: Service, id: u64)
    ensures
        ({
            let d = s.spec_definitions()[id];
            let enable = control_refusal(s, id, Mutation::Enable);
            let disable = control_refusal(s, id, Mutation::Disable);
            let remove = control_refusal(s, id, Mutation::Remove);
            let rests = !d.flags.enabled && d.control is None && (d.phase == Phase::Stopped
                || d.phase == Phase::Blocked);
            &&& enable is None <==> d.flags.persist && s.limits.persist_allowed
            &&& enable is Some ==> (enable->0).0 == Status::Permission
            &&& disable is None <==> d.flags.persist
            &&& disable is Some ==> (disable->0).0 == Status::Permission
            &&& remove is None <==> d.flags.persist && rests
            &&& !d.flags.persist ==> remove is Some && (remove->0).0 == Status::Permission
            &&& d.flags.persist && !rests ==> remove is Some && (remove->0).0 == Status::Conflict
        }),
{
}

/// Which status a failure of the object store is told with.
pub proof fn law_store_faults_are_told(fault: ObjectFault)
    ensures
        spec_object_status(fault) == Status::NotFound <==> fault == ObjectFault::NotFound,
        spec_object_status(fault) == Status::Conflict <==> fault == ObjectFault::Conflict,
        spec_object_status(fault) == Status::TooLarge <==> fault == ObjectFault::TooLarge,
        spec_object_status(fault) == Status::Budget <==> fault == ObjectFault::Budget,
        spec_object_status(fault) == Status::Other <==> fault == ObjectFault::Missing || fault
            == ObjectFault::Storage,
        spec_object_status(fault) == Status::Invalid <==> fault == ObjectFault::InvalidConfig
            || fault == ObjectFault::InvalidUpload || fault == ObjectFault::HashMismatch || fault
            == ObjectFault::InvalidModule,
        spec_object_status(fault) != Status::Success,
        spec_object_status(fault) != Status::AlreadyHave,
{
}

/// Which status a failure of the catalog is told with.
pub proof fn law_catalog_faults_are_told(e: CatalogErrorView)
    ensures
        spec_catalog_status(e) == Status::Permission <==> e is Unavailable,
        spec_catalog_status(e) == Status::Invalid <==> e is Invalid,
        spec_catalog_status(e) == Status::Conflict <==> e is Conflict,
        spec_catalog_status(e) == Status::NotFound <==> e is NotFound,
        spec_catalog_status(e) == Status::Budget <==> e is Budget,
        spec_catalog_status(e) == Status::Other <==> e is Storage,
{
}

/// A chunk that was taken is answered with how much was received, the last with the size,
/// and an object that is there with its size under a status of its own; a failure says
/// that nothing was received.
pub proof fn law_uploads_are_answered(
    nonce: u16,
    hash: Seq<u8>,
    received: u64,
    size: u64,
    e: ObjectError,
    max: nat,
)
    ensures
        ({
            let taken = put_reply(nonce, hash, Ok(PutChunk::Accepted { received }), max);
            let done = put_reply(nonce, hash, Ok(PutChunk::Committed { size }), max);
            let had = put_reply(nonce, hash, Ok(PutChunk::AlreadyHave { size }), max);
            let bad = put_reply(nonce, hash, Err(e), max);
            &&& taken.status == Status::Success && taken.received == received
            &&& done.status == Status::Success && done.received == size
            &&& had.status == Status::AlreadyHave && had.received == size
            &&& bad.status != Status::Success && bad.status != Status::AlreadyHave && bad.received
                == 0
            &&& encode_utf8(e.text@).len() <= max ==> bad.detail == e.text@
            &&& taken.nonce == nonce && done.nonce == nonce && had.nonce == nonce && bad.nonce
                == nonce
            &&& taken.hash == hash && done.hash == hash && had.hash == hash && bad.hash == hash
        }),
{
}

} // verus!
