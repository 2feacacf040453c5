//! What holds of uploads and look-ups, of what is let go of, and of endpoints that go.

use vstd::prelude::*;
use vstd::utf8::valid_utf8;

use crate::extension::arguments::{all_text, charge_for, encoded_len};
use crate::extension::chunks::{next_put, spec_charged, spec_put_held};
use crate::extension::chunks::{PutStage, PutStep};
use crate::extension::definition::{Control, Definition};
use crate::extension::endpoints::{comes_back, controls_of, departed, orphans_of, restored, Orphan};
use crate::extension::errors::{ObjectError, ObjectFault};
use crate::extension::probe::{probe_next, ProbeAction, ProbeEvent, ProbeStage};
use crate::extension::protocol::{Interrupt, ObjectHash, Phase};
use crate::extension::put::{pending_admitted, pending_plan, upload_goes, PendingPlan};
use crate::extension::put::{PutChunk, StoreTexts, Upload, UploadEvent};
use crate::extension::release::{awaits, lease_ended, overdue, owed, releasable};
use crate::extension::run::{Admitted, Probe};
use crate::extension::service::Service;

verus! {

/// A chunk goes its way: the order of use is stored, room is made where there is none, a
/// file is made where there is none, the chunk is written, and what the store says to it
/// is the result. Where the object turns out to be there or is complete the order of use
/// is stored before that is said.
pub proof fn law_uploads_go_their_way(
    from: Upload,
    event: UploadEvent,
    to: Upload,
    texts: StoreTexts,
)
    requires
        upload_goes(from, event, to, texts),
    ensures
        from is PersistBeforeBegin && event is Completed ==> to is Begin,
        from is Begin && event is MustEvict ==> to is Evict,
        from is Evict && event is Completed ==> to is PersistBeforeBegin,
        from is Begin && event is MustCreate ==> to is Create,
        (from is Begin || from is Create) && event is Started ==> to is Put,
        from is Put && event is MustWrite ==> to is Write,
        from is Put && event is MustFinish ==> to is Finish,
        event matches UploadEvent::Result(r) ==> {
            &&& from is Begin || from is Create || from is Finish ==> to
                == Upload::PersistBeforeReply(r)
            &&& (from is Put || from is Write) && r is AlreadyHave ==> to
                == Upload::PersistBeforeReply(r)
            &&& (from is Put || from is Write) && !(r is AlreadyHave) ==> to == Upload::Done(Ok(r))
        },
        from matches Upload::PersistBeforeReply(r) ==> event is Completed ==> to == Upload::Done(
            Ok(r),
        ),
        from is Done ==> to == from,
{
}

/// A failure is the result of whatever it comes at, and so is that there is no store; an
/// upload that cannot go on fails with its reason once it is removed.
pub proof fn law_uploads_fail(from: Upload, event: UploadEvent, to: Upload, texts: StoreTexts)
    requires
        upload_goes(from, event, to, texts),
        !(from is Done),
    ensures
        from matches Upload::Abort(e) ==> to == Upload::Done(Err(e)),
        !(from is Abort) && !(from is CleanUp) ==> {
            &&& event matches UploadEvent::Failed(e) ==> to == Upload::Done(Err(e))
            &&& event is NoStore ==> (to matches Upload::Done(Err(e)) && e.fault
                == ObjectFault::NotFound && e.text@ == texts.not_found@)
        },
        from is Put ==> (event matches UploadEvent::MustAbort(e) ==> to == Upload::Abort(e)),
        from is CleanUp ==> (to matches Upload::Done(Err(e)) && e.fault == ObjectFault::Conflict
            && e.text@ == texts.conflict@),
        to matches Upload::Done(Ok(_)) ==> event is Result || from is PersistBeforeReply,
{
}

/// What becomes of a definition that waits for an object that has come: nothing where it
/// is not there or waits for another, its end where its time is over, and else it is
/// committed where it is kept and pinned where it is not.
pub proof fn law_what_waits_for_an_object(s: Service, id: u64, hash: ObjectHash, now: u64)
    ensures
        ({
            let d = s.spec_definitions()[id];
            let waits = s.has(id) && d.phase == Phase::NeedObject && d.hash == hash;
            let late = d.pending_deadline is Some && now >= d.pending_deadline->0;
            let p = pending_plan(s, id, hash, now);
            &&& p == PendingPlan::Skip <==> !waits
            &&& p == PendingPlan::Expire <==> waits && late
            &&& p == PendingPlan::Commit <==> waits && !late && d.flags.persist
            &&& p == PendingPlan::Pin <==> waits && !late && !d.flags.persist
        }),
{
}

/// What has got its object is queued, or stopped where the server shuts down, with no
/// deadline left; what was committed holds what was stored, and its arguments no more.
pub proof fn law_object_has_come(d: Definition, e: Definition, a: Admitted, shutting_down: bool)
    requires
        pending_admitted(d, e, a, shutting_down),
    ensures
        e.phase == (if shutting_down {
            Phase::Stopped
        } else {
            Phase::Queued
        }),
        e.pending_deadline is None && e.release_deadline is None && e.detail@ == ""@,
        a is Waiting ==> e.object_pinned == d.object_pinned && e.flags == d.flags && e.args
            == d.args,
        a is Pinned ==> e.object_pinned && e.args == d.args && e.catalog_committed
            == d.catalog_committed,
        a matches Admitted::Committed { definition_revision, flags, argument_bytes } ==> {
            &&& e.catalog_committed && e.object_pinned
            &&& e.definition_revision == definition_revision && e.flags == flags
            &&& e.argument_bytes == argument_bytes && e.args is None && e.argument_reservation == 0
        },
        e.extension_id == d.extension_id && e.hash == d.hash && e.attempt == d.attempt
            && e.generation == d.generation,
{
}

/// A look-up finds an object that is sound: one that is to last is written through first.
/// What is not the object is removed and forgotten; what is missing is forgotten; any
/// other failure of the check is a miss; and one of writing says that it could not be
/// made to last.
pub proof fn law_lookup_goes_its_way(
    stage: ProbeStage,
    event: ProbeEvent,
    durable: bool,
    next: ProbeStage,
    action: ProbeAction,
)
    requires
        probe_next(stage, event, durable, next, action),
    ensures
        stage is Checking && event is Done && durable ==> next is Syncing && action is MarkAndSync,
        stage is Checking && event is Done && !durable ==> next is Recording && action
            is MarkAndRecord,
        stage is Syncing && event is Done ==> next is Recording && action is Record,
        stage is Recording && event is Done ==> next is Ended && action == ProbeAction::Answer(
            Probe::Hit,
        ),
        stage is Checking ==> (event matches ProbeEvent::Failed(e) ==> {
            &&& e.fault == ObjectFault::Missing ==> next is Ended && action is Forget
            &&& e.fault == ObjectFault::HashMismatch || e.fault == ObjectFault::InvalidModule
                ==> next is Removing && action is RemoveFile
            &&& e.fault != ObjectFault::Missing && e.fault != ObjectFault::HashMismatch && e.fault
                != ObjectFault::InvalidModule ==> next is Ended && action == ProbeAction::Answer(
                Probe::Miss,
            )
        }),
        stage is Syncing || stage is Recording ==> (event matches ProbeEvent::Failed(e) ==> next
            is Ended && action == ProbeAction::Answer(Probe::Durability(e.text))),
        stage is Removing && event is Done ==> next is Ended && action is Forget,
        stage is Removing && event is Failed ==> next is Ended && action == ProbeAction::Answer(
            Probe::Miss,
        ),
        stage is Ended ==> next is Ended,
{
}

/// A chunk is charged only where it begins or ends an upload and the object is not there,
/// and a request goes on step by step while it holds its charge and its place.
pub proof fn law_put_requests_go_their_way(begin: bool, last: bool, known: bool, step: PutStep)
    ensures
        spec_charged(begin, last, known) ==> !known,
        !begin && !last ==> !spec_charged(begin, last, known),
        !known && (begin || last) ==> spec_charged(begin, last, known),
        next_put(PutStage::Arrived, PutStep::Charged) == PutStage::Waiting,
        next_put(PutStage::Arrived, PutStep::Full) == PutStage::Refusing,
        next_put(PutStage::Waiting, PutStep::Placed) == PutStage::Looking,
        next_put(PutStage::Looking, PutStep::Looked) == PutStage::Uploading,
        next_put(PutStage::Uploading, PutStep::Uploaded) == PutStage::Applying,
        next_put(PutStage::Applying, PutStep::Sent) == PutStage::Done,
        next_put(PutStage::Refusing, PutStep::Sent) == PutStage::Done,
        spec_put_held(PutStage::Waiting).charge && !spec_put_held(PutStage::Waiting).place,
        spec_put_held(PutStage::Looking).charge && spec_put_held(PutStage::Looking).place,
        spec_put_held(PutStage::Uploading).charge && spec_put_held(PutStage::Uploading).place,
        spec_put_held(PutStage::Applying).charge && spec_put_held(PutStage::Applying).place,
        !spec_put_held(PutStage::Arrived).charge && !spec_put_held(PutStage::Refusing).charge,
{
}

/// Arguments weigh two bytes for their number, and four for the length of each besides
/// its own; what they are charged is that, as far as it can be said.
pub proof fn law_arguments_are_weighed(arguments: Seq<Seq<u8>>, one: Seq<u8>)
    ensures
        encoded_len(Seq::empty()) == 2,
        encoded_len(arguments.push(one)) == encoded_len(arguments) + 4 + one.len(),
        encoded_len(arguments) <= usize::MAX ==> charge_for(arguments) == encoded_len(arguments),
        encoded_len(arguments) > usize::MAX ==> charge_for(arguments) == usize::MAX,
        all_text(arguments.push(one)) <==> all_text(arguments) && valid_utf8(one),
{
    let more = arguments.push(one);
    assert(more.drop_last() =~= arguments);
    if all_text(more) {
        assert forall|i: int| 0 <= i < arguments.len() implies valid_utf8(
            #[trigger] arguments[i],
        ) by {
            assert(more[i] == arguments[i]);
        }
        assert(valid_utf8(more[arguments.len() as int]));
    }
}

/// What is released is what is not kept, has come to rest, is controlled by nothing and
/// has not changed since that was decided.
pub proof fn law_what_is_released(s: Service, id: u64, generation: u64)
    ensures
        ({
            let d = s.spec_definitions()[id];
            releasable(s, id, generation) <==> {
                &&& s.has(id)
                &&& !d.flags.persist
                &&& d.generation == generation
                &&& d.control is None
                &&& d.phase == Phase::Stopped || d.phase == Phase::Blocked
            }
        }),
{
}

/// A definition is overdue from its deadline on, as long as it waits for its object; its
/// time is over from the deadline for that on, unless something controls it.
pub proof fn law_deadlines(d: Definition, now: u64, hash: ObjectHash)
    ensures
        d.pending_deadline is None || d.phase != Phase::NeedObject ==> !overdue(d, now),
        d.pending_deadline is Some && d.phase == Phase::NeedObject ==> (overdue(d, now) <==> now
            >= d.pending_deadline->0),
        d.release_deadline is None || d.control is Some ==> !lease_ended(d, now),
        d.release_deadline is Some && d.control is None ==> (lease_ended(d, now) <==> now
            >= d.release_deadline->0),
        awaits(d, hash) <==> d.phase == Phase::NeedObject && d.hash == hash,
{
}

/// An endpoint that is there, follows the definition and has not had all that is owed to
/// it is still owed something.
pub proof fn law_who_is_owed(s: Service, id: u64, endpoint: u64)
    ensures
        ({
            let d = s.spec_definitions()[id];
            &&& !d.followers@.dom().contains(endpoint) ==> !owed(s, id, endpoint)
            &&& !s.endpoints@.dom().contains(endpoint) ==> !owed(s, id, endpoint)
            &&& d.followers@.dom().contains(endpoint) && s.endpoints@.dom().contains(endpoint) ==> (
            owed(s, id, endpoint) <==> d.followers@[endpoint].replay_through is Some)
        }),
{
}

/// When an endpoint goes, what was attached to it is told to stop, and it follows nothing
/// any more.
pub proof fn law_endpoint_goes(d: Definition, e: Definition, endpoint: u64)
    requires
        departed(d, e, endpoint),
    ensures
        !e.followers@.dom().contains(endpoint),
        d.owner_endpoint == Some(endpoint) ==> {
            &&& !e.flags.desired_running
            &&& e.interrupt == Some(Interrupt::OwnerClosed)
            &&& d.control is Some ==> e.phase == Phase::Stopping
            &&& d.control is None ==> e.phase == Phase::Stopped
        },
{
}

/// The extensions that an endpoint leaves behind are those that were attached to it, each
/// once, with what controls it.
pub proof fn law_what_is_left_behind(rows: Seq<(u64, Definition)>, endpoint: u64, i: int)
    requires
        0 <= i < rows.len(),
    ensures
        rows[i].1.owner_endpoint == Some(endpoint) ==> orphans_of(rows, endpoint).contains(
            Orphan { extension_id: rows[i].0, cancel: rows[i].1.control },
        ),
        orphans_of(rows, endpoint).len() <= rows.len(),
        forall|k: int|
            0 <= k < orphans_of(rows, endpoint).len() ==> exists|j: int|
                0 <= j < rows.len() && (#[trigger] rows[j]).1.owner_endpoint == Some(endpoint)
                    && #[trigger] orphans_of(rows, endpoint)[k] == (Orphan {
                    extension_id: rows[j].0,
                    cancel: rows[j].1.control,
                }),
    decreases rows.len(),
{
    let front = rows.drop_last();
    let all = orphans_of(rows, endpoint);
    let before = orphans_of(front, endpoint);
    let d = rows.last().1;
    let mine = Orphan { extension_id: rows.last().0, cancel: d.control };
    if front.len() > 0 {
        law_what_is_left_behind(front, endpoint, if i < front.len() {
            i
        } else {
            0
        });
    }
    if i < front.len() && rows[i].1.owner_endpoint == Some(endpoint) {
        let o = Orphan { extension_id: rows[i].0, cancel: rows[i].1.control };
        assert(front[i] == rows[i]);
        let k = choose|k: int| 0 <= k < before.len() && before[k] == o;
        assert(all[k] == o);
    }
    if i == front.len() && d.owner_endpoint == Some(endpoint) {
        assert(all[before.len() as int] == mine);
    }
    assert forall|k: int| 0 <= k < all.len() implies exists|j: int|
        0 <= j < rows.len() && (#[trigger] rows[j]).1.owner_endpoint == Some(endpoint)
            && #[trigger] all[k] == (Orphan { extension_id: rows[j].0, cancel: rows[j].1.control }) by {
        if k < before.len() {
            assert(all[k] == before[k]);
            let j = choose|j: int|
                0 <= j < front.len() && (#[trigger] front[j]).1.owner_endpoint == Some(endpoint)
                    && before[k] == (Orphan {
                    extension_id: front[j].0,
                    cancel: front[j].1.control,
                });
            assert(rows[j] == front[j]);
        } else {
            assert(rows[rows.len() - 1].1 == d);
        }
    }
}

/// What is controlled is told with what controls it, and nothing else.
pub proof fn law_what_is_controlled(rows: Seq<(u64, Definition)>, row: (u64, Definition))
    ensures
        controls_of(Seq::empty()).len() == 0,
        row.1.control matches Some(c) ==> controls_of(rows.push(row)) == controls_of(rows).push(
            (row.0, c),
        ),
        row.1.control is None ==> controls_of(rows.push(row)) == controls_of(rows),
{
    assert(rows.push(row).drop_last() =~= rows);
}

/// After a start those come back that are kept, wanted, not blocked and have their object;
/// each waits for what is left until its next start.
pub proof fn law_what_comes_back(
    rows: Seq<(u64, Definition)>,
    row: (u64, Definition),
    now_unix_ms: u64,
)
    ensures
        ({
            let d = row.1;
            let back = d.flags.persist && d.flags.enabled && d.flags.desired_running
                && d.object_pinned && d.phase != Phase::Blocked;
            let all = restored(rows.push(row), now_unix_ms);
            let before = restored(rows, now_unix_ms);
            &&& restored(Seq::empty(), now_unix_ms).len() == 0
            &&& comes_back(d) <==> back
            &&& !back ==> all == before
            &&& back && d.next_start_unix_ms > now_unix_ms ==> all == before.push(
                (row.0, (d.next_start_unix_ms - now_unix_ms) as u64),
            )
            &&& back && d.next_start_unix_ms <= now_unix_ms ==> all == before.push((row.0, 0))
        }),
{
    assert(rows.push(row).drop_last() =~= rows);
}

} // verus!
