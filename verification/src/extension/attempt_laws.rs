//! What holds of the attempts of an extension: how they are prepared, how they end and
//! when the next one comes.

use vstd::prelude::*;

use crate::catalog::CatalogError;
use crate::extension::attempt::{
    assignable, blocked_definition, can_prepare, finish_plan, finished, may_publish, prepare_fault,
    spec_is_wasm, spec_owner_lost, still_current,
};
use crate::extension::attempt::{FinishPlanView, PrepareError, Publication};
use crate::extension::definition::Definition;
use crate::extension::exit::{backoff_cap_ms, sampled, wait_of};
use crate::extension::exit::DrivenAttempt;
use crate::extension::lifecycle::{after_ms, creation_ended, next_generation, owner_closed};
use crate::extension::protocol::{Interrupt, Phase};
use crate::extension::service::Service;

verus! {

/// An attempt can be prepared exactly for an extension that is there and wanted, whose
/// arguments fit in what is left of their budget where they have to be loaded, and whose
/// attempts can still be counted.
pub proof fn law_what_can_be_prepared(s: Service, id: u64)
    ensures
        ({
            let d = s.spec_definitions()[id];
            let wanted = d.flags.enabled && d.flags.desired_running;
            let loads = d.flags.persist && d.catalog_committed;
            can_prepare(s, id) <==> {
                &&& s.has(id)
                &&& wanted
                &&& loads ==> s.arguments.spec_used() + d.argument_bytes <= s.arguments.spec_max()
                &&& d.attempt < u64::MAX
            }
        }),
{
}

/// Why an attempt is not prepared: one that is not wanted is superseded; arguments that
/// will fit later have to wait; and what cannot be prepared at all has failed.
pub proof fn law_why_not_prepared(s: Service, id: u64, e: PrepareError)
    requires
        prepare_fault(s, id, e),
    ensures
        ({
            let d = s.spec_definitions()[id];
            let wanted = d.flags.enabled && d.flags.desired_running;
            let loads = d.flags.persist && d.catalog_committed;
            let never = d.argument_bytes > s.arguments.spec_max();
            let later = s.arguments.spec_used() + d.argument_bytes > s.arguments.spec_max();
            &&& e is Superseded <==> s.has(id) && !wanted
            &&& e is ArgumentBudget <==> s.has(id) && wanted && loads && !never && later
            &&& e is Failed <==> !s.has(id) || (wanted && (!loads || never || !later))
            &&& e is Failed && s.has(id) && !(loads && never) ==> d.attempt == u64::MAX
        }),
{
}

/// What was read of a definition is current as long as nothing that it speaks of has
/// changed since, the extension is wanted and the server runs.
pub proof fn law_what_is_current(s: Service, seen: Definition)
    requires
        s.has(seen.extension_id),
    ensures
        ({
            let d = s.spec_definitions()[seen.extension_id];
            still_current(s, seen.spec_snapshot()) <==> {
                &&& !s.shutting_down
                &&& d.flags.enabled && d.flags.desired_running
                &&& d.generation == seen.generation
                &&& d.definition_revision == seen.definition_revision
                &&& d.hash == seen.hash
                &&& d.attempt == seen.attempt
            }
        }),
{
}

/// What is read of a definition is what it holds; its latest output is the one before
/// the next.
pub proof fn law_what_is_read(d: Definition)
    ensures
        ({
            let s = d.spec_snapshot();
            &&& s.extension_id == d.extension_id && s.definition_revision == d.definition_revision
            &&& s.flags == d.flags && s.restart == d.restart && s.hash == d.hash
            &&& s.argument_bytes == d.argument_bytes && s.owner_endpoint == d.owner_endpoint
            &&& s.phase == d.phase && s.attempt == d.attempt && s.task_id == d.task_id
            &&& s.last_running_attempt == d.last_running_attempt
            &&& s.next_start_unix_ms == d.next_start_unix_ms && s.generation == d.generation
            &&& s.failure_count == d.failure_count && s.control == d.control
            &&& s.object_pinned == d.object_pinned && s.catalog_committed == d.catalog_committed
            &&& d.next_output_sequence > 0 ==> s.output_sequence + 1 == d.next_output_sequence
            &&& d.next_output_sequence == 0 ==> s.output_sequence == 0
        }),
{
}

/// A task speaks for an attempt only where it is the one that the definition is
/// controlled by, and the definition is the one that it was started for.
pub proof fn law_who_may_publish(s: Service, p: Publication)
    ensures
        ({
            let d = s.spec_definitions()[p.extension_id];
            may_publish(s, p) <==> {
                &&& !s.shutting_down && s.has(p.extension_id)
                &&& d.generation == p.generation && d.definition_revision == p.definition_revision
                &&& d.flags.enabled && d.flags.desired_running
                &&& d.control is Some
                &&& d.control->0.definition_revision == p.definition_revision
                &&& d.control->0.attempt == p.attempt
                &&& d.control->0.task_id == p.task_id
            }
        }),
{
}

/// A task is assigned once: to the attempt that the definition is controlled by, while
/// it has none.
pub proof fn law_task_is_assigned_once(
    s: Service,
    id: u64,
    generation: u64,
    revision: u64,
    attempt: u64,
)
    ensures
        ({
            let d = s.spec_definitions()[id];
            assignable(s, id, generation, revision, attempt) <==> {
                &&& !s.shutting_down && s.has(id)
                &&& d.generation == generation
                &&& d.flags.enabled && d.flags.desired_running
                &&& d.control is Some
                &&& d.control->0.definition_revision == revision
                &&& d.control->0.attempt == attempt
                &&& d.control->0.task_id == 0
            }
        }),
{
}

/// The next attempt after a failure comes the drawn time from now, and is not announced
/// where there is none to wait for. A replaced definition is noticed once: its generation
/// goes up unless it already has.
pub proof fn law_when_the_next_comes(
    d: Definition,
    generation: u64,
    driven: DrivenAttempt,
    now_unix_ms: u64,
    wait_ns: u64,
)
    ensures
        ({
            let p = finish_plan(d, generation, driven, now_unix_ms, wait_ns);
            let at = now_unix_ms + wait_ns / 1_000_000;
            &&& p.backoff && at <= u64::MAX ==> p.next_start_unix_ms == at
            &&& p.backoff && at > u64::MAX ==> p.next_start_unix_ms == u64::MAX
            &&& p.backoff ==> p.wait_ns == wait_ns
            &&& !p.backoff ==> p.next_start_unix_ms == 0 && p.wait_ns == 0
            &&& (d.interrupt == Some(Interrupt::Updated) || d.interrupt == Some(
                Interrupt::Restarted,
            )) && d.generation == generation && generation < u64::MAX ==> p.generation
                == generation + 1
            &&& d.generation != generation || d.interrupt is None ==> p.generation == d.generation
            &&& p.flags.enabled == d.flags.enabled && p.flags.persist == d.flags.persist
                && p.flags.detach == d.flags.detach
        }),
{
}

/// When an attempt is over nothing controls the definition any more. It is in the phase
/// that was planned, or blocked where that could not be stored, which counts as one more
/// failure.
pub proof fn law_attempt_is_over(
    d: Definition,
    e: Definition,
    plan: FinishPlanView,
    persisted: Result<(), CatalogError>,
    detail_max: nat,
)
    requires
        finished(d, e, plan, persisted, detail_max),
    ensures
        e.control is None && e.task_id == 0 && e.interrupt is None,
        e.flags == plan.flags && e.generation == plan.generation,
        persisted is Ok ==> e.phase == plan.phase && e.failure_count == plan.failure_count
            && e.next_start_unix_ms == plan.next_start_unix_ms,
        persisted is Err ==> e.phase == Phase::Blocked && e.next_start_unix_ms == 0 && (
        plan.failure_count < u32::MAX ==> e.failure_count == plan.failure_count + 1),
        e.extension_id == d.extension_id && e.attempt == d.attempt && e.hash == d.hash
            && e.definition_revision == d.definition_revision && e.name == d.name && e.args == d.args
            && e.restart == d.restart && e.followers == d.followers && e.retained == d.retained,
{
}

/// An extension has lost its owner where it is not kept and the endpoint that it was
/// attached to is gone.
pub proof fn law_owner_is_lost(s: Service, d: Definition)
    ensures
        d.flags.persist ==> !spec_owner_lost(s, d),
        d.owner_endpoint is None ==> !spec_owner_lost(s, d),
        !d.flags.persist && d.owner_endpoint is Some ==> (spec_owner_lost(s, d)
            <==> !s.endpoints@.dom().contains(d.owner_endpoint->0)),
{
}

/// What cannot go on is blocked, or stopped where it is not to be, with nothing that
/// controls it and nothing to wait for.
pub proof fn law_blocked_is_at_rest(d: Definition, e: Definition, block: bool)
    requires
        blocked_definition(d, e, block),
    ensures
        e.phase == (if block {
            Phase::Blocked
        } else {
            Phase::Stopped
        }),
        e.task_id == 0 && e.control is None && e.next_start_unix_ms == 0,
        e.flags == d.flags && e.generation == d.generation && e.attempt == d.attempt
            && e.failure_count == d.failure_count && e.extension_id == d.extension_id,
{
}

/// A module is told by its first four bytes.
pub proof fn law_modules_are_told_apart(object: Seq<u8>, rest: Seq<u8>)
    ensures
        spec_is_wasm(seq![0u8, 0x61, 0x73, 0x6d] + rest),
        spec_is_wasm(object) ==> object.len() >= 4 && object.take(4) == seq![
            0u8,
            0x61,
            0x73,
            0x6d,
        ],
{
    if spec_is_wasm(object) {
        assert(object.take(4) =~= seq![0u8, 0x61, 0x73, 0x6d]);
    }
}

/// A generation goes up by one with every change, and stays where it can go no further;
/// a deadline is its time from now, as far as that can be said.
pub proof fn law_counts_go_up(n: u64, now: u64, ms: u64)
    ensures
        n < u64::MAX ==> next_generation(n) == n + 1,
        next_generation(u64::MAX) == u64::MAX,
        now + ms <= u64::MAX ==> after_ms(now, ms) == now + ms,
        now + ms > u64::MAX ==> after_ms(now, ms) == u64::MAX,
{
}

/// An extension whose creation has ended does not run, holds no arguments and is let go
/// of after its time.
pub proof fn law_ended_creation_is_let_go(
    before: Definition,
    after: Definition,
    generation: u64,
    now: u64,
    terminal_retain_ms: u64,
    detail: Seq<char>,
)
    requires
        creation_ended(before, after, generation, now, terminal_retain_ms, detail),
        now + terminal_retain_ms <= u64::MAX,
    ensures
        after.phase == Phase::Stopped,
        !after.flags.desired_running && after.flags.enabled == before.flags.enabled
            && after.flags.persist == before.flags.persist,
        after.pending_deadline is None,
        after.release_deadline is Some && after.release_deadline->0 == now + terminal_retain_ms,
        after.args is None && after.argument_reservation == 0,
        after.generation == generation && after.detail@ == detail,
        after.extension_id == before.extension_id && after.hash == before.hash && after.name
            == before.name && after.attempt == before.attempt && after.control == before.control,
{
}

/// An extension whose owner has gone is no longer to run: what runs is told to stop, and
/// what does not run is stopped.
pub proof fn law_owner_has_gone(before: Definition, after: Definition)
    requires
        owner_closed(before, after),
    ensures
        !after.flags.desired_running && after.flags.enabled == before.flags.enabled,
        after.interrupt == Some(Interrupt::OwnerClosed),
        before.generation < u64::MAX ==> after.generation == before.generation + 1,
        before.control is Some ==> after.phase == Phase::Stopping && after.task_id == 0
            && after.control == before.control && after.detail@ == before.detail@,
        before.control is None ==> after.phase == Phase::Stopped && after.pending_deadline is None
            && after.release_deadline is None,
        after.extension_id == before.extension_id && after.attempt == before.attempt && after.args
            == before.args,
{
}

/// The time to wait is never longer than the bound for the number of failures, which is a
/// quarter of a second for the first; a drawn number is used by its remainder, and
/// refused only where its remainders would not be equally likely. Where none could be
/// drawn the whole bound is waited.
pub proof fn law_wait_is_bounded(failures: u32, sample: u64, refused: String)
    ensures
        ({
            let range = backoff_cap_ms(failures) * 1_000_000 + 1;
            &&& backoff_cap_ms(failures) <= 30_000
            &&& sampled(failures, sample) is Some ==> sampled(failures, sample)->0 < range
            &&& sampled(failures, sample) is Some ==> sampled(failures, sample)->0 == sample % (
            range as u64)
            &&& sample < u64::MAX - range ==> sampled(failures, sample) is Some
            &&& wait_of(failures, Ok(sample)) == sampled(failures, sample)
            &&& wait_of(failures, Err(refused)) is Some
            &&& wait_of(failures, Err(refused))->0 == range - 1
        }),
{
    let range = (backoff_cap_ms(failures) * 1_000_000 + 1) as u64;
    assert(u64::MAX % range < range);
    assert(sample % range < range);
}

} // verus!
