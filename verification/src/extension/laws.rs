//! What holds of extensions as a whole.

use vstd::prelude::*;

use crate::extension::attempt::finish_plan;
use crate::extension::control::{spec_interrupt_of, spec_switches, Mutation};
use crate::extension::definition::Definition;
use crate::extension::exit::{
    classified, AttemptOutcome, ConnectionFailure, DrivenAttempt, FailureKind,
};
use crate::extension::lifecycle::mutated;
use crate::extension::protocol::{ExitReason, Interrupt, Phase, Restart};

verus! {

/// Whether the server gave up the connection of an attempt, or the connection closed
/// before the program ended.
pub open spec fn connection_failed(a: DrivenAttempt) -> bool {
    a.connection_failure == Some(ConnectionFailure::SlowConsumer) || a.connection_failure == Some(
        ConnectionFailure::ResourceLimit,
    ) || a.handler_closed_first
}

/// Whether an attempt that nobody interrupted went wrong: its connection failed, or
/// its program failed or returned a code other than zero.
pub open spec fn went_wrong(a: DrivenAttempt) -> bool {
    connection_failed(a) || match a.outcome {
        AttemptOutcome::Returned(code) => code != 0,
        AttemptOutcome::Cancelled => false,
        AttemptOutcome::Failed(_) => true,
    }
}

/// An attempt that nobody interrupted counts as a failure exactly when it went wrong;
/// one that was interrupted never does, however it ended.
pub proof fn law_failure_is_what_went_wrong(a: DrivenAttempt, interrupt: Option<Interrupt>)
    ensures
        classified(a, interrupt).failure <==> interrupt is None && went_wrong(a),
{
}

/// What is told of an end says what ended it: an interrupt before what the
/// connection did, and that before what the program did. Only a program that
/// returned has a code, and its own text is told of a program that failed.
pub proof fn law_exit_tells_what_ended_it(a: DrivenAttempt, interrupt: Option<Interrupt>)
    ensures
        ({
            let x = classified(a, interrupt);
            let program = interrupt is None && !connection_failed(a);
            &&& x.reason == ExitReason::Updated <==> interrupt == Some(Interrupt::Updated)
                || interrupt == Some(Interrupt::Restarted)
            &&& x.reason == ExitReason::ServerShutdown <==> interrupt == Some(
                Interrupt::ServerShutdown,
            )
            &&& x.reason == ExitReason::Cancelled <==> interrupt == Some(Interrupt::Cancelled)
                || interrupt == Some(Interrupt::Disabled) || interrupt == Some(
                Interrupt::OwnerClosed,
            ) || (program && a.outcome is Cancelled)
            &&& x.reason == ExitReason::SlowConsumer <==> interrupt is None && a.connection_failure
                == Some(ConnectionFailure::SlowConsumer)
            &&& x.reason == ExitReason::ResourceLimit <==> interrupt is None
                && a.connection_failure == Some(ConnectionFailure::ResourceLimit)
            &&& x.reason == ExitReason::Returned <==> program && a.outcome is Returned
            &&& x.reason == ExitReason::Trapped <==> program && (a.outcome matches
                AttemptOutcome::Failed(e) && e.kind == FailureKind::Trap)
            &&& x.reason == ExitReason::HostFailure <==> program && (a.outcome matches
                AttemptOutcome::Failed(e) && (e.kind == FailureKind::Validation || e.kind
                == FailureKind::Instantiation || e.kind == FailureKind::HostFailure))
            &&& program && a.outcome is Returned ==> x.code == a.outcome->Returned_0
            &&& !(program && a.outcome is Returned) ==> x.code == 0
            &&& program && a.outcome is Failed ==> x.detail == a.outcome->Failed_0.detail@
        }),
{
}

/// What an interrupt ends is told without regard to how the attempt itself ended.
pub proof fn law_interrupt_hides_the_end(a: DrivenAttempt, b: DrivenAttempt, i: Interrupt)
    ensures
        classified(a, Some(i)) == classified(b, Some(i)),
{
}

/// After an end that nobody asked for, a definition that is enabled and meant to run
/// backs off and runs again where its policy is to restart always, or to restart on
/// failure and the attempt went wrong; otherwise it stops and is no longer meant to
/// run.
pub proof fn law_policy_decides_after_an_end(
    d: Definition,
    generation: u64,
    a: DrivenAttempt,
    now_unix_ms: u64,
    wait_ns: u64,
)
    requires
        d.interrupt is None,
    ensures
        ({
            let p = finish_plan(d, generation, a, now_unix_ms, wait_ns);
            let again = d.flags.enabled && d.flags.desired_running && match d.restart {
                Restart::Always => true,
                Restart::OnFailure => went_wrong(a),
                Restart::Never => false,
            };
            &&& p.restart == again
            &&& p.backoff == again
            &&& again ==> p.phase == Phase::Backoff && p.flags == d.flags && p.wait_ns == wait_ns
            &&& again && now_unix_ms + wait_ns / 1_000_000 <= u64::MAX ==> p.next_start_unix_ms
                == now_unix_ms + wait_ns / 1_000_000
            &&& !again ==> p.phase == Phase::Stopped && !p.flags.desired_running && p.flags.enabled
                == d.flags.enabled && p.flags.persist == d.flags.persist && p.flags.detach
                == d.flags.detach && p.next_start_unix_ms == 0 && p.wait_ns == 0
            &&& p.generation == d.generation
        }),
{
}

/// After an interrupt the policy is not asked: an update or a restart queues the next
/// attempt at once, and any other interrupt ends in a definition at rest. Neither
/// changes the switches.
pub proof fn law_interrupt_decides_before_the_policy(
    d: Definition,
    generation: u64,
    a: DrivenAttempt,
    now_unix_ms: u64,
    wait_ns: u64,
)
    requires
        d.interrupt is Some,
    ensures
        ({
            let p = finish_plan(d, generation, a, now_unix_ms, wait_ns);
            let again = d.interrupt == Some(Interrupt::Updated) || d.interrupt == Some(
                Interrupt::Restarted,
            );
            &&& p.restart == again
            &&& !p.backoff
            &&& p.wait_ns == 0
            &&& p.next_start_unix_ms == 0
            &&& p.flags == d.flags
            &&& p.phase == if again {
                Phase::Queued
            } else {
                Phase::Stopped
            }
            &&& again && d.generation == generation && generation < u64::MAX ==> p.generation
                == generation + 1
            &&& !again || d.generation != generation ==> p.generation == d.generation
        }),
{
}

/// Failures in a row are counted: each adds one, an attempt that ran for a minute
/// clears those before it, and a program that returned zero clears them all.
pub proof fn law_failures_are_counted(
    d: Definition,
    generation: u64,
    a: DrivenAttempt,
    now_unix_ms: u64,
    wait_ns: u64,
)
    ensures
        ({
            let n = finish_plan(d, generation, a, now_unix_ms, wait_ns).failure_count;
            let failed = d.interrupt is None && went_wrong(a);
            let clean = d.interrupt is None && !connection_failed(a) && a.outcome
                == AttemptOutcome::Returned(0);
            &&& failed && a.running_for_ms < 60_000 && d.failure_count < u32::MAX ==> n
                == d.failure_count + 1
            &&& failed && a.running_for_ms >= 60_000 ==> n == 1
            &&& clean ==> n == 0
            &&& !failed && !clean && a.running_for_ms < 60_000 ==> n == d.failure_count
            &&& !failed && !clean && a.running_for_ms >= 60_000 ==> n == 0
        }),
{
}

/// A change of lifecycle sets its own switch and leaves the other: cancelling turns
/// off that the definition is meant to run, restarting turns it on, and enabling and
/// disabling set whether it is enabled.
pub proof fn law_switches_are_set_alone(
    d: Definition,
    m: Mutation,
    now: u64,
    terminal_retain_ms: u64,
)
    requires
        m != Mutation::Remove,
    ensures
        ({
            let e = mutated(
                d,
                spec_switches(m).0,
                spec_switches(m).1,
                spec_interrupt_of(m),
                now,
                terminal_retain_ms,
            );
            &&& e.flags.desired_running == (m == Mutation::Restart || (m != Mutation::Cancel
                && d.flags.desired_running))
            &&& e.flags.enabled == (m == Mutation::Enable || (m != Mutation::Disable
                && d.flags.enabled))
            &&& e.flags.persist == d.flags.persist
            &&& e.flags.detach == d.flags.detach
        }),
{
}

/// A definition that is committed runs on as its switches say: while an attempt runs
/// it is stopping first, and else it is queued where it is enabled and meant to run,
/// and stopped where it is not. So after a restart an enabled definition without an
/// attempt is queued, and after an enable one that is meant to run.
pub proof fn law_changed_definition_follows_its_switches(
    d: Definition,
    m: Mutation,
    now: u64,
    terminal_retain_ms: u64,
)
    requires
        m != Mutation::Remove,
    ensures
        ({
            let e = mutated(
                d,
                spec_switches(m).0,
                spec_switches(m).1,
                spec_interrupt_of(m),
                now,
                terminal_retain_ms,
            );
            let waits = d.phase == Phase::NeedObject && !d.catalog_committed;
            let wanted = e.flags.enabled && e.flags.desired_running;
            &&& !waits && d.control is Some ==> e.phase == Phase::Stopping && e.task_id == 0
            &&& !waits && d.control is None ==> e.phase == if wanted {
                Phase::Queued
            } else {
                Phase::Stopped
            }
            &&& waits ==> e.phase == if wanted {
                Phase::NeedObject
            } else {
                Phase::Stopped
            }
            &&& m == Mutation::Restart && d.flags.enabled && !waits && d.control is None ==> e.phase
                == Phase::Queued
            &&& m == Mutation::Enable && d.flags.desired_running && !waits && d.control is None
                ==> e.phase == Phase::Queued
            &&& e.next_start_unix_ms == 0
            &&& e.control == d.control
            &&& e.extension_id == d.extension_id
            &&& e.definition_revision == d.definition_revision
            &&& e.name == d.name
            &&& e.hash == d.hash
            &&& e.restart == d.restart
        }),
{
}

/// A restart and an enable interrupt a running attempt so that another follows it;
/// a cancel and a disable so that none does.
pub proof fn law_change_and_what_follows_the_attempt(
    d: Definition,
    m: Mutation,
    now: u64,
    terminal_retain_ms: u64,
    a: DrivenAttempt,
    now_unix_ms: u64,
    wait_ns: u64,
)
    requires
        m != Mutation::Remove,
    ensures
        ({
            let e = mutated(
                d,
                spec_switches(m).0,
                spec_switches(m).1,
                spec_interrupt_of(m),
                now,
                terminal_retain_ms,
            );
            finish_plan(e, e.generation, a, now_unix_ms, wait_ns).restart == (m == Mutation::Restart
                || m == Mutation::Enable)
        }),
{
}

} // verus!
