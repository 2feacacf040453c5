//! What holds of what surrounds the server: jobs, sockets, libraries and environments.

use vstd::prelude::*;

use crate::app_env::toolkit_pairs;
use crate::desktop_bus::{bus_address, bus_environment_spec, removed_spec, set_time, timeouts, Timeouts};
use crate::extension_jobs::{
    active_weight, bytes_weight, counts, job_outcome, pending_weight, place_weight,
};
use crate::extension_jobs::{Activation, Job, JobStage, JobTracker, RunError};
use crate::gpu_libs::{last_reason, names_of, optional_of, required_of, symbol_reason};
use crate::gpu_libs::{Attempt, GpuLibrary};
use crate::ipc_unix::{from_systemd_fd, ipc_path, lock_path, recv_fd};
use crate::ipc_unix::{BindAction, BindEvent, BindState, RecvFdResult, RecvReport};
use crate::ipc_windows::{pipe_path, ClaimEvent, ClaimState};
use crate::text::laws::law_numbers_are_read_back;
use crate::text::{digits_of, trimmed};

verus! {

/// A job counts for its own endpoint and for all. Until it runs it is pending, and while
/// it runs it is active; it keeps a place from when it has one; and its bytes count as
/// long as it is there.
pub proof fn law_how_jobs_count(e: u64, j: Job)
    ensures
        counts(None, j),
        counts(Some(e), j) <==> j.endpoint == e,
        pending_weight(None)(j) + active_weight(None)(j) == 1,
        active_weight(None)(j) == 1 <==> j.stage == JobStage::Active,
        place_weight(None)(j) == 1 <==> j.stage == JobStage::Holding || j.stage == JobStage::Active,
        bytes_weight(None)(j) == j.bytes,
        j.endpoint == e ==> pending_weight(Some(e))(j) == pending_weight(None)(j) && active_weight(
            Some(e),
        )(j) == active_weight(None)(j) && bytes_weight(Some(e))(j) == j.bytes,
        j.endpoint != e ==> pending_weight(Some(e))(j) == 0 && active_weight(Some(e))(j) == 0
            && place_weight(Some(e))(j) == 0 && bytes_weight(Some(e))(j) == 0,
{
}

/// There is room for a job where both its endpoint and the whole may have one more and
/// its bytes.
pub proof fn law_room_for_jobs(t: JobTracker, e: u64, bytes: usize)
    ensures
        t.room_for(e, bytes) <==> t.pending(Some(e)) + 1 <= t.limits.pending_per_endpoint
            && t.pending(None) + 1 <= t.limits.pending_global && t.bytes(Some(e)) + bytes
            <= t.limits.bytes_per_endpoint && t.bytes(None) + bytes <= t.limits.bytes_global,
{
}

/// A job first takes a place of its endpoint and then one of all, each where there is one,
/// and then runs; what was cancelled is given up instead.
pub proof fn law_jobs_go_their_way(t: JobTracker, k: u64, launch_cancelled: bool)
    ensures
        ({
            let j = t.jobs@[k];
            let off = launch_cancelled || t.endpoints@[j.endpoint].cancelled;
            let a = t.activation(k, launch_cancelled);
            &&& a == Activation::GivenUp <==> off
            &&& !off && j.stage == JobStage::Active ==> a == Activation::Runs
            &&& !off && j.stage == JobStage::Waiting ==> (a == Activation::Holds <==> t.places(
                Some(j.endpoint),
            ) < t.limits.active_per_endpoint)
            &&& !off && j.stage == JobStage::Waiting && a != Activation::Holds ==> a
                == Activation::NotYet
            &&& !off && j.stage == JobStage::Holding ==> (a == Activation::Runs <==> t.active(None)
                < t.limits.active_global)
            &&& !off && j.stage == JobStage::Holding && a != Activation::Runs ==> a
                == Activation::NotYet
        }),
{
}

/// A job has a result where it ran to its end.
pub proof fn law_job_outcomes(
    activated: bool,
    launch_cancelled: bool,
    panicked: bool,
    r: Result<(), RunError>,
)
    requires
        call_ensures(job_outcome, (activated, launch_cancelled, panicked), r),
    ensures
        r is Ok <==> activated && !launch_cancelled && !panicked,
        r == Err::<(), RunError>(RunError::Panicked) <==> activated && !launch_cancelled && panicked,
{
}

/// A time is the number that it is set to; one that is not set is the one that it comes
/// with.
pub proof fn law_times_are_read(n: nat, default: u64)
    ensures
        n <= u64::MAX ==> set_time(Some(digits_of(n)), default) == n,
        n > u64::MAX ==> set_time(Some(digits_of(n)), default) == default,
        set_time(None, default) == default,
{
    law_numbers_are_read_back(n, u64::MAX as nat);
}

/// Where nothing is set notifications stay from one second to a day, and ten seconds
/// usually; the usual time is never outside the two others.
pub proof fn law_notification_times(
    minimum: Option<String>,
    maximum: Option<String>,
    default: Option<String>,
    t: Timeouts,
)
    requires
        call_ensures(timeouts, (&minimum, &maximum, &default), t),
    ensures
        t.minimum_ms <= t.default_ms <= t.maximum_ms,
        minimum is None ==> t.minimum_ms == 1000,
        minimum is None && maximum is None ==> t.maximum_ms == 24 * 60 * 60 * 1000,
        minimum is None && maximum is None && default is None ==> t.default_ms == 10_000,
{
}

/// The bus's address is what it printed without the white space around it.
pub proof fn law_bus_addresses(line: &str, r: Result<String, &'static str>)
    requires
        call_ensures(bus_address, (line,), r),
    ensures
        r is Ok <==> trimmed(line@).len() > 0,
        r matches Ok(a) ==> a@ == trimmed(line@),
{
}

/// The bus is told the runtime directory and the display first. Programs are told the
/// other display where there is one, and it is taken from them where there is none.
pub proof fn law_display_environments(
    dir: Seq<char>,
    display: Seq<char>,
    x_display: Option<Seq<char>>,
)
    ensures
        ({
            let e = bus_environment_spec(dir, display, x_display);
            &&& e[0] == ("XDG_RUNTIME_DIR"@, dir)
            &&& e[1] == ("WAYLAND_DISPLAY"@, display)
            &&& e.skip(2) == toolkit_pairs(x_display)
            &&& x_display matches Some(x) ==> toolkit_pairs(x_display).contains(("DISPLAY"@, x))
            &&& x_display is Some ==> toolkit_pairs(x_display).len() == 9
            &&& x_display is None ==> toolkit_pairs(x_display).len() == 7
            &&& !(x_display is Some) ==> removed_spec(x_display is Some)[0] == "DISPLAY"@
            &&& removed_spec(x_display is Some).contains("DBUS_SESSION_BUS_ADDRESS"@)
            &&& removed_spec(x_display is Some).contains("DBUS_SYSTEM_BUS_ADDRESS"@)
        }),
{
    let e = bus_environment_spec(dir, display, x_display);
    assert(e.skip(2) =~= toolkit_pairs(x_display));
    if x_display is Some {
        assert(toolkit_pairs(x_display)[7] == ("DISPLAY"@, x_display->0));
        assert(removed_spec(true)[0] == "DBUS_SESSION_BUS_ADDRESS"@);
        assert(removed_spec(true)[1] == "DBUS_SYSTEM_BUS_ADDRESS"@);
    } else {
        assert(removed_spec(false)[1] == "DBUS_SESSION_BUS_ADDRESS"@);
        assert(removed_spec(false)[2] == "DBUS_SYSTEM_BUS_ADDRESS"@);
    }
}

/// The socket is in the temporary directory where one is set, else in the runtime
/// directory, and else among the temporary files under the user's name.
pub proof fn law_socket_paths(
    tmpdir: Option<Seq<char>>,
    runtime_dir: Option<Seq<char>>,
    user: Option<Seq<char>>,
)
    ensures
        tmpdir matches Some(d) ==> ipc_path(tmpdir, runtime_dir, user) == d + "/blit.sock"@,
        tmpdir is None ==> (runtime_dir matches Some(d) ==> ipc_path(tmpdir, runtime_dir, user) == d
            + "/blit.sock"@),
        tmpdir is None && runtime_dir is None ==> (user matches Some(u) ==> ipc_path(
            tmpdir,
            runtime_dir,
            user,
        ) == "/tmp/blit-"@ + u + ".sock"@),
        tmpdir is None && runtime_dir is None && user is None ==> ipc_path(tmpdir, runtime_dir, user)
            == "/tmp/blit.sock"@,
{
}

/// Different users have different pipes under one name.
pub proof fn law_pipe_paths(a: Seq<char>, b: Seq<char>, name: Seq<char>)
    ensures
        pipe_path(Some(a), name) == pipe_path(Some(b), name) ==> a == b,
        pipe_path(Some(a), name) == "\\\\.\\pipe\\blit-"@ + a + "-"@ + name,
        pipe_path(None, name) == "\\\\.\\pipe\\blit-"@ + name,
{
    let front = "\\\\.\\pipe\\blit-"@;
    let pa = pipe_path(Some(a), name);
    let pb = pipe_path(Some(b), name);
    if pa == pb {
        assert(pa.len() == front.len() + a.len() + "-"@.len() + name.len());
        assert(pb.len() == front.len() + b.len() + "-"@.len() + name.len());
        let n = front.len() as int;
        assert(pa.subrange(n, n + a.len()) =~= a);
        assert(pb.subrange(n, n + b.len()) =~= b);
    }
}

/// A server binds its socket once it has the lock. Where another has it that one is looked
/// up and told to go, and the lock is waited for; after thirty tries it is given up.
pub proof fn law_sockets_are_taken_over(n: u32)
    requires
        n < 30,
    ensures
        BindState::Start.spec_next(BindEvent::Lock(true)) == BindState::Locked,
        BindState::Start.spec_next(BindEvent::Lock(false)) == BindState::Holder,
        BindState::Holder.spec_next(BindEvent::HolderDone) == BindState::Waiting(0),
        BindState::Waiting(n).spec_next(BindEvent::Lock(true)) == BindState::Locked,
        n < 29 ==> BindState::Waiting(n).spec_next(BindEvent::Lock(false)) == BindState::Waiting(
            (n + 1) as u32,
        ),
        n == 29 ==> BindState::Waiting(n).spec_next(BindEvent::Lock(false)) == BindState::Failed,
        BindState::Start.spec_action() == BindAction::TryLock,
        BindState::Holder.spec_action() == BindAction::ReadHolder,
        BindState::Waiting(n).spec_action() == BindAction::WaitThenTryLock,
        BindState::Locked.spec_action() == BindAction::Bind,
        BindState::Failed.spec_action() == BindAction::GiveUp,
        forall|e: BindEvent|
            #![trigger BindState::Locked.spec_next(e)]
            BindState::Locked.spec_next(e) == BindState::Locked,
        forall|e: BindEvent|
            #![trigger BindState::Failed.spec_next(e)]
            BindState::Failed.spec_next(e) == BindState::Failed,
{
}

/// A pipe that another server has is tried again after that one was asked to go, until
/// thirty tries have failed; any other error ends it at once.
pub proof fn law_pipes_are_taken_over(attempt: u32, asked: bool, written: bool)
    ensures
        ({
            let s = ClaimState::Trying { attempt, asked };
            &&& s.spec_next(ClaimEvent::Created) == ClaimState::Claimed
            &&& s.spec_next(ClaimEvent::OtherError) == ClaimState::Failed
            &&& attempt >= 30 ==> s.spec_next(ClaimEvent::InUse) == ClaimState::Failed
            &&& attempt < 30 && asked ==> s.spec_next(ClaimEvent::InUse) == (ClaimState::Trying {
                attempt: (attempt + 1) as u32,
                asked: true,
            })
            &&& attempt < 30 && !asked ==> s.spec_next(ClaimEvent::InUse) == (ClaimState::Asking {
                attempt,
            })
            &&& attempt < 30 ==> (ClaimState::Asking { attempt }).spec_next(
                ClaimEvent::Asked(written),
            ) == (ClaimState::Trying { attempt: (attempt + 1) as u32, asked: written })
            &&& attempt >= 30 ==> (ClaimState::Asking { attempt }).spec_next(
                ClaimEvent::Asked(written),
            ) == ClaimState::Failed
        }),
{
}

/// A descriptor is received with at least one byte; a call that is to be repeated is told
/// apart from a channel that is closed.
pub proof fn law_descriptors_are_received(report: RecvReport, r: RecvFdResult)
    requires
        call_ensures(recv_fd, (report,), r),
    ensures
        report matches RecvReport::Received { bytes, rights } ==> {
            &&& bytes > 0 && rights is Some ==> r == RecvFdResult::Fd(rights->0)
            &&& bytes == 0 || rights is None ==> r == RecvFdResult::Closed
        },
        report matches RecvReport::Failed { would_block, interrupted } ==> (r
            == RecvFdResult::WouldBlock <==> would_block || interrupted),
        report is Failed && r != RecvFdResult::WouldBlock ==> r == RecvFdResult::Closed,
{
}

/// A socket is taken from the service manager where it handed over exactly one, to this
/// process.
pub proof fn law_handed_over_sockets(fds: &str, pid: &str, ours: &str, r: bool, a: bool, b: bool)
    requires
        call_ensures(from_systemd_fd, (Some(fds), Some(pid), ours), r),
        call_ensures(from_systemd_fd, (None, Some(pid), ours), a),
        call_ensures(from_systemd_fd, (Some(fds), None, ours), b),
    ensures
        r <==> trimmed(fds@) == "1"@ && trimmed(pid@) == ours@,
        !a && !b,
{
}

/// The lock file is beside the socket.
pub proof fn law_lock_files(path: &str, r: String)
    requires
        call_ensures(lock_path, (path,), r),
    ensures
        r@ == path@ + ".lock"@,
{
}

/// The reason that is told is the last that the system gave.
pub proof fn law_last_reason(attempts: Seq<Attempt>, one: Attempt, reason: String)
    ensures
        last_reason(Seq::empty()).len() == 0,
        one == Attempt::Missing(Some(reason)) ==> last_reason(attempts.push(one)) == reason@,
        one is Loaded || one is Skipped || one == Attempt::Missing(None) ==> last_reason(
            attempts.push(one),
        ) == last_reason(attempts),
{
    assert(attempts.push(one).drop_last() =~= attempts);
}

/// What a function that is missing is told as: its name, and what the system said of it.
pub proof fn law_missing_functions(name: Seq<char>, detail: Seq<char>)
    ensures
        symbol_reason(name, Some(detail)) == name + ": "@ + detail,
        symbol_reason(name, None) == name + ": symbol not found"@,
{
    reveal_strlit(": ");
    reveal_strlit("symbol not found");
    reveal_strlit(": symbol not found");
    assert(symbol_reason(name, None) =~= name + ": symbol not found"@);
}

/// Every library is looked for under two names, the one with its version first, and none of
/// its functions is both needed and not.
pub proof fn law_library_names(lib: GpuLibrary)
    ensures
        names_of(lib).len() == 2,
        names_of(lib)[0].len() == names_of(lib)[1].len() + 2,
        names_of(lib)[0].take(names_of(lib)[1].len() as int) == names_of(lib)[1],
        required_of(lib).len() > 0,
        lib != GpuLibrary::Cuda ==> optional_of(lib).len() == 0,
{
    reveal_strlit("libcuda.so.1");
    reveal_strlit("libcuda.so");
    reveal_strlit("libnvidia-encode.so.1");
    reveal_strlit("libnvidia-encode.so");
    reveal_strlit("libva.so.2");
    reveal_strlit("libva.so");
    reveal_strlit("libva-drm.so.2");
    reveal_strlit("libva-drm.so");
    assert(names_of(lib)[0].take(names_of(lib)[1].len() as int) =~= names_of(lib)[1]);
}

} // verus!
