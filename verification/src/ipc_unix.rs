//! Where the server listens on Unix, and how it takes over from a server that
//! already listens there.

use vstd::prelude::*;

use crate::text::{concat, concat3, parse_i32, same_text, signed32, trim, trimmed};

verus! {

/// The socket path that the environment asks for: below `TMPDIR`, else below
/// `XDG_RUNTIME_DIR`, else in `/tmp` under the user's name.
pub open spec fn ipc_path(
    tmpdir: Option<Seq<char>>,
    runtime_dir: Option<Seq<char>>,
    user: Option<Seq<char>>,
) -> Seq<char> {
    match (tmpdir, runtime_dir, user) {
        (Some(dir), _, _) => dir + "/blit.sock"@,
        (None, Some(dir), _) => dir + "/blit.sock"@,
        (None, None, Some(name)) => "/tmp/blit-"@ + name + ".sock"@,
        (None, None, None) => "/tmp/blit.sock"@,
    }
}

/// The text of an optional variable.
pub open spec fn text_of(v: Option<&str>) -> Option<Seq<char>> {
    match v {
        Some(s) => Some(s@),
        None => None,
    }
}

/// The socket path, given the values of `TMPDIR`, `XDG_RUNTIME_DIR` and `USER`.
pub fn default_ipc_path(
    tmpdir: Option<&str>,
    runtime_dir: Option<&str>,
    user: Option<&str>,
) -> (path: String)
    ensures
        path@ == ipc_path(text_of(tmpdir), text_of(runtime_dir), text_of(user)),
{
    if let Some(dir) = tmpdir {
        return concat(dir, "/blit.sock");
    }
    if let Some(dir) = runtime_dir {
        return concat(dir, "/blit.sock");
    }
    if let Some(name) = user {
        return concat3("/tmp/blit-", name, ".sock");
    }
    "/tmp/blit.sock".to_owned()
}

/// The lock file that stands beside the socket.
pub fn lock_path(path: &str) -> (r: String)
    ensures
        r@ == path@ + ".lock"@,
{
    concat(path, ".lock")
}

/// How often a lock that another server holds is tried again.
pub const LOCK_RETRIES: u32 = 30;

/// How long the new server waits between tries, in milliseconds.
pub const LOCK_RETRY_MS: u64 = 100;

/// Where taking the socket over stands.
#[derive(Clone, Copy, Debug, PartialEq, Eq, Structural)]
pub enum BindState {
    /// The lock has not been tried.
    Start,
    /// Another server holds the lock and its process id is being read.
    Holder,
    /// The lock has been waited for this many times.
    Waiting(u32),
    /// The lock is held.
    Locked,
    /// The lock could not be had.
    Failed,
}

/// What the outside reports.
#[derive(Clone, Copy, Debug, PartialEq, Eq, Structural)]
pub enum BindEvent {
    /// Whether a try at the lock succeeded.
    Lock(bool),
    /// The holder's process id was read and dealt with.
    HolderDone,
}

/// What is to be done next.
#[derive(Clone, Copy, Debug, PartialEq, Eq, Structural)]
pub enum BindAction {
    TryLock,
    ReadHolder,
    /// Sleep, then try the lock.
    WaitThenTryLock,
    /// Record the process id, replace the socket file, and bind.
    Bind,
    GiveUp,
}

impl BindState {
    /// The state after an event: a held lock ends the takeover, and a lock that
    /// is refused is tried once more after each wait until the retries run out.
    pub open spec fn spec_next(self, event: BindEvent) -> BindState {
        match (self, event) {
            (BindState::Start, BindEvent::Lock(true)) => BindState::Locked,
            (BindState::Start, BindEvent::Lock(false)) => BindState::Holder,
            (BindState::Holder, BindEvent::HolderDone) => BindState::Waiting(0),
            (BindState::Waiting(_), BindEvent::Lock(true)) => BindState::Locked,
            (BindState::Waiting(n), BindEvent::Lock(false)) => if n + 1 < LOCK_RETRIES {
                BindState::Waiting((n + 1) as u32)
            } else {
                BindState::Failed
            },
            (s, _) => s,
        }
    }

    /// What each state asks for.
    pub open spec fn spec_action(self) -> BindAction {
        match self {
            BindState::Start => BindAction::TryLock,
            BindState::Holder => BindAction::ReadHolder,
            BindState::Waiting(_) => BindAction::WaitThenTryLock,
            BindState::Locked => BindAction::Bind,
            BindState::Failed => BindAction::GiveUp,
        }
    }

    pub fn next(self, event: BindEvent) -> (s: BindState)
        ensures
            s == self.spec_next(event),
    {
        match self {
            BindState::Start => match event {
                BindEvent::Lock(got) => if got {
                    BindState::Locked
                } else {
                    BindState::Holder
                },
                BindEvent::HolderDone => self,
            },
            BindState::Holder => match event {
                BindEvent::HolderDone => BindState::Waiting(0),
                BindEvent::Lock(_) => self,
            },
            BindState::Waiting(n) => match event {
                BindEvent::Lock(got) => if got {
                    BindState::Locked
                } else if n < LOCK_RETRIES - 1 {
                    BindState::Waiting(n + 1)
                } else {
                    BindState::Failed
                },
                BindEvent::HolderDone => self,
            },
            BindState::Locked => self,
            BindState::Failed => self,
        }
    }

    pub fn action(self) -> (a: BindAction)
        ensures
            a == self.spec_action(),
    {
        match self {
            BindState::Start => BindAction::TryLock,
            BindState::Holder => BindAction::ReadHolder,
            BindState::Waiting(_) => BindAction::WaitThenTryLock,
            BindState::Locked => BindAction::Bind,
            BindState::Failed => BindAction::GiveUp,
        }
    }
}

/// The state after `n` further refusals of a lock that is being waited for.
pub open spec fn after_refusals(state: BindState, n: nat) -> BindState
    decreases n,
{
    if n == 0 {
        state
    } else {
        after_refusals(state, (n - 1) as nat).spec_next(BindEvent::Lock(false))
    }
}

/// A lock that is refused every time is waited for exactly as often as the
/// retries allow, and then given up.
pub proof fn law_lock_is_retried_then_given_up(n: nat)
    ensures
        n < LOCK_RETRIES ==> after_refusals(BindState::Waiting(0), n) == BindState::Waiting(
            n as u32,
        ),
        n >= LOCK_RETRIES ==> after_refusals(BindState::Waiting(0), n) == BindState::Failed,
    decreases n,
{
    if n > 0 {
        law_lock_is_retried_then_given_up((n - 1) as nat);
    }
}

/// The process to terminate, from what the lock file holds.
pub fn holder_pid(lock_file: &str) -> (pid: Option<i32>)
    ensures
        match pid {
            Some(p) => signed32(trimmed(lock_file@)) == Some(p as int),
            None => signed32(trimmed(lock_file@)) is None,
        },
{
    let text = trim(lock_file);
    parse_i32(text.as_str())
}

/// Whether the service manager handed over exactly one socket, and to this
/// process: `LISTEN_FDS` is `1` and `LISTEN_PID` is our own id.
pub fn from_systemd_fd(
    listen_fds: Option<&str>,
    listen_pid: Option<&str>,
    our_pid: &str,
) -> (r: bool)
    ensures
        r == (text_of(listen_fds) is Some && trimmed(text_of(listen_fds)->0) == "1"@ && text_of(
            listen_pid,
        ) is Some && trimmed(text_of(listen_pid)->0) == our_pid@),
{
    match (listen_fds, listen_pid) {
        (Some(fds), Some(pid)) => {
            let f = trim(fds);
            let p = trim(pid);
            same_text(f.as_str(), "1") && same_text(p.as_str(), our_pid)
        },
        _ => false,
    }
}

/// What one read of the descriptor channel gave.
#[derive(Clone, Copy, Debug, PartialEq, Eq, Structural)]
pub enum RecvFdResult {
    Fd(i32),
    WouldBlock,
    Closed,
}

/// What a receive call reported.
#[derive(Clone, Copy, Debug, PartialEq, Eq, Structural)]
pub enum RecvReport {
    /// The call failed; whether for want of data or by a signal.
    Failed { would_block: bool, interrupted: bool },
    /// This many bytes came, with the descriptor of the first control message
    /// if that message carried socket rights.
    Received { bytes: usize, rights: Option<i32> },
}

/// A descriptor comes only with at least one byte and socket rights; anything
/// else that is not a retry closes the channel.
pub fn recv_fd(report: RecvReport) -> (r: RecvFdResult)
    ensures
        r == match report {
            RecvReport::Failed { would_block, interrupted } => if would_block || interrupted {
                RecvFdResult::WouldBlock
            } else {
                RecvFdResult::Closed
            },
            RecvReport::Received { bytes, rights } => match rights {
                Some(fd) if bytes > 0 => RecvFdResult::Fd(fd),
                _ => RecvFdResult::Closed,
            },
        },
{
    match report {
        RecvReport::Failed { would_block, interrupted } => {
            if would_block || interrupted {
                RecvFdResult::WouldBlock
            } else {
                RecvFdResult::Closed
            }
        },
        RecvReport::Received { bytes, rights } => {
            if bytes == 0 {
                return RecvFdResult::Closed;
            }
            match rights {
                Some(fd) => RecvFdResult::Fd(fd),
                None => RecvFdResult::Closed,
            }
        },
    }
}

} // verus!
