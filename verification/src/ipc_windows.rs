//! Where the server listens on Windows, and how it claims a pipe name that
//! another server owns.

use vstd::prelude::*;

use crate::ipc_unix::text_of;
use crate::text::{concat, concat3};

verus! {

/// The pipe of the server called `name`, below the user's name where there is
/// one.
pub open spec fn pipe_path(user: Option<Seq<char>>, name: Seq<char>) -> Seq<char> {
    match user {
        Some(u) => "\\\\.\\pipe\\blit-"@ + u + "-"@ + name,
        None => "\\\\.\\pipe\\blit-"@ + name,
    }
}

/// The pipe of the server called `name`, given the value of `USERNAME`.
pub fn default_ipc_path_for(user: Option<&str>, name: &str) -> (path: String)
    ensures
        path@ == pipe_path(text_of(user), name@),
{
    match user {
        Some(u) => {
            let front = concat3("\\\\.\\pipe\\blit-", u, "-");
            concat(front.as_str(), name)
        },
        None => concat("\\\\.\\pipe\\blit-", name),
    }
}

/// The pipe of the server that goes by the default name.
pub fn default_ipc_path(user: Option<&str>, default_name: &str) -> (path: String)
    ensures
        path@ == pipe_path(text_of(user), default_name@),
{
    default_ipc_path_for(user, default_name)
}

/// How often a pipe name that is in use is tried again.
pub const REPLACE_ATTEMPTS: u32 = 30;

/// How long the new server waits between tries, in milliseconds.
pub const REPLACE_INTERVAL_MS: u64 = 100;

/// Where claiming the pipe name stands: which try this is, and whether the
/// previous server has been asked to quit.
#[derive(Clone, Copy, Debug, PartialEq, Eq, Structural)]
pub enum ClaimState {
    Trying { attempt: u32, asked: bool },
    /// The name is in use and the previous server is to be asked to quit.
    Asking { attempt: u32 },
    Claimed,
    Failed,
}

/// What the outside reports.
#[derive(Clone, Copy, Debug, PartialEq, Eq, Structural)]
pub enum ClaimEvent {
    Created,
    /// The name belongs to another server.
    InUse,
    /// The pipe could not be created for another reason.
    OtherError,
    /// Whether the request to quit was written.
    Asked(bool),
}

impl ClaimState {
    /// A name in use is tried again until the attempts run out; the previous
    /// server is asked before each wait until one request is written.
    pub open spec fn spec_next(self, event: ClaimEvent) -> ClaimState {
        match (self, event) {
            (ClaimState::Trying { .. }, ClaimEvent::Created) => ClaimState::Claimed,
            (ClaimState::Trying { .. }, ClaimEvent::OtherError) => ClaimState::Failed,
            (ClaimState::Trying { attempt, asked }, ClaimEvent::InUse) => if attempt
                >= REPLACE_ATTEMPTS {
                ClaimState::Failed
            } else if asked {
                ClaimState::Trying { attempt: (attempt + 1) as u32, asked }
            } else {
                ClaimState::Asking { attempt }
            },
            (ClaimState::Asking { attempt }, ClaimEvent::Asked(written)) => if attempt
                >= REPLACE_ATTEMPTS {
                ClaimState::Failed
            } else {
                ClaimState::Trying { attempt: (attempt + 1) as u32, asked: written }
            },
            (s, _) => s,
        }
    }

    pub fn next(self, event: ClaimEvent) -> (s: ClaimState)
        ensures
            s == self.spec_next(event),
    {
        match self {
            ClaimState::Trying { attempt, asked } => match event {
                ClaimEvent::Created => ClaimState::Claimed,
                ClaimEvent::OtherError => ClaimState::Failed,
                ClaimEvent::InUse => if attempt >= REPLACE_ATTEMPTS {
                    ClaimState::Failed
                } else if asked {
                    ClaimState::Trying { attempt: attempt + 1, asked }
                } else {
                    ClaimState::Asking { attempt }
                },
                ClaimEvent::Asked(_) => self,
            },
            ClaimState::Asking { attempt } => match event {
                ClaimEvent::Asked(written) => if attempt >= REPLACE_ATTEMPTS {
                    ClaimState::Failed
                } else {
                    ClaimState::Trying { attempt: attempt + 1, asked: written }
                },
                _ => self,
            },
            ClaimState::Claimed => self,
            ClaimState::Failed => self,
        }
    }
}

/// Once a request to quit has been written, no further one is.
pub proof fn law_previous_server_is_asked_once(s: ClaimState, event: ClaimEvent)
    requires
        s matches ClaimState::Trying { asked, .. } ==> asked,
        s !is Asking,
    ensures
        s.spec_next(event) !is Asking,
        s.spec_next(event) matches ClaimState::Trying { asked, .. } ==> asked,
{
}

/// The message that asks the previous server to quit: a frame of one byte.
pub fn quit_frame(quit: u8) -> (frame: Vec<u8>)
    ensures
        frame@ == seq![1u8, 0, 0, 0, quit],
{
    let mut frame: Vec<u8> = Vec::new();
    frame.push(1);
    frame.push(0);
    frame.push(0);
    frame.push(0);
    frame.push(quit);
    proof {
        assert(frame@ =~= seq![1u8, 0, 0, 0, quit]);
    }
    frame
}

} // verus!
