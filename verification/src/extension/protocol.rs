//! Values that the extension protocol exchanges, by name.
//!
//! How each of them is numbered on the wire is the business of the codec that
//! frames messages; nothing here depends on a number.

use vstd::array::array_as_slice;
use vstd::prelude::*;

use crate::bytes::same_bytes;

verus! {

/// The content hash of an extension object.
pub type ObjectHash = [u8; 32];

/// How a request was answered.
#[derive(Clone, Copy, Debug, PartialEq, Eq, Structural)]
pub enum Status {
    Success,
    Permission,
    Invalid,
    NotFound,
    UnknownId,
    Conflict,
    TooLarge,
    Budget,
    AlreadyHave,
    Other,
}

/// Where a definition stands in its lifecycle. `Absent` is what a reply carries
/// that speaks of no definition.
#[derive(Clone, Copy, Debug, PartialEq, Eq, Structural)]
pub enum Phase {
    Absent,
    NeedObject,
    Queued,
    Validating,
    Running,
    Stopping,
    Stopped,
    Backoff,
    Blocked,
}

/// What happens after an attempt ends.
#[derive(Clone, Copy, Debug, PartialEq, Eq, Structural)]
pub enum Restart {
    Never,
    OnFailure,
    Always,
}

/// Why an attempt ended.
#[derive(Clone, Copy, Debug, PartialEq, Eq, Structural)]
pub enum ExitReason {
    Returned,
    Trapped,
    Cancelled,
    Updated,
    ServerShutdown,
    SlowConsumer,
    ResourceLimit,
    ProtocolViolation,
    HostFailure,
}

/// The switches of a definition.
#[derive(Clone, Copy, Debug, PartialEq, Eq, Structural)]
pub struct Flags {
    pub detach: bool,
    pub persist: bool,
    pub enabled: bool,
    pub desired_running: bool,
}

impl Flags {
    /// No switch set: what a reply carries that speaks of no definition.
    pub open spec fn spec_none() -> Flags {
        Flags { detach: false, persist: false, enabled: false, desired_running: false }
    }

    pub fn none() -> (f: Flags)
        ensures
            f == Flags::spec_none(),
    {
        Flags { detach: false, persist: false, enabled: false, desired_running: false }
    }
}

/// What an outside party asked of a running or waiting definition.
#[derive(Clone, Copy, Debug, PartialEq, Eq, Structural)]
pub enum Interrupt {
    Cancelled,
    Updated,
    Restarted,
    Disabled,
    OwnerClosed,
    ServerShutdown,
}

/// Whether a connection goes on after a message.
#[derive(Clone, Copy, Debug, PartialEq, Eq, Structural)]
pub enum DispatchOutcome {
    Continue,
    Close,
}

/// Whether two object hashes are the same.
pub fn same_hash(a: &ObjectHash, b: &ObjectHash) -> (r: bool)
    ensures
        r == (*a == *b),
{
    let r = same_bytes(array_as_slice(a), array_as_slice(b));
    proof {
        if r {
            assert(*a =~= *b);
        }
    }
    r
}

/// The hash of no object.
pub open spec fn spec_zero_hash() -> Seq<u8> {
    Seq::new(32, |i: int| 0u8)
}

pub fn zero_hash() -> (h: ObjectHash)
    ensures
        h@ == spec_zero_hash(),
{
    let h: ObjectHash = [0; 32];
    proof {
        assert(h@ =~= spec_zero_hash());
    }
    h
}

} // verus!
