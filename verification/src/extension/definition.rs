//! One extension definition and the rows that hang off it.

use vstd::prelude::*;

use crate::extension::protocol::{Flags, Interrupt, ObjectHash, Phase, Restart};
use crate::id_map::IdMap;

verus! {

/// The attempt that a definition is committed to.
#[derive(Clone, Copy, Debug, PartialEq, Eq, Structural)]
pub struct Control {
    pub definition_revision: u64,
    pub attempt: u64,
    pub task_id: u32,
}

/// One record of output: its place in the extension's sequence, its age, and
/// the shared packet that carries its bytes.
#[derive(Clone, Copy, Debug, PartialEq, Eq, Structural)]
pub struct Record {
    pub sequence: u64,
    pub clock: u64,
    pub packet: usize,
    pub len: usize,
    pub exit: bool,
}

/// How far a follower has read, and through which sequence a replay marker is
/// owed to it.
#[derive(Clone, Copy, Debug, PartialEq, Eq, Structural)]
pub struct FollowerCursor {
    pub next_sequence: u64,
    pub replay_through: Option<u64>,
}

/// A definition. Arguments are resident only for transient definitions and
/// uncommitted persistent creations; times are milliseconds of one clock.
pub struct Definition {
    pub extension_id: u64,
    pub definition_revision: u64,
    pub flags: Flags,
    pub restart: Restart,
    pub hash: ObjectHash,
    pub name: String,
    pub args: Option<Vec<Vec<u8>>>,
    pub argument_bytes: usize,
    pub argument_reservation: usize,
    pub owner_endpoint: Option<u64>,
    pub phase: Phase,
    pub attempt: u64,
    pub last_running_attempt: u64,
    pub task_id: u32,
    pub next_start_unix_ms: u64,
    pub detail: String,
    pub next_output_sequence: u64,
    pub retained: Vec<Record>,
    pub terminal_replay: Vec<Record>,
    pub retained_bytes: usize,
    pub followers: IdMap<FollowerCursor>,
    pub pending_deadline: Option<u64>,
    pub release_deadline: Option<u64>,
    pub generation: u64,
    pub failure_count: u32,
    pub interrupt: Option<Interrupt>,
    pub control: Option<Control>,
    pub object_pinned: bool,
    pub catalog_committed: bool,
}

/// What a definition was at some moment, without its name, arguments and
/// output.
#[derive(Clone, Copy)]
pub struct Snapshot {
    pub extension_id: u64,
    pub definition_revision: u64,
    pub flags: Flags,
    pub restart: Restart,
    pub hash: ObjectHash,
    pub argument_bytes: usize,
    pub owner_endpoint: Option<u64>,
    pub phase: Phase,
    pub attempt: u64,
    pub last_running_attempt: u64,
    pub task_id: u32,
    pub next_start_unix_ms: u64,
    pub output_sequence: u64,
    pub generation: u64,
    pub failure_count: u32,
    pub control: Option<Control>,
    pub object_pinned: bool,
    pub catalog_committed: bool,
}

impl Definition {
    pub open spec fn spec_snapshot(self) -> Snapshot {
        Snapshot {
            extension_id: self.extension_id,
            definition_revision: self.definition_revision,
            flags: self.flags,
            restart: self.restart,
            hash: self.hash,
            argument_bytes: self.argument_bytes,
            owner_endpoint: self.owner_endpoint,
            phase: self.phase,
            attempt: self.attempt,
            last_running_attempt: self.last_running_attempt,
            task_id: self.task_id,
            next_start_unix_ms: self.next_start_unix_ms,
            output_sequence: self.spec_latest_output_sequence(),
            generation: self.generation,
            failure_count: self.failure_count,
            control: self.control,
            object_pinned: self.object_pinned,
            catalog_committed: self.catalog_committed,
        }
    }

    pub fn snapshot(&self) -> (s: Snapshot)
        ensures
            s == self.spec_snapshot(),
    {
        Snapshot {
            extension_id: self.extension_id,
            definition_revision: self.definition_revision,
            flags: self.flags,
            restart: self.restart,
            hash: self.hash,
            argument_bytes: self.argument_bytes,
            owner_endpoint: self.owner_endpoint,
            phase: self.phase,
            attempt: self.attempt,
            last_running_attempt: self.last_running_attempt,
            task_id: self.task_id,
            next_start_unix_ms: self.next_start_unix_ms,
            output_sequence: self.latest_output_sequence(),
            generation: self.generation,
            failure_count: self.failure_count,
            control: self.control,
            object_pinned: self.object_pinned,
            catalog_committed: self.catalog_committed,
        }
    }

    pub open spec fn spec_persistent(self) -> bool {
        self.flags.persist
    }

    /// Enabled and meant to run.
    pub open spec fn spec_wanted(self) -> bool {
        self.flags.enabled && self.flags.desired_running
    }

    pub open spec fn spec_latest_output_sequence(self) -> u64 {
        if self.next_output_sequence == 0 {
            0
        } else {
            (self.next_output_sequence - 1) as u64
        }
    }

    pub fn persistent(&self) -> (r: bool)
        ensures
            r == self.spec_persistent(),
    {
        self.flags.persist
    }

    pub fn enabled(&self) -> (r: bool)
        ensures
            r == self.flags.enabled,
    {
        self.flags.enabled
    }

    pub fn desired(&self) -> (r: bool)
        ensures
            r == self.flags.desired_running,
    {
        self.flags.desired_running
    }

    pub fn wanted(&self) -> (r: bool)
        ensures
            r == self.spec_wanted(),
    {
        self.flags.enabled && self.flags.desired_running
    }

    /// The sequence of the last output record, `0` before the first.
    pub fn latest_output_sequence(&self) -> (s: u64)
        ensures
            s == self.spec_latest_output_sequence(),
    {
        self.next_output_sequence.saturating_sub(1)
    }
}

} // verus!
