//! How one definition changes. Whoever waits on a definition is to be woken
//! after each of these.

use vstd::prelude::*;

use crate::extension::definition::Definition;
use crate::extension::protocol::{Flags, Interrupt, Phase};

verus! {

/// `n + 1`, or `n` where there is no such number.
pub open spec fn next_generation(n: u64) -> u64 {
    if n == u64::MAX {
        u64::MAX
    } else {
        (n + 1) as u64
    }
}

/// The moment `ms` after `now`, or the last one.
pub open spec fn after_ms(now: u64, ms: u64) -> u64 {
    if now + ms > u64::MAX {
        u64::MAX
    } else {
        (now + ms) as u64
    }
}

/// The flags with the two switches set where a value is given.
pub open spec fn switched(flags: Flags, enabled: Option<bool>, desired: Option<bool>) -> Flags {
    Flags {
        enabled: match enabled {
            Some(b) => b,
            None => flags.enabled,
        },
        desired_running: match desired {
            Some(b) => b,
            None => flags.desired_running,
        },
        ..flags
    }
}

fn switch(flags: Flags, enabled: Option<bool>, desired: Option<bool>) -> (r: Flags)
    ensures
        r == switched(flags, enabled, desired),
{
    Flags {
        detach: flags.detach,
        persist: flags.persist,
        enabled: match enabled {
            Some(b) => b,
            None => flags.enabled,
        },
        desired_running: match desired {
            Some(b) => b,
            None => flags.desired_running,
        },
    }
}

/// A definition whose creation still waits for its object.
pub open spec fn pending_creation(d: Definition) -> bool {
    d.phase == Phase::NeedObject && !d.catalog_committed
}

/// Whether `interrupt` with these switches gives up a creation that was still
/// waiting for its object.
pub open spec fn gives_up(d: Definition, enabled: Option<bool>, desired: Option<bool>) -> bool {
    let flags = switched(d.flags, enabled, desired);
    pending_creation(d) && !(flags.enabled && flags.desired_running)
}

/// What `d` becomes under a control request: the switches are set, whatever
/// waits is interrupted, and the phase follows. A creation that is no longer
/// wanted stops and lets go of its arguments.
pub open spec fn mutated(
    d: Definition,
    enabled: Option<bool>,
    desired: Option<bool>,
    interrupt: Interrupt,
    now: u64,
    terminal_retain_ms: u64,
) -> Definition {
    let flags = switched(d.flags, enabled, desired);
    let wanted = flags.enabled && flags.desired_running;
    let gone = gives_up(d, enabled, desired);
    let stopping = !pending_creation(d) && d.control is Some;
    Definition {
        flags,
        generation: next_generation(d.generation),
        interrupt: Some(interrupt),
        next_start_unix_ms: 0,
        phase: if pending_creation(d) {
            if wanted {
                Phase::NeedObject
            } else {
                Phase::Stopped
            }
        } else if stopping {
            Phase::Stopping
        } else if wanted {
            Phase::Queued
        } else {
            Phase::Stopped
        },
        task_id: if gone || stopping {
            0
        } else {
            d.task_id
        },
        pending_deadline: if gone {
            None
        } else {
            d.pending_deadline
        },
        release_deadline: if gone {
            Some(after_ms(now, terminal_retain_ms))
        } else {
            d.release_deadline
        },
        args: if gone {
            None
        } else {
            d.args
        },
        argument_reservation: if gone {
            0
        } else {
            d.argument_reservation
        },
        ..d
    }
}

/// A creation that ends before it ran: stopped, no longer desired, and released
/// after `terminal_retain_ms`.
pub open spec fn creation_ended(
    before: Definition,
    after: Definition,
    generation: u64,
    now: u64,
    terminal_retain_ms: u64,
    detail: Seq<char>,
) -> bool {
    &&& after == (Definition {
        phase: Phase::Stopped,
        flags: switched(before.flags, None, Some(false)),
        pending_deadline: None,
        release_deadline: Some(after_ms(now, terminal_retain_ms)),
        generation,
        detail: after.detail,
        args: None,
        argument_reservation: 0,
        ..before
    })
    &&& after.detail@ == detail
}

/// An attached definition whose owner went away.
pub open spec fn owner_closed(before: Definition, after: Definition) -> bool {
    let running = before.control is Some;
    &&& after == (Definition {
        flags: switched(before.flags, None, Some(false)),
        interrupt: Some(Interrupt::OwnerClosed),
        generation: next_generation(before.generation),
        phase: if running {
            Phase::Stopping
        } else {
            Phase::Stopped
        },
        task_id: if running {
            0
        } else {
            before.task_id
        },
        pending_deadline: if running {
            before.pending_deadline
        } else {
            None
        },
        release_deadline: if running {
            before.release_deadline
        } else {
            None
        },
        detail: after.detail,
        ..before
    })
    &&& after.detail@ == if running {
        before.detail@
    } else {
        "attached owner disconnected"@
    }
}

impl Definition {
    /// Lets go of the arguments; returns the bytes that were reserved for them.
    pub fn release_arguments(&mut self) -> (released: usize)
        ensures
            *final(self) == (Definition { args: None, argument_reservation: 0, ..*old(self) }),
            released == old(self).argument_reservation,
    {
        let released: usize = self.argument_reservation;
        self.args = None;
        self.argument_reservation = 0;
        released
    }

    /// Applies a control request. Returns the argument bytes that it released.
    pub fn mutate(
        &mut self,
        enabled: Option<bool>,
        desired: Option<bool>,
        interrupt: Interrupt,
        now: u64,
        terminal_retain_ms: u64,
    ) -> (released: usize)
        ensures
            *final(self) == mutated(
                *old(self),
                enabled,
                desired,
                interrupt,
                now,
                terminal_retain_ms,
            ),
            released == if gives_up(*old(self), enabled, desired) {
                old(self).argument_reservation
            } else {
                0
            },
    {
        let pending: bool = match self.phase {
            Phase::NeedObject => !self.catalog_committed,
            _ => false,
        };
        let mut released: usize = 0;
        self.flags = switch(self.flags, enabled, desired);
        self.generation = self.generation.saturating_add(1);
        self.interrupt = Some(interrupt);
        self.next_start_unix_ms = 0;
        if pending {
            if !self.wanted() {
                self.phase = Phase::Stopped;
                self.pending_deadline = None;
                self.release_deadline = Some(now.saturating_add(terminal_retain_ms));
                self.task_id = 0;
                released = self.release_arguments();
            } else {
                self.phase = Phase::NeedObject;
            }
        } else if self.control.is_some() {
            self.phase = Phase::Stopping;
            self.task_id = 0;
        } else if self.wanted() {
            self.phase = Phase::Queued;
        } else {
            self.phase = Phase::Stopped;
        }
        released
    }

    /// Ends a creation that never ran. Returns the argument bytes that it
    /// released.
    pub fn end_creation(
        &mut self,
        bump: bool,
        now: u64,
        terminal_retain_ms: u64,
        detail: String,
    ) -> (released: usize)
        ensures
            creation_ended(
                *old(self),
                *final(self),
                if bump {
                    next_generation(old(self).generation)
                } else {
                    old(self).generation
                },
                now,
                terminal_retain_ms,
                detail@,
            ),
            released == old(self).argument_reservation,
    {
        self.phase = Phase::Stopped;
        self.flags = switch(self.flags, None, Some(false));
        self.pending_deadline = None;
        self.release_deadline = Some(now.saturating_add(terminal_retain_ms));
        if bump {
            self.generation = self.generation.saturating_add(1);
        }
        self.detail = detail;
        self.release_arguments()
    }

    /// The owner of an attached definition is gone.
    pub fn close_owner(&mut self)
        ensures
            owner_closed(*old(self), *final(self)),
    {
        self.flags = switch(self.flags, None, Some(false));
        self.interrupt = Some(Interrupt::OwnerClosed);
        self.generation = self.generation.saturating_add(1);
        if self.control.is_some() {
            self.phase = Phase::Stopping;
            self.task_id = 0;
        } else {
            self.phase = Phase::Stopped;
            self.pending_deadline = None;
            self.release_deadline = None;
            self.detail = "attached owner disconnected".to_owned();
        }
    }
}

} // verus!
