//! Uploading the object of an extension, and what a finished upload does to
//! the definitions that wait for it.

use vstd::prelude::*;

use crate::extension::definition::Definition;
use crate::extension::errors::{
    object_status, spec_object_status, ObjectError, ObjectFault, Refusal,
};
use crate::extension::lifecycle::creation_ended;
use crate::extension::protocol::{same_hash, ObjectHash, Phase, Status};
use crate::extension::release::awaits;
use crate::extension::run::{lemma_held, Admitted};
use crate::extension::service::{lemma_changed, only_definition, Service};
use crate::extension::status::{bounded, bounded_detail, put_status, PutReply, PutView};

verus! {

/// What the object store made of one chunk.
#[derive(Clone, Copy, Debug, PartialEq, Eq, Structural)]
pub enum PutChunk {
    Accepted { received: u64 },
    Committed { size: u64 },
    AlreadyHave { size: u64 },
}

/// Where an upload request stands: what the store is asked next, or the result.
pub enum Upload {
    /// Store the order of use, then begin the upload.
    PersistBeforeBegin,
    /// Ask the store to begin the upload.
    Begin,
    /// Evict an object to make room.
    Evict,
    /// Create the upload's file.
    Create,
    /// Clean up after an upload that another one overtook.
    CleanUp,
    /// Ask the store to take the chunk.
    Put,
    /// Remove an upload that cannot go on, which failed with this.
    Abort(ObjectError),
    /// Write the chunk.
    Write,
    /// Write the last chunk and check the object.
    Finish,
    /// Store the order of use, then answer with this.
    PersistBeforeReply(PutChunk),
    Done(Result<PutChunk, ObjectError>),
}

/// What an upload request met.
pub enum UploadEvent {
    /// What was asked is done.
    Completed,
    /// What was asked failed.
    Failed(ObjectError),
    /// There is no object store.
    NoStore,
    /// The store needs room first.
    MustEvict,
    /// The store needs a file for the upload.
    MustCreate,
    /// The upload began.
    Started,
    /// The object is there already, or the chunk was taken, or the object is
    /// complete.
    Result(PutChunk),
    /// Another upload overtook this one.
    Overtaken,
    /// The upload cannot go on.
    MustAbort(ObjectError),
    /// The store takes the chunk.
    MustWrite,
    /// The store takes the last chunk.
    MustFinish,
}

/// How the object store words two of its failures.
pub struct StoreTexts {
    pub conflict: String,
    pub not_found: String,
}

/// Whether a request ended in this failure.
pub open spec fn failed_as(u: Upload, fault: ObjectFault, text: Seq<char>) -> bool {
    u matches Upload::Done(Err(e)) && e.fault == fault && e.text@ == text
}

/// Whether an upload request goes on from `from` to `to` when `event` comes. An
/// event that cannot come changes nothing.
pub open spec fn upload_goes(from: Upload, event: UploadEvent, to: Upload, texts: StoreTexts) -> bool {
    match (from, event) {
        (Upload::Done(_), _) => to == from,
        (Upload::CleanUp, _) => failed_as(to, ObjectFault::Conflict, texts.conflict@),
        (Upload::Abort(e), _) => to == Upload::Done(Err(e)),
        (_, UploadEvent::Failed(e)) => to == Upload::Done(Err(e)),
        (_, UploadEvent::NoStore) => failed_as(to, ObjectFault::NotFound, texts.not_found@),
        (Upload::PersistBeforeBegin, UploadEvent::Completed) => to is Begin,
        (Upload::Begin, UploadEvent::MustEvict) => to is Evict,
        (Upload::Begin, UploadEvent::MustCreate) => to is Create,
        (Upload::Begin, UploadEvent::Started) => to is Put,
        (Upload::Begin, UploadEvent::Result(r)) => to == Upload::PersistBeforeReply(r),
        (Upload::Evict, UploadEvent::Completed) => to is PersistBeforeBegin,
        (Upload::Create, UploadEvent::Started) => to is Put,
        (Upload::Create, UploadEvent::Result(r)) => to == Upload::PersistBeforeReply(r),
        (Upload::Create, UploadEvent::Overtaken) => to is CleanUp,
        (Upload::Put, UploadEvent::Result(r)) => to == settled(r),
        (Upload::Put, UploadEvent::MustAbort(e)) => to == Upload::Abort(e),
        (Upload::Put, UploadEvent::MustWrite) => to is Write,
        (Upload::Put, UploadEvent::MustFinish) => to is Finish,
        (Upload::Write, UploadEvent::Result(r)) => to == settled(r),
        (Upload::Write, UploadEvent::Overtaken) => to is CleanUp,
        (Upload::Finish, UploadEvent::Result(r)) => to == Upload::PersistBeforeReply(r),
        (Upload::PersistBeforeReply(r), UploadEvent::Completed) => to == Upload::Done(Ok(r)),
        _ => to == from,
    }
}

/// The order of use is stored before an object that was there already is
/// answered.
pub open spec fn settled(r: PutChunk) -> Upload {
    match r {
        PutChunk::AlreadyHave { .. } => Upload::PersistBeforeReply(r),
        _ => Upload::Done(Ok(r)),
    }
}

fn settle(r: PutChunk) -> (u: Upload)
    ensures
        u == settled(r),
{
    match r {
        PutChunk::AlreadyHave { .. } => Upload::PersistBeforeReply(r),
        _ => Upload::Done(Ok(r)),
    }
}

fn failed(fault: ObjectFault, text: &str) -> (u: Upload)
    ensures
        failed_as(u, fault, text@),
{
    Upload::Done(Err(ObjectError { fault, text: text.to_owned() }))
}

/// Where an upload request begins: the first chunk begins the upload.
pub fn begin_upload(begin: bool) -> (u: Upload)
    ensures
        if begin {
            u is PersistBeforeBegin
        } else {
            u is Put
        },
{
    if begin {
        Upload::PersistBeforeBegin
    } else {
        Upload::Put
    }
}

/// Where an upload request goes on.
pub fn upload_step(from: Upload, event: UploadEvent, texts: &StoreTexts) -> (to: Upload)
    ensures
        upload_goes(from, event, to, *texts),
{
    match (from, event) {
        (Upload::Done(r), _) => Upload::Done(r),
        (Upload::CleanUp, _) => failed(ObjectFault::Conflict, texts.conflict.as_str()),
        (Upload::Abort(e), _) => Upload::Done(Err(e)),
        (_, UploadEvent::Failed(e)) => Upload::Done(Err(e)),
        (_, UploadEvent::NoStore) => failed(ObjectFault::NotFound, texts.not_found.as_str()),
        (Upload::PersistBeforeBegin, UploadEvent::Completed) => Upload::Begin,
        (Upload::Begin, UploadEvent::MustEvict) => Upload::Evict,
        (Upload::Begin, UploadEvent::MustCreate) => Upload::Create,
        (Upload::Begin, UploadEvent::Started) => Upload::Put,
        (Upload::Begin, UploadEvent::Result(r)) => Upload::PersistBeforeReply(r),
        (Upload::Evict, UploadEvent::Completed) => Upload::PersistBeforeBegin,
        (Upload::Create, UploadEvent::Started) => Upload::Put,
        (Upload::Create, UploadEvent::Result(r)) => Upload::PersistBeforeReply(r),
        (Upload::Create, UploadEvent::Overtaken) => Upload::CleanUp,
        (Upload::Put, UploadEvent::Result(r)) => settle(r),
        (Upload::Put, UploadEvent::MustAbort(e)) => Upload::Abort(e),
        (Upload::Put, UploadEvent::MustWrite) => Upload::Write,
        (Upload::Put, UploadEvent::MustFinish) => Upload::Finish,
        (Upload::Write, UploadEvent::Result(r)) => settle(r),
        (Upload::Write, UploadEvent::Overtaken) => Upload::CleanUp,
        (Upload::Finish, UploadEvent::Result(r)) => Upload::PersistBeforeReply(r),
        (Upload::PersistBeforeReply(r), UploadEvent::Completed) => Upload::Done(Ok(r)),
        (other, _) => other,
    }
}

/// An object that is complete, or was there already, is answered only after the
/// order of use was stored.
pub proof fn law_order_of_use_is_stored_first(
    from: Upload,
    event: UploadEvent,
    to: Upload,
    texts: StoreTexts,
)
    requires
        upload_goes(from, event, to, texts),
        !(from is Done),
        to matches Upload::Done(Ok(r)) && (r is AlreadyHave || (r is Committed && from is Finish)),
    ensures
        from is PersistBeforeReply && event is Completed,
{
}

/// An upload that was overtaken is cleaned up and answered as a conflict.
pub proof fn law_overtaken_upload_conflicts(
    from: Upload,
    mid: Upload,
    event: UploadEvent,
    to: Upload,
    texts: StoreTexts,
)
    requires
        from is Create || from is Write,
        upload_goes(from, UploadEvent::Overtaken, mid, texts),
        upload_goes(mid, event, to, texts),
    ensures
        mid is CleanUp,
        failed_as(to, ObjectFault::Conflict, texts.conflict@),
{
}

/// How a request is answered where the objects under validation hold too much.
pub fn validation_full(nonce: u16, hash: ObjectHash, detail_max: usize) -> (r: PutReply)
    ensures
        r@ == (PutView {
            nonce,
            status: Status::Budget,
            hash: hash@,
            received: 0,
            detail: bounded(
                "extension validation request budget exhausted"@,
                detail_max as nat,
            ),
        }),
{
    put_status(
        nonce,
        Status::Budget,
        hash,
        0,
        "extension validation request budget exhausted",
        detail_max,
    )
}

/// Whether a chunk goes through validation: the first, which may find the
/// object, and the last, which completes it.
pub fn needs_validation(begin: bool, last: bool) -> (r: bool)
    ensures
        r == (begin || last),
{
    begin || last
}

/// How a chunk is answered, and what it does to the definitions that wait for
/// its object.
pub struct PutOutcome {
    pub reply: PutReply,
    /// The object is there: creations go on.
    pub complete: bool,
    /// The object is no module: creations end, with this detail.
    pub invalid: Option<String>,
    /// The object did not come: those that wait for it are announced again.
    pub notify: bool,
}

/// What a chunk's result says to the client.
pub open spec fn put_reply(nonce: u16, hash: Seq<u8>, result: Result<PutChunk, ObjectError>, max: nat) -> PutView {
    match result {
        Ok(PutChunk::Accepted { received }) => PutView {
            nonce,
            status: Status::Success,
            hash,
            received,
            detail: bounded(""@, max),
        },
        Ok(PutChunk::Committed { size }) => PutView {
            nonce,
            status: Status::Success,
            hash,
            received: size,
            detail: bounded(""@, max),
        },
        Ok(PutChunk::AlreadyHave { size }) => PutView {
            nonce,
            status: Status::AlreadyHave,
            hash,
            received: size,
            detail: bounded("module already exists"@, max),
        },
        Err(e) => PutView {
            nonce,
            status: spec_object_status(e.fault),
            hash,
            received: 0,
            detail: bounded(e.text@, max),
        },
    }
}

/// Answers a chunk.
pub fn put_outcome(
    nonce: u16,
    hash: ObjectHash,
    result: Result<PutChunk, ObjectError>,
    detail_max: usize,
) -> (o: PutOutcome)
    ensures
        o.reply@ == put_reply(nonce, hash@, result, detail_max as nat),
        o.complete == (result matches Ok(r) && (r is Committed || r is AlreadyHave)),
        match o.invalid {
            Some(d) => result matches Err(e) && e.fault == ObjectFault::InvalidModule && d@
                == e.text@,
            None => !(result matches Err(e) && e.fault == ObjectFault::InvalidModule),
        },
        o.notify == (result matches Err(e) && e.fault != ObjectFault::Conflict && e.fault
            != ObjectFault::InvalidModule),
{
    match result {
        Ok(PutChunk::Accepted { received }) => PutOutcome {
            reply: put_status(nonce, Status::Success, hash, received, "", detail_max),
            complete: false,
            invalid: None,
            notify: false,
        },
        Ok(PutChunk::Committed { size }) => PutOutcome {
            reply: put_status(nonce, Status::Success, hash, size, "", detail_max),
            complete: true,
            invalid: None,
            notify: false,
        },
        Ok(PutChunk::AlreadyHave { size }) => PutOutcome {
            reply: put_status(
                nonce,
                Status::AlreadyHave,
                hash,
                size,
                "module already exists",
                detail_max,
            ),
            complete: true,
            invalid: None,
            notify: false,
        },
        Err(e) => {
            let reply = put_status(
                nonce,
                object_status(e.fault),
                hash,
                0,
                e.text.as_str(),
                detail_max,
            );
            match e.fault {
                ObjectFault::InvalidModule => PutOutcome {
                    reply,
                    complete: false,
                    invalid: Some(e.text),
                    notify: false,
                },
                ObjectFault::Conflict => PutOutcome {
                    reply,
                    complete: false,
                    invalid: None,
                    notify: false,
                },
                _ => PutOutcome { reply, complete: false, invalid: None, notify: true },
            }
        },
    }
}

/// What a creation whose object has come needs.
#[derive(Clone, Copy, Debug, PartialEq, Eq, Structural)]
pub enum PendingPlan {
    /// It no longer waits for this object.
    Skip,
    /// Its time is over.
    Expire,
    /// The catalog takes it.
    Commit,
    /// Its object is pinned.
    Pin,
}

/// What a creation needs whose object has come.
pub open spec fn pending_plan(s: Service, id: u64, hash: ObjectHash, now: u64) -> PendingPlan {
    let d = s.spec_definitions()[id];
    if !s.has(id) || !awaits(d, hash) {
        PendingPlan::Skip
    } else if d.pending_deadline matches Some(t) && now >= t {
        PendingPlan::Expire
    } else if d.spec_persistent() {
        PendingPlan::Commit
    } else {
        PendingPlan::Pin
    }
}

/// A creation that goes on because its object has come.
pub open spec fn pending_admitted(d: Definition, e: Definition, a: Admitted, shutting_down: bool) -> bool {
    let base = match a {
        Admitted::Waiting => d,
        Admitted::Pinned => Definition { object_pinned: true, ..d },
        Admitted::Committed { definition_revision, flags, argument_bytes } => Definition {
            definition_revision,
            flags,
            argument_bytes,
            catalog_committed: true,
            object_pinned: true,
            args: None,
            argument_reservation: 0,
            ..d
        },
    };
    &&& e == (Definition {
        phase: if shutting_down {
            Phase::Stopped
        } else {
            Phase::Queued
        },
        pending_deadline: None,
        release_deadline: None,
        detail: e.detail,
        ..base
    })
    &&& e.detail@ == ""@
}

impl Service {
    /// What a creation needs whose object has come.
    pub fn plan_pending(&self, id: u64, hash: &ObjectHash, now: u64) -> (p: PendingPlan)
        requires
            self.wf(),
        ensures
            p == pending_plan(*self, id, *hash, now),
    {
        match self.registry.definitions.get(id) {
            None => PendingPlan::Skip,
            Some(d) => {
                let waits: bool = (match d.phase {
                    Phase::NeedObject => true,
                    _ => false,
                }) && same_hash(&d.hash, hash);
                let late: bool = match d.pending_deadline {
                    Some(t) => now >= t,
                    None => false,
                };
                if !waits {
                    PendingPlan::Skip
                } else if late {
                    PendingPlan::Expire
                } else if d.persistent() {
                    PendingPlan::Commit
                } else {
                    PendingPlan::Pin
                }
            },
        }
    }

    /// Ends a creation whose object came too late.
    pub fn pending_too_late(&mut self, id: u64, now: u64)
        requires
            old(self).wf(),
        ensures
            final(self).wf(),
            !old(self).has(id) ==> *final(self) == *old(self),
            old(self).has(id) ==> only_definition(*old(self), *final(self), id) && creation_ended(
                old(self).spec_definitions()[id],
                final(self).spec_definitions()[id],
                old(self).spec_definitions()[id].generation,
                now,
                old(self).limits.terminal_retain_ms,
                "pending extension creation expired"@,
            ),
    {
        self.end_creation(id, false, now, "pending extension creation expired".to_owned());
    }

    /// Finishes a creation whose object has come: it goes on, or ends where it
    /// was refused. Returns whether its supervisor is to start; the definition
    /// is to be announced.
    pub fn finish_pending(&mut self, id: u64, admitted: Result<Admitted, Refusal>, now: u64) -> (start:
        bool)
        requires
            old(self).wf(),
            admitted matches Ok(Admitted::Committed { flags, .. }) && flags.persist ==> (old(self).has(id) ==> old(self).spec_definitions()[id].flags.persist),
        ensures
            final(self).wf(),
            !old(self).has(id) ==> *final(self) == *old(self) && !start,
            old(self).has(id) ==> {
                let d = old(self).spec_definitions()[id];
                let e = final(self).spec_definitions()[id];
                &&& only_definition(*old(self), *final(self), id)
                &&& match admitted {
                    Ok(a) => pending_admitted(d, e, a, old(self).shutting_down) && start
                        == !old(self).shutting_down,
                    Err(r) => !start && creation_ended(
                        d,
                        e,
                        d.generation,
                        now,
                        old(self).limits.terminal_retain_ms,
                        bounded(r.detail@, old(self).limits.detail_max as nat),
                    ),
                }
            },
    {
        let ghost begin = *self;
        let shutting_down: bool = self.shutting_down;
        if !self.registry.definitions.contains(id) {
            return false;
        }
        let a = match admitted {
            Err(r) => {
                let text = bounded_detail(r.detail.as_str(), self.limits.detail_max);
                self.end_creation(id, false, now, text);
                return false;
            },
            Ok(a) => a,
        };
        let mut released: usize = 0;
        match self.registry.definitions.get_mut(id) {
            None => {},
            Some(d) => {
                proof {
                    lemma_held(begin, id);
                }
                match a {
                    Admitted::Waiting => {},
                    Admitted::Pinned => {
                        d.object_pinned = true;
                    },
                    Admitted::Committed { definition_revision, flags, argument_bytes } => {
                        d.definition_revision = definition_revision;
                        d.flags = flags;
                        d.argument_bytes = argument_bytes;
                        d.catalog_committed = true;
                        d.object_pinned = true;
                        released = d.release_arguments();
                    },
                }
                d.phase = if shutting_down {
                    Phase::Stopped
                } else {
                    Phase::Queued
                };
                d.pending_deadline = None;
                d.release_deadline = None;
                d.detail = "".to_owned();
            },
        }
        self.arguments.release(released);
        proof {
            lemma_changed(begin, *self, id);
        }
        !shutting_down
    }

    /// Ends a creation whose object turned out to be no module.
    pub fn stop_invalid_pending(&mut self, id: u64, hash: &ObjectHash, detail: &str, now: u64) -> (stopped:
        bool)
        requires
            old(self).wf(),
        ensures
            final(self).wf(),
            stopped == (old(self).has(id) && awaits(old(self).spec_definitions()[id], *hash)),
            !stopped ==> *final(self) == *old(self),
            stopped ==> only_definition(*old(self), *final(self), id) && creation_ended(
                old(self).spec_definitions()[id],
                final(self).spec_definitions()[id],
                crate::extension::lifecycle::next_generation(
                    old(self).spec_definitions()[id].generation,
                ),
                now,
                old(self).limits.terminal_retain_ms,
                bounded(detail@, old(self).limits.detail_max as nat),
            ),
    {
        let waits: bool = match self.registry.definitions.get(id) {
            None => false,
            Some(d) => (match d.phase {
                Phase::NeedObject => true,
                _ => false,
            }) && same_hash(&d.hash, hash),
        };
        if waits {
            let text = bounded_detail(detail, self.limits.detail_max);
            self.end_creation(id, true, now, text);
        }
        waits
    }
}

} // verus!
