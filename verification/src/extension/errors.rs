//! How failures of the object store and of the catalog are answered.

use vstd::prelude::*;

use crate::catalog::{CatalogError, CatalogErrorView};
use crate::extension::protocol::Status;

verus! {

/// What kind of failure the object store reported.
#[derive(Clone, Copy, Debug, PartialEq, Eq, Structural)]
pub enum ObjectFault {
    InvalidConfig,
    InvalidUpload,
    NotFound,
    Conflict,
    TooLarge,
    Budget,
    HashMismatch,
    InvalidModule,
    /// The object's file is gone.
    Missing,
    Storage,
}

/// A failure of the object store and its text.
#[derive(Debug)]
pub struct ObjectError {
    pub fault: ObjectFault,
    pub text: String,
}

pub open spec fn spec_object_status(fault: ObjectFault) -> Status {
    match fault {
        ObjectFault::InvalidConfig => Status::Invalid,
        ObjectFault::InvalidUpload => Status::Invalid,
        ObjectFault::NotFound => Status::NotFound,
        ObjectFault::Conflict => Status::Conflict,
        ObjectFault::TooLarge => Status::TooLarge,
        ObjectFault::Budget => Status::Budget,
        ObjectFault::HashMismatch => Status::Invalid,
        ObjectFault::InvalidModule => Status::Invalid,
        ObjectFault::Missing => Status::Other,
        ObjectFault::Storage => Status::Other,
    }
}

/// How a failure of the object store is answered.
pub fn object_status(fault: ObjectFault) -> (s: Status)
    ensures
        s == spec_object_status(fault),
{
    match fault {
        ObjectFault::InvalidConfig => Status::Invalid,
        ObjectFault::InvalidUpload => Status::Invalid,
        ObjectFault::NotFound => Status::NotFound,
        ObjectFault::Conflict => Status::Conflict,
        ObjectFault::TooLarge => Status::TooLarge,
        ObjectFault::Budget => Status::Budget,
        ObjectFault::HashMismatch => Status::Invalid,
        ObjectFault::InvalidModule => Status::Invalid,
        ObjectFault::Missing => Status::Other,
        ObjectFault::Storage => Status::Other,
    }
}

pub open spec fn spec_catalog_status(e: CatalogErrorView) -> Status {
    match e {
        CatalogErrorView::Unavailable => Status::Permission,
        CatalogErrorView::Invalid(_) => Status::Invalid,
        CatalogErrorView::Conflict => Status::Conflict,
        CatalogErrorView::NotFound => Status::NotFound,
        CatalogErrorView::Budget => Status::Budget,
        CatalogErrorView::Storage(_) => Status::Other,
    }
}

/// How a failure of the catalog is answered.
pub fn catalog_status(e: &CatalogError) -> (s: Status)
    ensures
        s == spec_catalog_status(e@),
{
    match e {
        CatalogError::Unavailable => Status::Permission,
        CatalogError::Invalid(_) => Status::Invalid,
        CatalogError::Conflict => Status::Conflict,
        CatalogError::NotFound => Status::NotFound,
        CatalogError::Budget => Status::Budget,
        CatalogError::Storage(_) => Status::Other,
    }
}

/// What came of pinning an object.
pub enum PinOutcome {
    /// There is no object store.
    Unavailable,
    Failed(ObjectError),
    Pinned,
}

/// An answer that is not a success, and why.
#[derive(Debug)]
pub struct Refusal {
    pub status: Status,
    pub detail: String,
}

/// Whether a refusal says this.
pub open spec fn refuses(r: Refusal, status: Status, detail: Seq<char>) -> bool {
    r.status == status && r.detail@ == detail
}

/// Whether a transient creation may go on after its object was pinned.
pub fn transient_admission(pin: PinOutcome) -> (r: Result<(), Refusal>)
    ensures
        match pin {
            PinOutcome::Unavailable => r matches Err(e) && refuses(
                e,
                Status::Other,
                "object store is unavailable"@,
            ),
            PinOutcome::Failed(f) => r matches Err(e) && refuses(
                e,
                spec_object_status(f.fault),
                f.text@,
            ),
            PinOutcome::Pinned => r is Ok,
        },
{
    match pin {
        PinOutcome::Unavailable => Err(
            Refusal {
                status: Status::Other,
                detail: "object store is unavailable".to_owned(),
            },
        ),
        PinOutcome::Failed(f) => Err(
            Refusal { status: object_status(f.fault), detail: f.text },
        ),
        PinOutcome::Pinned => Ok(()),
    }
}

/// Whether an object that could not be read is no longer to be had: its file is
/// gone, or it was corrupt and could be taken away. The definitions that pinned
/// it then no longer do.
pub fn object_lost(fault: ObjectFault, file_removed: bool) -> (r: bool)
    ensures
        r == (fault == ObjectFault::Missing || (fault == ObjectFault::HashMismatch
            && file_removed)),
{
    match fault {
        ObjectFault::Missing => true,
        ObjectFault::HashMismatch => file_removed,
        _ => false,
    }
}

} // verus!
