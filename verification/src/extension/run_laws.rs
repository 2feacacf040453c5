//! What holds of requests to run an extension: which are refused and why, and what comes
//! of those that are not.

use vstd::prelude::*;

use crate::extension::arguments::{all_text, charge_for};
use crate::extension::definition::Definition;
use crate::extension::protocol::{Interrupt, Phase, Status};
use crate::extension::replay::{followed_by, followers_of};
use crate::extension::run::{
    admitted_definition, drafted, replaced, run_decision, run_refusal, unblocked,
};
use crate::extension::run::{Admitted, Probe, Replacement, RunDecisionView, RunRequest};
use crate::extension::service::{census, name_taken, Service};

verus! {

/// A request to run is refused at once as not permitted where the extension is to be kept
/// and that is not permitted, as invalid where it is to be kept and an argument is no
/// text, and as over the budget where the arguments do not fit; else it is not.
pub proof fn law_runs_are_refused_at_once(s: Service, r: RunRequest, arguments: Seq<Seq<u8>>)
    ensures
        ({
            let x = run_refusal(s, r, arguments);
            let barred = r.persist && !s.limits.persist_allowed;
            let garbled = r.persist && !all_text(arguments);
            let full = s.arguments.spec_used() + charge_for(arguments) > s.arguments.spec_max();
            &&& x is None <==> !barred && !garbled && !full
            &&& x is Some ==> x->0.nonce == r.nonce && x->0.hash == r.hash@ && x->0.extension_id
                == 0 && x->0.status == (if barred {
                Status::Permission
            } else if garbled {
                Status::Invalid
            } else {
                Status::Budget
            })
        }),
{
}

/// While the server shuts down nothing is run, and the request is told so.
pub proof fn law_nothing_is_run_at_the_end(s: Service, endpoint: u64, r: RunRequest, probe: Probe)
    requires
        s.shutting_down,
    ensures
        run_decision(s, endpoint, r, probe) matches RunDecisionView::Reply(x) && x.status
            == Status::Other && x.nonce == r.nonce,
{
}

/// A new extension is created where its name is free, in case it is to be kept, and where
/// there is a place for it and for its follower, whether or not its object is there. Each
/// thing that stands in its way is told apart.
pub proof fn law_what_is_created(s: Service, endpoint: u64, r: RunRequest, probe: Probe)
    requires
        !s.shutting_down,
        !r.update,
    ensures
        ({
            let x = run_decision(s, endpoint, r, probe);
            let rows = s.registry.definitions.spec_rows();
            let taken = r.persist && exists|id: u64| #[trigger]
                s.spec_definitions().dom().contains(id) && s.spec_definitions()[id].flags.persist
                    && s.spec_definitions()[id].name@ == r.name@;
            let places = if r.persist {
                s.limits.max_persistent
            } else {
                s.limits.max_transient
            };
            let full = census(rows, r.persist) >= places || followed_by(rows, endpoint)
                >= s.limits.follow_max_per_endpoint || followers_of(rows) >= s.limits.follow_max;
            &&& x is Create <==> !taken && !full && !(probe is Durability)
            &&& !(x is Update)
            &&& x matches RunDecisionView::Reply(a) ==> a.nonce == r.nonce && a.extension_id == 0
                && a.status == (if taken {
                Status::Conflict
            } else if full {
                Status::Budget
            } else {
                Status::Other
            })
        }),
{
    assert(name_taken(s.spec_definitions(), r.name@) == exists|id: u64| #[trigger]
        s.spec_definitions().dom().contains(id) && s.spec_definitions()[id].flags.persist
            && s.spec_definitions()[id].name@ == r.name@);
}

/// An update goes to the one extension that is kept under its name: it is refused as not
/// found where there is none, and as a conflict where that has another id or revision
/// than the one expected. It asks for the object where that is not there.
pub proof fn law_what_is_updated(
    s: Service,
    endpoint: u64,
    r: RunRequest,
    probe: Probe,
    id: u64,
)
    requires
        !s.shutting_down,
        r.update,
        s.spec_definitions().dom().contains(id),
        s.spec_definitions()[id].flags.persist,
        s.spec_definitions()[id].name@ == r.name@,
        s.spec_definitions()[id].extension_id == id,
        forall|a: u64, b: u64|
            #![trigger s.spec_definitions()[a], s.spec_definitions()[b]]
            s.spec_definitions().dom().contains(a) && s.spec_definitions().dom().contains(b)
                && s.spec_definitions()[a].flags.persist && s.spec_definitions()[b].flags.persist
                && s.spec_definitions()[a].name@ == s.spec_definitions()[b].name@ ==> a == b,
    ensures
        ({
            let x = run_decision(s, endpoint, r, probe);
            let d = s.spec_definitions()[id];
            let expected = r.expected_id == id && r.expected_revision == d.definition_revision;
            &&& !expected ==> (x matches RunDecisionView::Reply(a) && a.status == Status::Conflict
                && a.extension_id == id && a.definition_revision == d.definition_revision)
            &&& expected && probe is Hit ==> (x matches RunDecisionView::Update(seen)
                && seen.extension_id == id && seen.definition_revision == d.definition_revision
                && seen.generation == d.generation && seen.hash == d.hash)
            &&& expected && probe is Miss ==> (x matches RunDecisionView::Reply(a) && a.status
                == Status::Success && a.phase == Phase::NeedObject && a.hash == r.hash@
                && a.extension_id == id && a.restart == r.restart)
            &&& expected && probe is Durability ==> (x matches RunDecisionView::Reply(a) && a.status
                == Status::Other)
            &&& !(x is Create)
        }),
{
    let m = s.spec_definitions();
    assert(crate::extension::run::is_named(m, r.name@, id));
    let found = crate::extension::run::named(m, r.name@);
    assert(crate::extension::run::is_named(m, r.name@, found));
    assert(m[found].name@ == m[id].name@);
    assert(found == id);
    assert(name_taken(m, r.name@));
}

/// An update of a name that nothing is kept under is refused as not found.
pub proof fn law_unknown_names_are_not_updated(
    s: Service,
    endpoint: u64,
    r: RunRequest,
    probe: Probe,
)
    requires
        !s.shutting_down,
        r.update,
        forall|id: u64| #[trigger]
            s.spec_definitions().dom().contains(id) ==> !(s.spec_definitions()[id].flags.persist
                && s.spec_definitions()[id].name@ == r.name@),
    ensures
        run_decision(s, endpoint, r, probe) matches RunDecisionView::Reply(a) && a.status
            == Status::NotFound && a.nonce == r.nonce,
{
}

/// How many extensions are kept, or are not, is counted one by one.
pub proof fn law_census_counts(
    rows: Seq<(u64, Definition)>,
    row: (u64, Definition),
    persistent: bool,
)
    ensures
        census(Seq::empty(), persistent) == 0,
        row.1.flags.persist == persistent ==> census(rows.push(row), persistent) == census(
            rows,
            persistent,
        ) + 1,
        row.1.flags.persist != persistent ==> census(rows.push(row), persistent) == census(
            rows,
            persistent,
        ),
{
    assert(rows.push(row).drop_last() =~= rows);
}

/// A new definition is what was asked for: enabled and wanted, at its first revision, with
/// the arguments and their charge, owned by its endpoint unless it is detached, and
/// followed by it from the first record on. Without its object it waits for that until
/// its deadline.
pub proof fn law_new_definition(
    d: Definition,
    endpoint: u64,
    r: RunRequest,
    arguments: Seq<Seq<u8>>,
    charge: usize,
    id: u64,
    hit: bool,
    now: u64,
    pending_timeout_ms: u64,
)
    requires
        drafted(d, endpoint, r, arguments, charge, id, hit, now, pending_timeout_ms),
        now + pending_timeout_ms <= u64::MAX,
    ensures
        d.extension_id == id && d.definition_revision == 1 && d.generation == 1 && d.attempt == 0,
        d.flags.enabled && d.flags.desired_running && d.flags.persist == r.persist
            && d.flags.detach == r.detach,
        d.restart == r.restart && d.hash == r.hash && d.name@ == r.name@,
        d.args is Some && d.args->0@.len() == arguments.len(),
        forall|i: int| 0 <= i < arguments.len() ==> (#[trigger] d.args->0@[i])@ == arguments[i],
        d.argument_bytes == charge && d.argument_reservation == charge,
        r.detach ==> d.owner_endpoint is None,
        !r.detach ==> d.owner_endpoint == Some(endpoint),
        hit ==> d.phase == Phase::Queued && d.pending_deadline is None,
        !hit ==> d.phase == Phase::NeedObject && d.pending_deadline is Some
            && d.pending_deadline->0 == now + pending_timeout_ms,
        d.followers@.dom().contains(endpoint) && d.followers@[endpoint].next_sequence == 1,
        d.next_output_sequence == 1 && d.failure_count == 0 && d.control is None && d.interrupt
            is None && !d.object_pinned && !d.catalog_committed && d.task_id == 0,
{
    assert(crate::extension::arguments::contents(d.args->0@).len() == d.args->0@.len());
    assert forall|i: int| 0 <= i < arguments.len() implies (#[trigger] d.args->0@[i])@
        == arguments[i] by {
        assert(crate::extension::arguments::contents(d.args->0@)[i] == arguments[i]);
    }
}

/// What is taken in holds what was stored of it. It is stopped where the server shuts down
/// and it has its object.
pub proof fn law_what_is_taken_in(d: Definition, a: Admitted, shutting_down: bool)
    ensures
        ({
            let e = admitted_definition(d, a, shutting_down);
            &&& a is Waiting ==> e == d
            &&& !(a is Waiting) ==> e.object_pinned && e.phase == (if shutting_down {
                Phase::Stopped
            } else {
                d.phase
            })
            &&& a is Pinned ==> e.args == d.args && e.flags == d.flags && e.definition_revision
                == d.definition_revision && e.catalog_committed == d.catalog_committed
            &&& a matches Admitted::Committed { definition_revision, flags, argument_bytes } ==> {
                &&& e.definition_revision == definition_revision && e.flags == flags
                &&& e.argument_bytes == argument_bytes && e.argument_reservation == 0
                &&& e.args is None && e.catalog_committed
            }
        }),
{
}

/// An update that changes nothing starts over what was blocked, and leaves alone what was
/// not.
pub proof fn law_unchanged_update_unblocks(d: Definition, e: Definition, shutting_down: bool)
    requires
        unblocked(d, e, shutting_down),
    ensures
        d.phase != Phase::Blocked ==> e == d,
        d.phase == Phase::Blocked ==> {
            let wanted = d.flags.enabled && d.flags.desired_running;
            &&& e.phase == (if wanted && !shutting_down {
                Phase::Queued
            } else {
                Phase::Stopped
            })
            &&& d.generation < u64::MAX ==> e.generation == d.generation + 1
            &&& e.detail@ == ""@
            &&& e.flags == d.flags && e.hash == d.hash && e.definition_revision
                == d.definition_revision && e.failure_count == d.failure_count && e.control
                == d.control
        },
{
}

/// An update that changes something gives the definition its new object, policy and
/// revision, forgets its failures, and ends what runs; else it is queued where it is
/// wanted and the server runs.
pub proof fn law_update_replaces(
    d: Definition,
    e: Definition,
    r: RunRequest,
    up: Replacement,
    shutting_down: bool,
)
    requires
        replaced(d, e, r, up, shutting_down),
    ensures
        e.hash == r.hash && e.restart == r.restart && e.definition_revision
            == up.definition_revision && e.argument_bytes == up.argument_bytes,
        e.args is None && e.argument_reservation == 0 && e.object_pinned && e.failure_count == 0,
        d.generation < u64::MAX ==> e.generation == d.generation + 1,
        e.interrupt == Some(Interrupt::Updated),
        d.control is Some ==> e.phase == Phase::Stopping && e.task_id == 0,
        d.control is None ==> e.phase == (if d.flags.enabled && d.flags.desired_running
            && !shutting_down {
            Phase::Queued
        } else {
            Phase::Stopped
        }),
        e.flags == d.flags && e.extension_id == d.extension_id && e.name == d.name && e.attempt
            == d.attempt && e.followers == d.followers && e.control == d.control,
        e.pending_deadline is None && e.next_start_unix_ms == 0 && e.detail@ == ""@,
{
}

} // verus!
