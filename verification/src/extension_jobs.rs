//! Native jobs of extensions: how many may wait and run, and how many bytes of
//! requests they may keep, for each endpoint and for all.

use vstd::prelude::*;

use crate::id_map::{lemma_weigh_insert, lemma_weigh_remove, weigh, IdMap};

verus! {

pub const DEFAULT_ACTIVE_PER_ENDPOINT: usize = 32;

pub const DEFAULT_ACTIVE_GLOBAL: usize = 128;

pub const DEFAULT_PENDING_PER_ENDPOINT: usize = 32;

pub const DEFAULT_PENDING_GLOBAL: usize = 128;

pub const DEFAULT_BYTES_PER_ENDPOINT: usize = 0x100_0000;

pub const DEFAULT_BYTES_GLOBAL: usize = 0x400_0000;

/// How much is taken on.
#[derive(Clone, Copy)]
pub struct JobLimits {
    pub active_per_endpoint: usize,
    pub active_global: usize,
    pub pending_per_endpoint: usize,
    pub pending_global: usize,
    pub bytes_per_endpoint: usize,
    pub bytes_global: usize,
}

impl JobLimits {
    /// The limits where a deployment sets none.
    pub fn defaults() -> (l: JobLimits)
        ensures
            l == (JobLimits {
                active_per_endpoint: DEFAULT_ACTIVE_PER_ENDPOINT,
                active_global: DEFAULT_ACTIVE_GLOBAL,
                pending_per_endpoint: DEFAULT_PENDING_PER_ENDPOINT,
                pending_global: DEFAULT_PENDING_GLOBAL,
                bytes_per_endpoint: DEFAULT_BYTES_PER_ENDPOINT,
                bytes_global: DEFAULT_BYTES_GLOBAL,
            }),
    {
        JobLimits {
            active_per_endpoint: DEFAULT_ACTIVE_PER_ENDPOINT,
            active_global: DEFAULT_ACTIVE_GLOBAL,
            pending_per_endpoint: DEFAULT_PENDING_PER_ENDPOINT,
            pending_global: DEFAULT_PENDING_GLOBAL,
            bytes_per_endpoint: DEFAULT_BYTES_PER_ENDPOINT,
            bytes_global: DEFAULT_BYTES_GLOBAL,
        }
    }
}

/// Where a job stands.
#[derive(Clone, Copy, Debug, PartialEq, Eq, Structural)]
pub enum JobStage {
    /// It waits for a place among those of its endpoint.
    Waiting,
    /// It has that and waits for a place among all.
    Holding,
    /// It runs.
    Active,
}

/// One job, which keeps its request's bytes until it is over.
#[derive(Clone, Copy)]
pub struct Job {
    pub endpoint: u64,
    pub bytes: usize,
    pub stage: JobStage,
}

/// An endpoint that may have jobs.
#[derive(Clone, Copy, Debug, PartialEq, Eq, Structural)]
pub struct JobEndpoint {
    pub cancelled: bool,
    /// Whether it was cancelled because a job did not fit.
    pub resource_limited: bool,
    /// How many tasks look after its jobs.
    pub tasks: usize,
}

/// Jobs in numbers.
#[derive(Clone, Copy, Debug, PartialEq, Eq, Structural)]
pub struct Usage {
    pub pending: u128,
    pub active: u128,
    pub bytes: u128,
}

/// What became of a step towards running a job.
#[derive(Clone, Copy, Debug, PartialEq, Eq, Structural)]
pub enum Activation {
    /// It was given up before it ran, and what it kept is free.
    GivenUp,
    /// There is no place for it now.
    NotYet,
    /// It has a place among those of its endpoint.
    Holds,
    Runs,
}

/// Why a job has no result.
#[derive(Clone, Copy, Debug, PartialEq, Eq, Structural)]
pub enum RunError {
    Cancelled,
    Panicked,
}

/// Whether a job counts for an endpoint, or for all.
pub open spec fn counts(e: Option<u64>, j: Job) -> bool {
    e is None || j.endpoint == e->0
}

pub open spec fn pending_weight(e: Option<u64>) -> spec_fn(Job) -> nat {
    |j: Job|
        if counts(e, j) && j.stage != JobStage::Active {
            1
        } else {
            0
        }
}

pub open spec fn active_weight(e: Option<u64>) -> spec_fn(Job) -> nat {
    |j: Job|
        if counts(e, j) && j.stage == JobStage::Active {
            1
        } else {
            0
        }
}

/// The jobs that have a place among those of their endpoint.
pub open spec fn place_weight(e: Option<u64>) -> spec_fn(Job) -> nat {
    |j: Job|
        if counts(e, j) && j.stage != JobStage::Waiting {
            1
        } else {
            0
        }
}

pub open spec fn bytes_weight(e: Option<u64>) -> spec_fn(Job) -> nat {
    |j: Job|
        if counts(e, j) {
            j.bytes as nat
        } else {
            0
        }
}

/// The jobs of all endpoints.
pub struct JobTracker {
    pub limits: JobLimits,
    pub endpoints: IdMap<JobEndpoint>,
    pub jobs: IdMap<Job>,
}

impl JobTracker {
    pub open spec fn pending(self, e: Option<u64>) -> nat {
        weigh(self.jobs.spec_rows(), pending_weight(e))
    }

    pub open spec fn active(self, e: Option<u64>) -> nat {
        weigh(self.jobs.spec_rows(), active_weight(e))
    }

    pub open spec fn places(self, e: Option<u64>) -> nat {
        weigh(self.jobs.spec_rows(), place_weight(e))
    }

    pub open spec fn bytes(self, e: Option<u64>) -> nat {
        weigh(self.jobs.spec_rows(), bytes_weight(e))
    }

    /// Whether an endpoint is within its limits.
    pub open spec fn endpoint_fits(self, e: u64) -> bool {
        &&& self.pending(Some(e)) <= self.limits.pending_per_endpoint
        &&& self.places(Some(e)) <= self.limits.active_per_endpoint
        &&& self.bytes(Some(e)) <= self.limits.bytes_per_endpoint
    }

    /// Every job belongs to an endpoint, and all limits are kept.
    pub open spec fn wf(self) -> bool {
        &&& self.endpoints.wf()
        &&& self.jobs.wf()
        &&& forall|k: u64| #[trigger]
            self.jobs@.dom().contains(k) ==> self.endpoints@.dom().contains(
                self.jobs@[k].endpoint,
            )
        &&& forall|e: u64| #[trigger] self.endpoint_fits(e)
        &&& self.pending(None) <= self.limits.pending_global
        &&& self.active(None) <= self.limits.active_global
        &&& self.bytes(None) <= self.limits.bytes_global
    }

    pub fn new(limits: JobLimits) -> (t: JobTracker)
        ensures
            t.wf(),
            t.limits == limits,
            t.endpoints@ == Map::<u64, JobEndpoint>::empty(),
            t.jobs@ == Map::<u64, Job>::empty(),
    {
        let t = JobTracker { limits, endpoints: IdMap::new(), jobs: IdMap::new() };
        proof {
            t.jobs.lemma_empty();
        }
        t
    }

    /// An endpoint may have jobs from now on.
    pub fn endpoint(&mut self, e: u64)
        requires
            old(self).wf(),
            !old(self).endpoints@.dom().contains(e),
        ensures
            final(self).wf(),
            final(self).endpoints@ == old(self).endpoints@.insert(
                e,
                (JobEndpoint { cancelled: false, resource_limited: false, tasks: 0 }),
            ),
            *final(self) == (JobTracker { endpoints: final(self).endpoints, ..*old(self) }),
    {
        self.endpoints.insert(
            e,
            JobEndpoint { cancelled: false, resource_limited: false, tasks: 0 },
        );
        proof {
            self.lemma_jobs_same(*old(self));
        }
    }

    /// The limits only look at the jobs.
    proof fn lemma_jobs_same(self, before: Self)
        requires
            before.wf(),
            self.endpoints.wf(),
            self.jobs == before.jobs,
            self.limits == before.limits,
            before.endpoints@.dom().subset_of(self.endpoints@.dom()),
        ensures
            self.wf(),
    {
        assert forall|e: u64| #[trigger] self.endpoint_fits(e) by {
            assert(before.endpoint_fits(e));
        }
        assert forall|k: u64| #[trigger]
            self.jobs@.dom().contains(k) implies self.endpoints@.dom().contains(
            self.jobs@[k].endpoint,
        ) by {
            assert(before.jobs@.dom().contains(k));
        }
    }

    fn counted(&self, e: Option<u64>) -> (u: (Usage, u128))
        requires
            self.jobs.wf(),
        ensures
            u.0.pending as nat == self.pending(e),
            u.0.active as nat == self.active(e),
            u.0.bytes as nat == self.bytes(e),
            u.1 as nat == self.places(e),
    {
        let ghost rows = self.jobs.spec_rows();
        let total: usize = self.jobs.len();
        let mut pending: u128 = 0;
        let mut active: u128 = 0;
        let mut bytes: u128 = 0;
        let mut places: u128 = 0;
        let mut i: usize = 0;
        proof {
            assert(rows.take(0) =~= Seq::empty());
        }
        while i < total
            invariant
                i <= total,
                total == rows.len(),
                self.jobs.wf(),
                rows == self.jobs.spec_rows(),
                pending <= i,
                active <= i,
                places <= i,
                bytes <= i * (u64::MAX as int),
                pending as nat == weigh(rows.take(i as int), pending_weight(e)),
                active as nat == weigh(rows.take(i as int), active_weight(e)),
                bytes as nat == weigh(rows.take(i as int), bytes_weight(e)),
                places as nat == weigh(rows.take(i as int), place_weight(e)),
            decreases total - i,
        {
            proof {
                assert(rows.take(i + 1).drop_last() =~= rows.take(i as int));
                assert(rows.take(i + 1).last() == rows[i as int]);
                assert((i + 1) * (u64::MAX as int) == i * (u64::MAX as int) + u64::MAX)
                    by (nonlinear_arith);
                assert((i + 1) * (u64::MAX as int) <= u128::MAX) by (nonlinear_arith)
                    requires
                        i + 1 <= u64::MAX,
                ;
            }
            let j = self.jobs.value_at(i);
            let mine: bool = match e {
                Some(x) => j.endpoint == x,
                None => true,
            };
            if mine {
                match j.stage {
                    JobStage::Waiting => {
                        pending = pending + 1;
                    },
                    JobStage::Holding => {
                        pending = pending + 1;
                        places = places + 1;
                    },
                    JobStage::Active => {
                        active = active + 1;
                        places = places + 1;
                    },
                }
                bytes = bytes + j.bytes as u128;
            }
            i = i + 1;
        }
        proof {
            assert(rows.take(total as int) =~= rows);
        }
        (Usage { pending, active, bytes }, places)
    }

    /// The jobs of an endpoint, or of all, in numbers.
    pub fn usage(&self, e: Option<u64>) -> (u: Usage)
        requires
            self.wf(),
        ensures
            u.pending as nat == self.pending(e),
            u.active as nat == self.active(e),
            u.bytes as nat == self.bytes(e),
    {
        self.counted(e).0
    }

    /// Whether another job fits.
    pub open spec fn room_for(self, e: u64, bytes: usize) -> bool {
        &&& self.pending(Some(e)) < self.limits.pending_per_endpoint
        &&& self.pending(None) < self.limits.pending_global
        &&& self.bytes(Some(e)) + bytes <= self.limits.bytes_per_endpoint
        &&& self.bytes(None) + bytes <= self.limits.bytes_global
    }

    /// Takes a job on. One that does not fit cancels its endpoint.
    pub fn reserve(&mut self, e: u64, bytes: usize) -> (r: Option<u64>)
        requires
            old(self).wf(),
            old(self).endpoints@.dom().contains(e),
        ensures
            final(self).wf(),
            final(self).limits == old(self).limits,
            match r {
                Some(k) => {
                    &&& old(self).room_for(e, bytes)
                    &&& !old(self).jobs@.dom().contains(k)
                    &&& final(self).jobs@ == old(self).jobs@.insert(
                        k,
                        (Job { endpoint: e, bytes, stage: JobStage::Waiting }),
                    )
                    &&& final(self).endpoints@ == old(self).endpoints@
                },
                None => {
                    &&& !old(self).room_for(e, bytes)
                    &&& final(self).jobs@ == old(self).jobs@
                    &&& final(self).endpoints@ == old(self).endpoints@.insert(
                        e,
                        (JobEndpoint {
                            cancelled: true,
                            resource_limited: true,
                            ..old(self).endpoints@[e]
                        }),
                    )
                },
            },
    {
        let (own, _) = self.counted(Some(e));
        let (all, _) = self.counted(None);
        let l: JobLimits = self.limits;
        let more: u128 = bytes as u128;
        proof {
            assert(self.endpoint_fits(e));
        }
        let fits: bool = own.pending < l.pending_per_endpoint as u128 && all.pending
            < l.pending_global as u128 && own.bytes + more <= l.bytes_per_endpoint as u128
            && all.bytes + more <= l.bytes_global as u128;
        if !fits {
            match self.endpoints.get_mut(e) {
                Some(x) => {
                    x.cancelled = true;
                    x.resource_limited = true;
                },
                None => {},
            }
            proof {
                self.lemma_jobs_same(*old(self));
            }
            return None;
        }
        let k: u64 = self.jobs.free_id();
        let job = Job { endpoint: e, bytes, stage: JobStage::Waiting };
        self.jobs.insert(k, job);
        proof {
            self.lemma_job_set(*old(self), k, job);
            assert forall|x: u64| #[trigger] self.endpoint_fits(x) by {
                assert(old(self).endpoint_fits(x));
                self.lemma_weights(*old(self), k, job, Some(x));
            }
            self.lemma_weights(*old(self), k, job, None);
        }
        Some(k)
    }

    /// Setting one job keeps every job with an endpoint.
    proof fn lemma_job_set(self, before: Self, k: u64, job: Job)
        requires
            before.wf(),
            self.jobs.wf(),
            self.jobs@ == before.jobs@.insert(k, job),
            self.endpoints == before.endpoints,
            before.endpoints@.dom().contains(job.endpoint),
        ensures
            forall|x: u64| #[trigger]
                self.jobs@.dom().contains(x) ==> self.endpoints@.dom().contains(
                    self.jobs@[x].endpoint,
                ),
    {
        assert forall|x: u64| #[trigger]
            self.jobs@.dom().contains(x) implies self.endpoints@.dom().contains(
            self.jobs@[x].endpoint,
        ) by {
            if x != k {
                assert(before.jobs@.dom().contains(x));
            }
        }
    }

    /// What setting one job changes of what the jobs weigh.
    proof fn lemma_weights(self, before: Self, k: u64, job: Job, e: Option<u64>)
        requires
            before.jobs.wf(),
            self.jobs.wf(),
            self.jobs@ == before.jobs@.insert(k, job),
        ensures
            before.jobs@.dom().contains(k) ==> {
                let was = before.jobs@[k];
                &&& self.pending(e) + pending_weight(e)(was) == before.pending(e) + pending_weight(
                    e,
                )(job)
                &&& self.active(e) + active_weight(e)(was) == before.active(e) + active_weight(e)(
                    job,
                )
                &&& self.places(e) + place_weight(e)(was) == before.places(e) + place_weight(e)(job)
                &&& self.bytes(e) + bytes_weight(e)(was) == before.bytes(e) + bytes_weight(e)(job)
            },
            !before.jobs@.dom().contains(k) ==> {
                &&& self.pending(e) == before.pending(e) + pending_weight(e)(job)
                &&& self.active(e) == before.active(e) + active_weight(e)(job)
                &&& self.places(e) == before.places(e) + place_weight(e)(job)
                &&& self.bytes(e) == before.bytes(e) + bytes_weight(e)(job)
            },
    {
        assert(self.jobs@[k] == job);
        lemma_weigh_insert(before.jobs, self.jobs, k, pending_weight(e));
        lemma_weigh_insert(before.jobs, self.jobs, k, active_weight(e));
        lemma_weigh_insert(before.jobs, self.jobs, k, place_weight(e));
        lemma_weigh_insert(before.jobs, self.jobs, k, bytes_weight(e));
    }

    /// A job is over or was given up: what it kept is free.
    pub fn release(&mut self, k: u64)
        requires
            old(self).wf(),
        ensures
            final(self).wf(),
            final(self).jobs@ == old(self).jobs@.remove(k),
            *final(self) == (JobTracker { jobs: final(self).jobs, ..*old(self) }),
    {
        let gone = self.jobs.remove(k);
        proof {
            let before = *old(self);
            assert forall|x: u64| #[trigger]
                self.jobs@.dom().contains(x) implies self.endpoints@.dom().contains(
                self.jobs@[x].endpoint,
            ) by {
                assert(before.jobs@.dom().contains(x));
            }
            if before.jobs@.dom().contains(k) {
                assert forall|x: u64| #[trigger] self.endpoint_fits(x) by {
                    assert(before.endpoint_fits(x));
                    lemma_weigh_remove(before.jobs, self.jobs, k, pending_weight(Some(x)));
                    lemma_weigh_remove(before.jobs, self.jobs, k, place_weight(Some(x)));
                    lemma_weigh_remove(before.jobs, self.jobs, k, bytes_weight(Some(x)));
                }
                lemma_weigh_remove(before.jobs, self.jobs, k, pending_weight(None));
                lemma_weigh_remove(before.jobs, self.jobs, k, active_weight(None));
                lemma_weigh_remove(before.jobs, self.jobs, k, bytes_weight(None));
            } else {
                self.jobs.lemma_same(before.jobs);
                assert forall|x: u64| #[trigger] self.endpoint_fits(x) by {
                    assert(before.endpoint_fits(x));
                }
            }
        }
    }

    /// What the next step towards running a job comes to. Its endpoint's place
    /// comes first, so that none of those for all is kept by a job that still
    /// waits for its own endpoint.
    pub open spec fn activation(self, k: u64, launch_cancelled: bool) -> Activation {
        let job = self.jobs@[k];
        if self.endpoints@[job.endpoint].cancelled || launch_cancelled {
            Activation::GivenUp
        } else {
            match job.stage {
                JobStage::Waiting => if self.places(Some(job.endpoint))
                    < self.limits.active_per_endpoint {
                    Activation::Holds
                } else {
                    Activation::NotYet
                },
                JobStage::Holding => if self.active(None) < self.limits.active_global {
                    Activation::Runs
                } else {
                    Activation::NotYet
                },
                JobStage::Active => Activation::Runs,
            }
        }
    }

    /// The next step towards running a job that does not run yet.
    pub fn activate(&mut self, k: u64, launch_cancelled: bool) -> (r: Activation)
        requires
            old(self).wf(),
            old(self).jobs@.dom().contains(k),
            old(self).jobs@[k].stage != JobStage::Active,
        ensures
            final(self).wf(),
            r == old(self).activation(k, launch_cancelled),
            *final(self) == (JobTracker { jobs: final(self).jobs, ..*old(self) }),
            final(self).jobs@ == (match r {
                Activation::GivenUp => old(self).jobs@.remove(k),
                Activation::NotYet => old(self).jobs@,
                Activation::Holds => old(self).jobs@.insert(
                    k,
                    Job { stage: JobStage::Holding, ..old(self).jobs@[k] },
                ),
                Activation::Runs => old(self).jobs@.insert(
                    k,
                    Job { stage: JobStage::Active, ..old(self).jobs@[k] },
                ),
            }),
    {
        let job: Job = match self.jobs.get(k) {
            Some(j) => *j,
            None => {
                return Activation::GivenUp;
            },
        };
        let cancelled: bool = match self.endpoints.get(job.endpoint) {
            Some(x) => x.cancelled,
            None => true,
        };
        if cancelled || launch_cancelled {
            self.release(k);
            return Activation::GivenUp;
        }
        match job.stage {
            JobStage::Waiting => {
                let (_, places) = self.counted(Some(job.endpoint));
                if places >= self.limits.active_per_endpoint as u128 {
                    return Activation::NotYet;
                }
                self.advance(k, Job { stage: JobStage::Holding, ..job });
                Activation::Holds
            },
            _ => {
                let (all, _) = self.counted(None);
                if all.active >= self.limits.active_global as u128 {
                    return Activation::NotYet;
                }
                self.advance(k, Job { stage: JobStage::Active, ..job });
                Activation::Runs
            },
        }
    }

    /// A job goes one stage further.
    fn advance(&mut self, k: u64, now: Job)
        requires
            old(self).wf(),
            old(self).jobs@.dom().contains(k),
            now.endpoint == old(self).jobs@[k].endpoint,
            now.bytes == old(self).jobs@[k].bytes,
            old(self).jobs@[k].stage == JobStage::Waiting && now.stage == JobStage::Holding
                && old(self).places(Some(now.endpoint)) < old(self).limits.active_per_endpoint
                || old(self).jobs@[k].stage == JobStage::Holding && now.stage == JobStage::Active
                && old(self).active(None) < old(self).limits.active_global,
        ensures
            final(self).wf(),
            final(self).jobs@ == old(self).jobs@.insert(k, now),
            *final(self) == (JobTracker { jobs: final(self).jobs, ..*old(self) }),
    {
        self.jobs.insert(k, now);
        proof {
            let before = *old(self);
            self.lemma_job_set(before, k, now);
            assert forall|x: u64| #[trigger] self.endpoint_fits(x) by {
                assert(before.endpoint_fits(x));
                self.lemma_weights(before, k, now, Some(x));
            }
            self.lemma_weights(before, k, now, None);
        }
    }

    /// An endpoint's jobs that do not run yet are to be given up.
    pub fn cancel(&mut self, e: u64)
        requires
            old(self).wf(),
            old(self).endpoints@.dom().contains(e),
        ensures
            final(self).wf(),
            final(self).endpoints@ == old(self).endpoints@.insert(
                e,
                (JobEndpoint { cancelled: true, ..old(self).endpoints@[e] }),
            ),
            *final(self) == (JobTracker { endpoints: final(self).endpoints, ..*old(self) }),
    {
        match self.endpoints.get_mut(e) {
            Some(x) => {
                x.cancelled = true;
            },
            None => {},
        }
        proof {
            self.lemma_jobs_same(*old(self));
        }
    }

    /// A task looks after a job from now on.
    pub fn start_task(&mut self, e: u64)
        requires
            old(self).wf(),
            old(self).endpoints@.dom().contains(e),
            old(self).endpoints@[e].tasks < usize::MAX,
        ensures
            final(self).wf(),
            final(self).endpoints@ == old(self).endpoints@.insert(
                e,
                (JobEndpoint {
                    tasks: (old(self).endpoints@[e].tasks + 1) as usize,
                    ..old(self).endpoints@[e]
                }),
            ),
            *final(self) == (JobTracker { endpoints: final(self).endpoints, ..*old(self) }),
    {
        match self.endpoints.get_mut(e) {
            Some(x) => {
                x.tasks = x.tasks + 1;
            },
            None => {},
        }
        proof {
            self.lemma_jobs_same(*old(self));
        }
    }

    /// A task is over; tells whether it was the last of its endpoint.
    pub fn end_task(&mut self, e: u64) -> (last: bool)
        requires
            old(self).wf(),
            old(self).endpoints@.dom().contains(e),
            old(self).endpoints@[e].tasks > 0,
        ensures
            final(self).wf(),
            last == (old(self).endpoints@[e].tasks == 1),
            final(self).endpoints@ == old(self).endpoints@.insert(
                e,
                (JobEndpoint {
                    tasks: (old(self).endpoints@[e].tasks - 1) as usize,
                    ..old(self).endpoints@[e]
                }),
            ),
            *final(self) == (JobTracker { endpoints: final(self).endpoints, ..*old(self) }),
    {
        let mut last: bool = false;
        match self.endpoints.get_mut(e) {
            Some(x) => {
                last = x.tasks == 1;
                x.tasks = x.tasks - 1;
            },
            None => {},
        }
        proof {
            self.lemma_jobs_same(*old(self));
        }
        last
    }

    /// Whether an endpoint's jobs are all over, so that its cleanup can end.
    pub fn drained(&self, e: u64) -> (r: bool)
        requires
            self.wf(),
            self.endpoints@.dom().contains(e),
        ensures
            r == (self.endpoints@[e].tasks == 0),
    {
        match self.endpoints.get(e) {
            Some(x) => x.tasks == 0,
            None => true,
        }
    }
}

/// What a job that was taken on comes to: it ran, or it was given up before, or
/// it failed while it ran.
pub fn job_outcome(activated: bool, launch_cancelled: bool, panicked: bool) -> (r: Result<
    (),
    RunError,
>)
    ensures
        r == (if !activated || launch_cancelled {
            Err::<(), RunError>(RunError::Cancelled)
        } else if panicked {
            Err::<(), RunError>(RunError::Panicked)
        } else {
            Ok::<(), RunError>(())
        }),
{
    if !activated || launch_cancelled {
        Err(RunError::Cancelled)
    } else if panicked {
        Err(RunError::Panicked)
    } else {
        Ok(())
    }
}

/// From the moment a job is taken on until it is over its bytes stay counted:
/// no step towards running it frees or doubles them.
pub proof fn law_bytes_are_kept_while_a_job_starts(
    before: JobTracker,
    after: JobTracker,
    k: u64,
    stage: JobStage,
    e: Option<u64>,
)
    requires
        before.wf(),
        after.wf(),
        before.jobs@.dom().contains(k),
        after.jobs@ == before.jobs@.insert(k, (Job { stage, ..before.jobs@[k] })),
    ensures
        after.bytes(e) == before.bytes(e),
        after.pending(e) + after.active(e) == before.pending(e) + before.active(e),
{
    after.lemma_weights(before, k, Job { stage, ..before.jobs@[k] }, e);
}

/// A job that waits for its own endpoint keeps none of the places for all.
pub proof fn law_saturated_endpoint_hoards_nothing(t: JobTracker, k: u64)
    requires
        t.wf(),
        t.jobs@.dom().contains(k),
        t.jobs@[k].stage == JobStage::Waiting,
    ensures
        active_weight(None)(t.jobs@[k]) == 0,
        place_weight(Some(t.jobs@[k].endpoint))(t.jobs@[k]) == 0,
        t.activation(k, false) != Activation::Runs,
{
}

} // verus!
