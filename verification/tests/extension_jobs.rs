use blit_server::extension_jobs::{job_outcome, Activation, JobLimits, JobTracker, RunError, Usage};

fn limits() -> JobLimits {
    JobLimits {
        active_per_endpoint: 1,
        active_global: 1,
        pending_per_endpoint: 2,
        pending_global: 3,
        bytes_per_endpoint: 8,
        bytes_global: 12,
    }
}

fn usage(t: &JobTracker, endpoint: u64) -> (u128, u128, u128) {
    let u = t.usage(Some(endpoint));
    (u.pending, u.active, u.bytes)
}

fn run(t: &mut JobTracker, job: u64) {
    assert_eq!(t.activate(job, false), Activation::Holds);
    assert_eq!(t.activate(job, false), Activation::Runs);
}

#[test]
fn pending_active_and_bytes_transfer_without_a_gap() {
    let mut t = JobTracker::new(limits());
    t.endpoint(1);
    let first = t.reserve(1, 5).unwrap();
    run(&mut t, first);
    assert_eq!(usage(&t, 1), (0, 1, 5));

    let second = t.reserve(1, 3).unwrap();
    assert_eq!(usage(&t, 1), (1, 1, 8));
    assert!(t.reserve(1, 1).is_none());
    let endpoint = *t.endpoints.get(1).unwrap();
    assert!(endpoint.cancelled && endpoint.resource_limited);

    t.release(second);
    assert_eq!(usage(&t, 1), (0, 1, 5));
    t.release(first);
    assert_eq!(usage(&t, 1), (0, 0, 0));
}

#[test]
fn global_limits_cover_distinct_endpoints() {
    let mut t = JobTracker::new(limits());
    t.endpoint(1);
    t.endpoint(2);
    let active = t.reserve(1, 7).unwrap();
    run(&mut t, active);
    let pending = t.reserve(2, 5).unwrap();
    assert!(t.reserve(2, 1).is_none());
    t.release(pending);
    t.release(active);
    assert_eq!(t.usage(None), Usage { pending: 0, active: 0, bytes: 0 });
}

#[test]
fn cancellation_drops_pending_work_before_launch() {
    let mut t = JobTracker::new(limits());
    t.endpoint(1);
    let active = t.reserve(1, 1).unwrap();
    run(&mut t, active);
    let waiting = t.reserve(1, 1).unwrap();
    t.start_task(1);
    assert!(!t.drained(1));
    assert_eq!(t.activate(waiting, false), Activation::NotYet);
    t.cancel(1);
    t.release(active);
    assert_eq!(t.activate(waiting, false), Activation::GivenUp);
    assert!(t.end_task(1));
    assert!(t.drained(1));
    assert_eq!(usage(&t, 1), (0, 0, 0));
}

#[test]
fn typed_completion_cancels_while_active_admission_is_saturated() {
    let mut t = JobTracker::new(limits());
    t.endpoint(1);
    let active = t.reserve(1, 1).unwrap();
    run(&mut t, active);
    let waiting = t.reserve(1, 2).unwrap();
    assert_eq!(t.activate(waiting, false), Activation::NotYet);
    assert_eq!(usage(&t, 1), (1, 1, 3));
    assert_eq!(t.activate(waiting, true), Activation::GivenUp);
    assert_eq!(job_outcome(false, true, false), Err(RunError::Cancelled));
    t.release(active);
    assert_eq!(usage(&t, 1), (0, 0, 0));
}

#[test]
fn a_place_for_all_is_taken_after_the_endpoint_has_one() {
    let mut t = JobTracker::new(limits());
    t.endpoint(1);
    t.endpoint(2);
    let one = t.reserve(1, 1).unwrap();
    let two = t.reserve(2, 1).unwrap();
    run(&mut t, one);
    assert_eq!(t.activate(two, false), Activation::Holds);
    assert_eq!(t.activate(two, false), Activation::NotYet);
    t.release(one);
    assert_eq!(t.activate(two, false), Activation::Runs);
    assert_eq!(usage(&t, 2), (0, 1, 1));
}

#[test]
fn jobs_end_in_a_result_or_say_why_not() {
    assert_eq!(job_outcome(true, false, false), Ok(()));
    assert_eq!(job_outcome(true, false, true), Err(RunError::Panicked));
    assert_eq!(job_outcome(true, true, true), Err(RunError::Cancelled));
    let l = JobLimits::defaults();
    assert_eq!((l.active_per_endpoint, l.active_global), (32, 128));
    assert_eq!((l.pending_per_endpoint, l.pending_global), (32, 128));
    assert_eq!((l.bytes_per_endpoint, l.bytes_global), (16 << 20, 64 << 20));
}
