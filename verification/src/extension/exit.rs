//! How an attempt ended, and how long to wait before the next.

use vstd::arithmetic::power2::{lemma2_to64, lemma_pow2_strictly_increases, pow2};
use vstd::bits::lemma_u64_shl_is_mul;
use vstd::prelude::*;

use crate::extension::protocol::{ExitReason, Interrupt};
use crate::random::{drew_u64, random_u64};

verus! {

/// What kind of failure ended an attempt.
#[derive(Clone, Copy, Debug, PartialEq, Eq, Structural)]
pub enum FailureKind {
    Validation,
    Instantiation,
    AbiMisuse,
    Trap,
    HostFailure,
}

/// A failure of an attempt and its text.
#[derive(Debug)]
pub struct AttemptFailure {
    pub kind: FailureKind,
    pub detail: String,
}

/// How a program ended.
#[derive(Debug)]
pub enum AttemptOutcome {
    Returned(i32),
    Cancelled,
    Failed(AttemptFailure),
}

/// Why the server gave up a connection.
#[derive(Clone, Copy, Debug, PartialEq, Eq, Structural)]
pub enum ConnectionFailure {
    SlowConsumer,
    ResourceLimit,
    Other,
}

/// A finished attempt.
pub struct DrivenAttempt {
    pub outcome: AttemptOutcome,
    /// Whether its connection closed before the program ended.
    pub handler_closed_first: bool,
    pub connection_failure: Option<ConnectionFailure>,
    /// How long it ran, in milliseconds.
    pub running_for_ms: u64,
}

/// What is told of an attempt's end.
#[derive(Debug)]
pub struct Exit {
    pub reason: ExitReason,
    pub code: i32,
    pub detail: String,
    /// Whether it counts as a failure.
    pub failure: bool,
}

/// What an [`Exit`] says.
pub ghost struct ExitView {
    pub reason: ExitReason,
    pub code: i32,
    pub detail: Seq<char>,
    pub failure: bool,
}

impl View for Exit {
    type V = ExitView;

    open spec fn view(&self) -> ExitView {
        ExitView {
            reason: self.reason,
            code: self.code,
            detail: self.detail@,
            failure: self.failure,
        }
    }
}

/// How an interrupted attempt ends. It is no failure.
pub open spec fn interrupted(i: Interrupt) -> ExitView {
    match i {
        Interrupt::Updated => ExitView {
            reason: ExitReason::Updated,
            code: 0,
            detail: "extension definition replaced"@,
            failure: false,
        },
        Interrupt::Restarted => ExitView {
            reason: ExitReason::Updated,
            code: 0,
            detail: "extension definition replaced"@,
            failure: false,
        },
        Interrupt::ServerShutdown => ExitView {
            reason: ExitReason::ServerShutdown,
            code: 0,
            detail: "server is shutting down"@,
            failure: false,
        },
        _ => ExitView {
            reason: ExitReason::Cancelled,
            code: 0,
            detail: "extension cancelled"@,
            failure: false,
        },
    }
}

/// How an attempt ended: an interrupt comes before what the connection did, and
/// that before what the program did.
pub open spec fn classified(driven: DrivenAttempt, interrupt: Option<Interrupt>) -> ExitView {
    match interrupt {
        Some(i) => interrupted(i),
        None => if driven.connection_failure == Some(ConnectionFailure::SlowConsumer) {
            ExitView {
                reason: ExitReason::SlowConsumer,
                code: 0,
                detail: "extension did not drain its output"@,
                failure: true,
            }
        } else if driven.connection_failure == Some(ConnectionFailure::ResourceLimit) {
            ExitView {
                reason: ExitReason::ResourceLimit,
                code: 0,
                detail: "extension native-job resource limit exceeded"@,
                failure: true,
            }
        } else if driven.handler_closed_first {
            ExitView {
                reason: ExitReason::ProtocolViolation,
                code: 0,
                detail: "logical client connection closed before the guest returned"@,
                failure: true,
            }
        } else {
            match driven.outcome {
                AttemptOutcome::Returned(code) => ExitView {
                    reason: ExitReason::Returned,
                    code,
                    detail: ""@,
                    failure: code != 0,
                },
                AttemptOutcome::Cancelled => ExitView {
                    reason: ExitReason::Cancelled,
                    code: 0,
                    detail: "extension cancelled"@,
                    failure: false,
                },
                AttemptOutcome::Failed(e) => ExitView {
                    reason: match e.kind {
                        FailureKind::AbiMisuse => ExitReason::ProtocolViolation,
                        FailureKind::Trap => ExitReason::Trapped,
                        _ => ExitReason::HostFailure,
                    },
                    code: 0,
                    detail: e.detail@,
                    failure: true,
                },
            }
        },
    }
}

fn plain(reason: ExitReason, detail: &str, failure: bool) -> (e: Exit)
    ensures
        e@ == (ExitView { reason, code: 0, detail: detail@, failure }),
{
    Exit { reason, code: 0, detail: detail.to_owned(), failure }
}

pub fn classify_outcome(driven: &DrivenAttempt, interrupt: Option<Interrupt>) -> (e: Exit)
    ensures
        e@ == classified(*driven, interrupt),
{
    match interrupt {
        Some(i) => {
            return match i {
                Interrupt::Updated => plain(
                    ExitReason::Updated,
                    "extension definition replaced",
                    false,
                ),
                Interrupt::Restarted => plain(
                    ExitReason::Updated,
                    "extension definition replaced",
                    false,
                ),
                Interrupt::ServerShutdown => plain(
                    ExitReason::ServerShutdown,
                    "server is shutting down",
                    false,
                ),
                _ => plain(ExitReason::Cancelled, "extension cancelled", false),
            };
        },
        None => {},
    }
    match driven.connection_failure {
        Some(ConnectionFailure::SlowConsumer) => {
            return plain(
                ExitReason::SlowConsumer,
                "extension did not drain its output",
                true,
            );
        },
        Some(ConnectionFailure::ResourceLimit) => {
            return plain(
                ExitReason::ResourceLimit,
                "extension native-job resource limit exceeded",
                true,
            );
        },
        _ => {},
    }
    if driven.handler_closed_first {
        return plain(
            ExitReason::ProtocolViolation,
            "logical client connection closed before the guest returned",
            true,
        );
    }
    match &driven.outcome {
        AttemptOutcome::Returned(code) => Exit {
            reason: ExitReason::Returned,
            code: *code,
            detail: "".to_owned(),
            failure: *code != 0,
        },
        AttemptOutcome::Cancelled => plain(ExitReason::Cancelled, "extension cancelled", false),
        AttemptOutcome::Failed(e) => {
            let reason = match e.kind {
                FailureKind::AbiMisuse => ExitReason::ProtocolViolation,
                FailureKind::Trap => ExitReason::Trapped,
                _ => ExitReason::HostFailure,
            };
            plain(reason, e.detail.as_str(), true)
        },
    }
}

/// The first wait after a failure, in milliseconds.
pub const BACKOFF_BASE_MS: u64 = 250;

/// The longest wait after a failure, in milliseconds.
pub const BACKOFF_MAX_MS: u64 = 30_000;

/// The exponent does not grow beyond this.
pub const BACKOFF_EXPONENT_MAX: u32 = 16;

pub const NANOS_PER_MS: u64 = 1_000_000;

/// The longest wait after so many failures in a row: twice as long after each,
/// up to a bound.
pub open spec fn backoff_cap_ms(failures: u32) -> nat {
    let exponent = if failures == 0 {
        0
    } else if failures - 1 > BACKOFF_EXPONENT_MAX {
        BACKOFF_EXPONENT_MAX as int
    } else {
        failures - 1
    };
    let ms = BACKOFF_BASE_MS as nat * pow2(exponent as nat);
    if ms > BACKOFF_MAX_MS {
        BACKOFF_MAX_MS as nat
    } else {
        ms
    }
}

/// The longest wait, in nanoseconds.
pub open spec fn backoff_cap_ns(failures: u32) -> nat {
    backoff_cap_ms(failures) * NANOS_PER_MS as nat
}

fn cap_ms(failures: u32) -> (ms: u64)
    ensures
        ms as nat == backoff_cap_ms(failures),
        ms <= BACKOFF_MAX_MS,
{
    let before: u32 = failures.saturating_sub(1);
    let exponent: u32 = if before > BACKOFF_EXPONENT_MAX {
        BACKOFF_EXPONENT_MAX
    } else {
        before
    };
    proof {
        lemma2_to64();
        if exponent < 16 {
            lemma_pow2_strictly_increases(exponent as nat, 16);
        }
        lemma_u64_shl_is_mul(1, exponent as u64);
    }
    let factor: u64 = 1u64 << (exponent as u64);
    let ms: u64 = BACKOFF_BASE_MS * factor;
    if ms > BACKOFF_MAX_MS {
        BACKOFF_MAX_MS
    } else {
        ms
    }
}

/// Samples from here on are drawn again, so that every wait is as likely as
/// every other.
pub open spec fn rejection_floor(range: u64) -> u64 {
    (u64::MAX - u64::MAX % range) as u64
}

/// The wait that a random sample gives, if it gives one.
pub open spec fn sampled(failures: u32, sample: u64) -> Option<u64> {
    let range = (backoff_cap_ns(failures) + 1) as u64;
    if sample < rejection_floor(range) {
        Some((sample % range) as u64)
    } else {
        None
    }
}

/// The wait in nanoseconds that a random sample gives, or `None` where another
/// is to be drawn.
pub fn backoff_sample(failures: u32, sample: u64) -> (r: Option<u64>)
    ensures
        r == sampled(failures, sample),
        r matches Some(ns) ==> ns <= backoff_cap_ns(failures),
{
    let cap: u64 = cap_ms(failures) * NANOS_PER_MS;
    let range: u64 = cap + 1;
    let floor: u64 = u64::MAX - u64::MAX % range;
    if sample < floor {
        Some(sample % range)
    } else {
        None
    }
}

/// The wait in nanoseconds that a draw gives: the longest where there is no
/// randomness, and `None` where another sample is to be drawn.
pub fn backoff_drawn(failures: u32, drawn: &Result<u64, String>) -> (r: Option<u64>)
    ensures
        match drawn {
            Ok(sample) => r == sampled(failures, *sample),
            Err(_) => r matches Some(ns) && ns as nat == backoff_cap_ns(failures),
        },
        r matches Some(ns) ==> ns <= backoff_cap_ns(failures),
{
    match drawn {
        Ok(sample) => backoff_sample(failures, *sample),
        Err(_) => Some(cap_ms(failures) * NANOS_PER_MS),
    }
}

/// The wait that a draw gives, if it gives one.
pub open spec fn wait_of(failures: u32, drawn: Result<u64, String>) -> Option<u64> {
    match drawn {
        Ok(sample) => sampled(failures, sample),
        Err(_) => Some(backoff_cap_ns(failures) as u64),
    }
}

/// Whether a wait is what draws from the system's random source gave: that of the
/// last draw, where those before it gave none. After as many draws as can be
/// counted it is the longest.
pub open spec fn waited(failures: u32, draws: Seq<Result<u64, String>>, ns: u64) -> bool {
    &&& draws.len() > 0
    &&& forall|i: int| 0 <= i < draws.len() ==> drew_u64(#[trigger] draws[i])
    &&& forall|i: int|
        0 <= i < draws.len() - 1 ==> wait_of(failures, #[trigger] draws[i]) is None
    &&& match wait_of(failures, draws.last()) {
        Some(wait) => ns == wait,
        None => draws.len() == u64::MAX && ns as nat == backoff_cap_ns(failures),
    }
}

/// Whether a wait came of draws from the system's random source.
pub open spec fn wait_drawn(failures: u32, ns: u64) -> bool {
    exists|draws: Seq<Result<u64, String>>| #[trigger] waited(failures, draws, ns)
}

/// A random wait before the next attempt, in nanoseconds: any from none to the
/// longest, as `backoff_drawn` takes it from what the system's random source
/// gives. Where no randomness is to be had it is the longest.
pub fn backoff_duration(failures: u32) -> (ns: u64)
    ensures
        ns <= backoff_cap_ns(failures),
        wait_drawn(failures, ns),
{
    let mut left: u64 = u64::MAX;
    let ghost mut draws: Seq<Result<u64, String>> = Seq::empty();
    proof {
        lemma_cap_bound(failures);
    }
    while left > 0
        invariant
            draws.len() == u64::MAX - left,
            backoff_cap_ns(failures) <= u64::MAX,
            forall|i: int| 0 <= i < draws.len() ==> drew_u64(#[trigger] draws[i]),
            forall|i: int|
                0 <= i < draws.len() ==> wait_of(failures, #[trigger] draws[i]) is None,
        decreases left,
    {
        let drawn = random_u64();
        let ghost before = draws;
        proof {
            draws = draws.push(drawn);
        }
        match backoff_drawn(failures, &drawn) {
            Some(ns) => {
                proof {
                    assert(draws.last() == drawn);
                    assert(waited(failures, draws, ns));
                }
                return ns;
            },
            None => {},
        }
        left = left - 1;
    }
    let ns: u64 = cap_ms(failures) * NANOS_PER_MS;
    proof {
        assert(wait_of(failures, draws[draws.len() - 1]) is None);
        assert(waited(failures, draws, ns));
    }
    ns
}

/// Waits are unbiased: the samples that are not drawn again are a whole
/// multiple of the number of waits, so each wait has as many samples as every
/// other.
pub proof fn law_backoff_is_unbiased(failures: u32)
    ensures
        ({
            let range = (backoff_cap_ns(failures) + 1) as u64;
            &&& range >= 1
            &&& rejection_floor(range) % range == 0
            &&& rejection_floor(range) >= range
        }),
{
    lemma_cap_bound(failures);
    let range = (backoff_cap_ns(failures) + 1) as u64;
    let top = u64::MAX as int;
    let r = range as int;
    vstd::arithmetic::div_mod::lemma_fundamental_div_mod(top, r);
    let q = top / r;
    assert(top - top % r == r * q);
    vstd::arithmetic::div_mod::lemma_mod_multiples_basic(q, r);
    assert((r * q) % r == 0) by {
        vstd::arithmetic::mul::lemma_mul_is_commutative(r, q);
    }
    vstd::arithmetic::div_mod::lemma_mod_bound(top, r);
    assert(range <= 30_000_000_001);
}

/// The wait never exceeds half a minute and, until it reaches that, doubles
/// with each failure.
pub proof fn law_backoff_doubles(failures: u32)
    requires
        failures >= 1,
        failures < u32::MAX,
    ensures
        backoff_cap_ms(1) == 250,
        backoff_cap_ms(failures) <= 30_000,
        backoff_cap_ms((failures + 1) as u32) == (if 2 * backoff_cap_ms(failures) > 30_000 {
            30_000
        } else {
            2 * backoff_cap_ms(failures)
        }),
{
    lemma2_to64();
    if failures - 1 < 16 {
        vstd::arithmetic::power2::lemma_pow2_unfold(failures as nat);
    }
}

proof fn lemma_cap_bound(failures: u32)
    ensures
        backoff_cap_ns(failures) <= 30_000_000_000,
{
}

} // verus!
