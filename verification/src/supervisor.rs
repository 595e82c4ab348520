//! The supervisor's decision core: restart policies, chain status names,
//! and the exponential backoff schedule. The surrounding task loop performs
//! the sleeps and restarts these decisions call for.

use vstd::prelude::*;

verus! {

/// How a chain's indexer is restarted after a failure.
#[derive(Clone, Copy, Debug)]
pub enum RestartPolicy {
    /// Restart after every exit.
    Always,
    /// Restart after a failed exit.
    OnFailure,
    /// Restart with exponentially growing delays, giving up after
    /// `max_retries` failures.
    Exponential { max_retries: u32, base_delay_ms: u64, max_delay_ms: u64 },
}

/// The reported state of a chain's indexer.
#[derive(Clone, Copy, Debug, PartialEq, Eq, Structural)]
pub enum ChainStatus {
    Active,
    Syncing,
    CatchingUp,
    Stalled,
    Failed,
}

/// The persisted name of a chain status.
pub open spec fn chain_status_name(s: ChainStatus) -> Seq<char> {
    match s {
        ChainStatus::Active => "active"@,
        ChainStatus::Syncing => "syncing"@,
        ChainStatus::CatchingUp => "catching_up"@,
        ChainStatus::Stalled => "stalled"@,
        ChainStatus::Failed => "failed"@,
    }
}

impl ChainStatus {
    /// The persisted name of this status.
    pub fn as_str(&self) -> (r: &'static str)
        ensures
            r@ == chain_status_name(*self),
    {
        match self {
            ChainStatus::Active => "active",
            ChainStatus::Syncing => "syncing",
            ChainStatus::CatchingUp => "catching_up",
            ChainStatus::Stalled => "stalled",
            ChainStatus::Failed => "failed",
        }
    }
}

/// `2^n` over the unbounded integers.
pub open spec fn pow2_int(n: nat) -> int
    decreases n,
{
    if n == 0 {
        1
    } else {
        2 * pow2_int((n - 1) as nat)
    }
}

/// The backoff delay before restart attempt `retry`, in milliseconds:
/// `base * 2^retry`, capped at `max`.
pub open spec fn spec_backoff_ms(retry: u32, base_delay_ms: u64, max_delay_ms: u64) -> int {
    if base_delay_ms * pow2_int(retry as nat) <= max_delay_ms as int {
        base_delay_ms * pow2_int(retry as nat)
    } else {
        max_delay_ms as int
    }
}

/// `2^n` is positive and grows with `n`.
pub proof fn lemma_pow2_mono(a: nat, b: nat)
    requires
        a <= b,
    ensures
        1 <= pow2_int(a) <= pow2_int(b),
    decreases b,
{
    if b > 0 {
        if a == b {
            lemma_pow2_mono((a - 1) as nat, (b - 1) as nat);
        } else {
            lemma_pow2_mono(a, (b - 1) as nat);
            assert(pow2_int(b) == 2 * pow2_int((b - 1) as nat));
        }
    }
}

/// Restart supervision: the exponential backoff delay.
pub fn calculate_backoff(retry: u32, base_delay_ms: u64, max_delay_ms: u64) -> (r: u64)
    ensures
        r as int == spec_backoff_ms(retry, base_delay_ms, max_delay_ms),
{
    let mut acc: u64 = base_delay_ms;
    let mut k: u32 = 0;
    while k < retry
        invariant
            0 <= k <= retry,
            acc as int == base_delay_ms * pow2_int(k as nat),
        decreases retry - k,
    {
        if acc > max_delay_ms {
            proof {
                lemma_pow2_mono(k as nat, retry as nat);
                assert(base_delay_ms * pow2_int(k as nat) <= base_delay_ms * pow2_int(
                    retry as nat,
                )) by (nonlinear_arith)
                    requires
                        pow2_int(k as nat) <= pow2_int(retry as nat),
                        base_delay_ms >= 0,
                ;
            }
            return max_delay_ms;
        }
        if acc > u64::MAX / 2 {
            proof {
                lemma_pow2_mono((k + 1) as nat, retry as nat);
                assert(pow2_int((k + 1) as nat) == 2 * pow2_int(k as nat));
                assert(base_delay_ms * pow2_int((k + 1) as nat) <= base_delay_ms * pow2_int(
                    retry as nat,
                )) by (nonlinear_arith)
                    requires
                        pow2_int((k + 1) as nat) <= pow2_int(retry as nat),
                        base_delay_ms >= 0,
                ;
                assert(base_delay_ms * (2 * pow2_int(k as nat)) == 2 * (base_delay_ms * pow2_int(
                    k as nat,
                ))) by (nonlinear_arith);
            }
            return max_delay_ms;
        }
        proof {
            assert(pow2_int((k + 1) as nat) == 2 * pow2_int(k as nat));
            assert(base_delay_ms * (2 * pow2_int(k as nat)) == 2 * (base_delay_ms * pow2_int(
                k as nat,
            ))) by (nonlinear_arith);
        }
        acc = acc * 2;
        k += 1;
    }
    if acc <= max_delay_ms {
        acc
    } else {
        max_delay_ms
    }
}

/// How one run of a chain's indexer ended.
#[derive(Clone, Copy, Debug, PartialEq, Eq, Structural)]
pub enum IndexerOutcome {
    /// The indexer returned without error.
    CleanExit,
    /// The indexer returned an error.
    Errored,
    /// The indexer's task panicked.
    Panicked,
}

/// What the supervisor does next after a run ended.
#[derive(Clone, Copy, Debug, PartialEq, Eq, Structural)]
pub enum SupervisorAction {
    /// Record the status and stop supervising the chain.
    Stop { status: ChainStatus },
    /// Record the status, sleep, and start the indexer again.
    Restart { status: ChainStatus, delay_ms: u64, next_retry_count: u32 },
}

/// The supervisor's decision after a run of the indexer: a clean exit marks
/// the chain active and stops; under `Always` and `OnFailure` an error
/// restarts after one second; under `Exponential` an error restarts with the
/// backoff schedule until `max_retries` failures, then marks the chain
/// failed; a panic always restarts after one second.
pub fn next_action(policy: &RestartPolicy, retry_count: u32, outcome: IndexerOutcome) -> (r:
    SupervisorAction)
    ensures
        outcome == IndexerOutcome::CleanExit ==> r == (SupervisorAction::Stop {
            status: ChainStatus::Active,
        }),
        outcome == IndexerOutcome::Panicked ==> r == (SupervisorAction::Restart {
            status: ChainStatus::Stalled,
            delay_ms: 1000u64,
            next_retry_count: retry_count,
        }),
        outcome == IndexerOutcome::Errored ==> (match *policy {
            RestartPolicy::Always | RestartPolicy::OnFailure => r == (SupervisorAction::Restart {
                status: ChainStatus::Stalled,
                delay_ms: 1000u64,
                next_retry_count: retry_count,
            }),
            RestartPolicy::Exponential { max_retries, base_delay_ms, max_delay_ms } => {
                if retry_count >= max_retries {
                    r == (SupervisorAction::Stop { status: ChainStatus::Failed })
                } else {
                    r == (SupervisorAction::Restart {
                        status: ChainStatus::Stalled,
                        delay_ms: spec_backoff_ms(
                            (retry_count + 1) as u32,
                            base_delay_ms,
                            max_delay_ms,
                        ) as u64,
                        next_retry_count: (retry_count + 1) as u32,
                    })
                }
            },
        }),
{
    match outcome {
        IndexerOutcome::CleanExit => SupervisorAction::Stop { status: ChainStatus::Active },
        IndexerOutcome::Panicked => SupervisorAction::Restart {
            status: ChainStatus::Stalled,
            delay_ms: 1000,
            next_retry_count: retry_count,
        },
        IndexerOutcome::Errored => match policy {
            RestartPolicy::Always | RestartPolicy::OnFailure => SupervisorAction::Restart {
                status: ChainStatus::Stalled,
                delay_ms: 1000,
                next_retry_count: retry_count,
            },
            RestartPolicy::Exponential { max_retries, base_delay_ms, max_delay_ms } => {
                if retry_count >= *max_retries {
                    SupervisorAction::Stop { status: ChainStatus::Failed }
                } else {
                    let next = retry_count + 1;
                    SupervisorAction::Restart {
                        status: ChainStatus::Stalled,
                        delay_ms: calculate_backoff(next, *base_delay_ms, *max_delay_ms),
                        next_retry_count: next,
                    }
                }
            },
        },
    }
}

} // verus!
