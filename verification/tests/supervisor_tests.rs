use chain_indexer::supervisor::ChainStatus;
use chain_indexer::supervisor::IndexerOutcome;
use chain_indexer::supervisor::RestartPolicy;
use chain_indexer::supervisor::SupervisorAction;
use chain_indexer::supervisor::calculate_backoff;
use chain_indexer::supervisor::next_action;

#[test]
fn test_calculate_backoff() {
    assert_eq!(calculate_backoff(1, 1000, 60000), 2000);
    assert_eq!(calculate_backoff(2, 1000, 60000), 4000);
    assert_eq!(calculate_backoff(3, 1000, 60000), 8000);
    assert_eq!(calculate_backoff(10, 1000, 60000), 60000);
}

#[test]
fn test_backoff_sequence() {
    // The documented schedule: delays double from twice the base and hold
    // at the cap.
    let delays: Vec<u64> = (1..=7).map(|r| calculate_backoff(r, 1000, 60000)).collect();
    assert_eq!(delays, vec![2000, 4000, 8000, 16000, 32000, 60000, 60000]);
}

#[test]
fn test_chain_status_as_str() {
    assert_eq!(ChainStatus::Active.as_str(), "active");
    assert_eq!(ChainStatus::Syncing.as_str(), "syncing");
    assert_eq!(ChainStatus::CatchingUp.as_str(), "catching_up");
    assert_eq!(ChainStatus::Stalled.as_str(), "stalled");
    assert_eq!(ChainStatus::Failed.as_str(), "failed");
}

#[test]
fn test_next_action_clean_exit() {
    let policy = RestartPolicy::Always;
    let action = next_action(&policy, 3, IndexerOutcome::CleanExit);
    assert_eq!(action, SupervisorAction::Stop { status: ChainStatus::Active });
}

#[test]
fn test_next_action_error_always_restarts() {
    let policy = RestartPolicy::OnFailure;
    let action = next_action(&policy, 3, IndexerOutcome::Errored);
    assert_eq!(
        action,
        SupervisorAction::Restart {
            status: ChainStatus::Stalled,
            delay_ms: 1000,
            next_retry_count: 3,
        }
    );
}

#[test]
fn test_next_action_exponential_schedule() {
    let policy = RestartPolicy::Exponential {
        max_retries: 5,
        base_delay_ms: 1000,
        max_delay_ms: 60000,
    };
    let action = next_action(&policy, 0, IndexerOutcome::Errored);
    assert_eq!(
        action,
        SupervisorAction::Restart {
            status: ChainStatus::Stalled,
            delay_ms: 2000,
            next_retry_count: 1,
        }
    );
    let action = next_action(&policy, 4, IndexerOutcome::Errored);
    assert_eq!(
        action,
        SupervisorAction::Restart {
            status: ChainStatus::Stalled,
            delay_ms: 32000,
            next_retry_count: 5,
        }
    );
    let action = next_action(&policy, 5, IndexerOutcome::Errored);
    assert_eq!(action, SupervisorAction::Stop { status: ChainStatus::Failed });
}

#[test]
fn test_next_action_panic_restarts() {
    let policy = RestartPolicy::Exponential {
        max_retries: 5,
        base_delay_ms: 1000,
        max_delay_ms: 60000,
    };
    let action = next_action(&policy, 5, IndexerOutcome::Panicked);
    assert_eq!(
        action,
        SupervisorAction::Restart {
            status: ChainStatus::Stalled,
            delay_ms: 1000,
            next_retry_count: 5,
        }
    );
}
