use chain_indexer::indexer::SyncPlan;
use chain_indexer::indexer::calculate_adaptive_interval;
use chain_indexer::indexer::next_cursor;
use chain_indexer::indexer::plan_iteration;
use chain_indexer::indexer::resume_block;

#[test]
fn test_plan_caught_up_waits() {
    assert_eq!(plan_iteration(100, 100, 5), SyncPlan::Wait);
    assert_eq!(plan_iteration(100, 90, 5), SyncPlan::Wait);
}

#[test]
fn test_plan_near_tip_syncs_single_block() {
    assert_eq!(plan_iteration(100, 101, 5), SyncPlan::Single { block: 100 });
    assert_eq!(plan_iteration(100, 110, 5), SyncPlan::Single { block: 100 });
}

#[test]
fn test_plan_moderately_behind_batches_paced() {
    assert_eq!(
        plan_iteration(100, 150, 5),
        SyncPlan::Batch { from: 100, to: 105, paced: true }
    );
    // The batch never runs past the head.
    assert_eq!(
        plan_iteration(100, 130, 50),
        SyncPlan::Batch { from: 100, to: 130, paced: true }
    );
}

#[test]
fn test_plan_far_behind_batches_full_speed() {
    assert_eq!(
        plan_iteration(100, 300, 5),
        SyncPlan::Batch { from: 100, to: 200, paced: false }
    );
}

#[test]
fn test_adaptive_interval_table() {
    assert_eq!(calculate_adaptive_interval(0, 12000), 12000);
    assert_eq!(calculate_adaptive_interval(5, 12000), 6000);
    assert_eq!(calculate_adaptive_interval(10, 12000), 6000);
    assert_eq!(calculate_adaptive_interval(50, 12000), 2400);
    assert_eq!(calculate_adaptive_interval(500, 12000), 100);
}

#[test]
fn test_resume_replays_last_block() {
    assert_eq!(resume_block(102, 0), 101);
    assert_eq!(resume_block(2, 500), 1);
    assert_eq!(resume_block(1, 500), 500);
    assert_eq!(resume_block(0, 500), 500);
}

#[test]
fn test_cursor_advances_past_synced_window() {
    assert_eq!(next_cursor(&SyncPlan::Single { block: 100 }, 100), 101);
    assert_eq!(next_cursor(&SyncPlan::Batch { from: 100, to: 105, paced: true }, 100), 106);
    assert_eq!(next_cursor(&SyncPlan::Wait, 100), 100);
}

#[test]
fn test_cursor_monotonic_over_syncs() {
    // Each successful single-block sync advances the cursor by one.
    let mut cursor: u64 = 100;
    for _ in 0..5 {
        let plan = SyncPlan::Single { block: cursor };
        cursor = next_cursor(&plan, cursor);
    }
    assert_eq!(cursor, 105);
}
