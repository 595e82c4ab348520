use chain_indexer::stats::StatsTracker;

#[test]
fn test_stats_tracker_creation() {
    let tracker = StatsTracker::new();
    assert_eq!(tracker.get_polling_rate(11155111, 0), 0);
    assert_eq!(tracker.get_current_block(11155111), None);
}

#[test]
fn test_record_poll() {
    let mut tracker = StatsTracker::new();

    for i in 0..5u64 {
        tracker.record_poll(11155111, 1000 + i * 10);
    }

    let rate = tracker.get_polling_rate(11155111, 1050);
    assert!((4..=6).contains(&rate));
    assert_eq!(rate, 5);
}

#[test]
fn test_poll_window_trims() {
    // Polls older than one minute fall out of the rate.
    let mut tracker = StatsTracker::new();
    tracker.record_poll(1, 0);
    tracker.record_poll(1, 30_000);
    tracker.record_poll(1, 70_000);
    assert_eq!(tracker.get_polling_rate(1, 70_000), 2);
    assert_eq!(tracker.get_polling_rate(1, 200_000), 0);
}

#[test]
fn test_update_current_block() {
    let mut tracker = StatsTracker::new();

    tracker.update_current_block(11155111, 1000);
    assert_eq!(tracker.get_current_block(11155111), Some(1000));

    tracker.update_current_block(11155111, 1001);
    assert_eq!(tracker.get_current_block(11155111), Some(1001));
}

#[test]
fn test_multiple_chains() {
    let mut tracker = StatsTracker::new();

    tracker.record_poll(11155111, 1000);
    tracker.record_poll(84532, 1000);
    tracker.update_current_block(11155111, 1000);
    tracker.update_current_block(84532, 2000);

    assert_eq!(tracker.get_current_block(11155111), Some(1000));
    assert_eq!(tracker.get_current_block(84532), Some(2000));
}

#[test]
fn test_chain_stats_snapshot() {
    let mut tracker = StatsTracker::new();

    tracker.record_poll(11155111, 1000);
    tracker.update_current_block(11155111, 5000);

    let snapshot = tracker.get_chain_stats(11155111, 1000).unwrap();
    assert_eq!(snapshot.current_block, Some(5000));
    assert_eq!(snapshot.polling_rate, 1);
}
