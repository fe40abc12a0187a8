//! The peak detector and its threshold.

use frame_sync::baseband::sync::{sync_threshold, SyncDetector};

/// Run a fresh detector over the powers against one threshold and return the samples
/// at which it reported a peak.
fn reports(powers: &[i64], thresh: i64) -> Vec<usize> {
    let mut detector = SyncDetector::new();
    (0..powers.len()).filter(|&i| detector.detect(powers[i], thresh)).collect()
}

#[test]
fn single_peak_is_reported_once_one_sample_late() {
    assert_eq!(reports(&[1, 4, 9, 16, 12, 3, 2, 1], 5), [4]);
    assert_eq!(reports(&[-30, -20, -10, -15, -40], -25), [3]);
    assert_eq!(reports(&[6, 7, 8, 9, 2], 5), [4]);
}

#[test]
fn peak_at_the_end_of_the_stream_is_not_reported() {
    assert!(reports(&[1, 4, 9, 16], 5).is_empty());
}

#[test]
fn peak_right_at_the_start_is_reported() {
    assert_eq!(reports(&[9, 5, 4, 3], 5), [1]);
}

#[test]
fn second_sample_after_the_peak_may_end_the_stream_above_threshold() {
    assert_eq!(reports(&[1, 9, 8, 7], 2), [2]);
}

#[test]
fn fall_that_stays_above_threshold_is_a_new_excursion() {
    assert_eq!(reports(&[1, 9, 8, 7, 6], 2), [2, 4]);
    assert_eq!(reports(&[1, 9, 8, 7, 6, 5, 4], 2), [2, 4, 6]);
}

#[test]
fn nothing_is_reported_below_threshold() {
    assert!(reports(&[0, 3, 5, 4, 1, 5, 5, 2, -7, 5], 5).is_empty());
    let mut detector = SyncDetector::new();
    for (power, thresh) in [(1, 2), (7, 7), (6, 9), (-3, -3), (2, 100), (99, 100), (0, 1)] {
        assert!(!detector.detect(power, thresh));
    }
}

#[test]
fn power_equal_to_threshold_does_not_start_tracking() {
    let mut detector = SyncDetector::new();
    assert!(!detector.detect(5, 5));
    // Had the detector been tracking 5, this fall would be reported.
    assert!(!detector.detect(4, 5));
}

#[test]
fn flat_power_is_still_tracked() {
    assert_eq!(reports(&[6, 6, 6, 5], 5), [3]);
}

#[test]
fn threshold_is_ignored_while_tracking() {
    let mut detector = SyncDetector::new();
    assert!(!detector.detect(10, 5));
    assert!(!detector.detect(11, 1000));
    assert!(detector.detect(10, 1000));
}

#[test]
fn detector_is_idle_again_after_a_report() {
    let mut detector = SyncDetector::new();
    assert!(!detector.detect(10, 5));
    assert!(detector.detect(9, 5));
    // Below threshold now: an idle detector stays idle, so the fall to 3 is silent.
    assert!(!detector.detect(4, 5));
    assert!(!detector.detect(3, 5));
    // The next excursion is found as the first was.
    assert!(!detector.detect(8, 5));
    assert!(detector.detect(7, 5));
}

#[test]
fn copies_of_a_detector_run_apart() {
    let mut first = SyncDetector::new();
    assert!(!first.detect(10, 5));
    let mut second = first;
    assert!(first.detect(9, 5));
    assert!(!second.detect(12, 5));
    assert!(second.detect(11, 5));
}

#[test]
fn threshold_is_thirteen_twentieths_of_the_root() {
    assert_eq!(sync_threshold(0), 0);
    assert_eq!(sync_threshold(1), 0);
    assert_eq!(sync_threshold(2), 0);
    assert_eq!(sync_threshold(3), 1);
    assert_eq!(sync_threshold(4), 1);
    assert_eq!(sync_threshold(399), 12);
    assert_eq!(sync_threshold(400), 13);
    assert_eq!(sync_threshold(401), 13);
    assert_eq!(sync_threshold(9_999), 64);
    assert_eq!(sync_threshold(10_000), 65);
    assert_eq!(sync_threshold(10_001), 65);
    assert_eq!(sync_threshold(1_000_000_000_000), 650_000);
    assert_eq!(sync_threshold(u64::MAX), 2_791_728_742);
}

#[test]
fn threshold_is_the_largest_that_fits() {
    for power in (0..5_000u64).chain([123_456_789, 987_654_321_012, u64::MAX - 1]) {
        let t = sync_threshold(power) as u128;
        assert!(400 * t * t <= 169 * power as u128);
        assert!(169 * (power as u128) < 400 * (t + 1) * (t + 1));
    }
}

#[test]
fn threshold_follows_the_floating_point_formula() {
    for power in [50_000u64, 1 << 20, 1 << 40, 956_709, 14_745_600_000] {
        let exact = (power as f64).sqrt() * 0.65;
        assert_eq!(sync_threshold(power), exact.floor() as i64);
    }
}
