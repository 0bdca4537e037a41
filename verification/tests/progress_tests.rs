use megabasterd_core::download::progress::ProgressTracker;
use megabasterd_core::download::throttle::BandwidthThrottler;

#[test]
fn test_progress_tracking() {
    let mut p = ProgressTracker::new(0);
    p.add_partial(1024);
    p.add_partial(2048);
    assert_eq!(p.get(), 3072);
    let flushed = p.flush();
    assert_eq!(flushed, 3072);
    assert_eq!(p.get(), 3072);
}

#[test]
fn test_initial_bytes() {
    let mut p = ProgressTracker::new(5000);
    assert_eq!(p.get(), 5000);
    p.add_partial(1000);
    assert_eq!(p.get(), 6000);
}

#[test]
fn rollback_and_set() {
    let mut p = ProgressTracker::new(100);
    p.add_partial(-30);
    assert_eq!(p.get(), 70);
    assert_eq!(p.flush(), 70);
    assert_eq!(p.get(), 70);
    p.add_partial(-500);
    assert_eq!(p.get(), 0);
    p.set(9);
    assert_eq!(p.get(), 9);
}

#[test]
fn throttle_delays() {
    let mut t = BandwidthThrottler::unlimited();
    assert!(!t.is_limited());
    assert_eq!(t.delay_ms(16384), 0);
    t.set_limit(1000);
    assert!(t.is_limited());
    assert_eq!(t.get_limit(), 1000);
    assert_eq!(t.delay_ms(2500), 2500);
    assert_eq!(t.delay_ms(0), 0);
    let t2 = BandwidthThrottler::new(3000, 1024);
    assert_eq!(t2.delay_ms(1000), 333);
}
