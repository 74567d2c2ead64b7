use honeypot::addr::{IpAddr, Ipv4Addr};
use honeypot::time::{Duration, Instant};
use honeypot::tracker::{VisitDecision, VisitTracker};

fn ip(last: u8) -> IpAddr {
    IpAddr::V4(Ipv4Addr::new(192, 0, 2, last))
}

fn after(start: Instant, seconds: i128) -> Instant {
    Instant { nanos: start.nanos + seconds * 1_000_000_000 }
}

fn start() -> Instant {
    Instant { nanos: 1_000_000_000_000_000 }
}

#[test]
fn bans_on_configured_visit_count_inside_window() {
    let mut tracker = VisitTracker::new(Duration::from_secs(60), 3, 100);
    let start = start();

    assert_eq!(
        tracker.record_at(ip(10), start),
        VisitDecision::Allow { count: 1 }
    );
    assert_eq!(
        tracker.record_at(ip(10), after(start, 1)),
        VisitDecision::Allow { count: 2 }
    );
    assert_eq!(
        tracker.record_at(ip(10), after(start, 2)),
        VisitDecision::Ban { count: 3 }
    );
}

#[test]
fn old_visits_expire_outside_window() {
    let mut tracker = VisitTracker::new(Duration::from_secs(10), 2, 100);
    let start = start();

    assert_eq!(
        tracker.record_at(ip(10), start),
        VisitDecision::Allow { count: 1 }
    );
    assert_eq!(
        tracker.record_at(ip(10), after(start, 11)),
        VisitDecision::Allow { count: 1 }
    );
}

#[test]
fn evicts_least_recently_used_ip_when_tracking_table_is_full() {
    let mut tracker = VisitTracker::new(Duration::from_secs(60), 10, 2);
    let start = start();

    tracker.record_at(ip(1), start);
    tracker.record_at(ip(2), after(start, 1));
    tracker.record_at(ip(1), after(start, 2));
    tracker.record_at(ip(3), after(start, 3));

    assert_eq!(tracker.tracked_ip_count(), 2);
    assert!(tracker.is_tracked(ip(1)));
    assert!(!tracker.is_tracked(ip(2)));
    assert!(tracker.is_tracked(ip(3)));
}

#[test]
fn bounds_stored_events_for_one_ip_after_repeated_bans() {
    let mut tracker = VisitTracker::new(Duration::from_secs(1_000), 3, 100);
    let start = start();

    for offset in 0..100 {
        let decision = tracker.record_at(ip(10), after(start, offset));
        if offset >= 2 {
            assert_eq!(decision, VisitDecision::Ban { count: 3 });
        }
    }

    assert_eq!(tracker.stored_visits(ip(10)).unwrap(), 3);
}

#[test]
fn banned_ip_recovers_after_its_stored_events_expire() {
    let mut tracker = VisitTracker::new(Duration::from_secs(10), 3, 100);
    let start = start();

    tracker.record_at(ip(10), start);
    tracker.record_at(ip(10), after(start, 1));
    assert_eq!(
        tracker.record_at(ip(10), after(start, 2)),
        VisitDecision::Ban { count: 3 }
    );
    assert_eq!(
        tracker.record_at(ip(10), after(start, 13)),
        VisitDecision::Allow { count: 1 }
    );
}

#[test]
fn never_exceeds_the_configured_ip_capacity() {
    let mut tracker = VisitTracker::new(Duration::from_secs(60), 3, 8);
    let start = start();

    for last in 0..100 {
        tracker.record_at(ip(last), after(start, i128::from(last)));
        assert!(tracker.tracked_ip_count() <= 8);
    }

    assert_eq!(tracker.tracked_ip_count(), 8);
}

#[test]
fn a_visit_at_the_edge_of_the_window_still_counts() {
    let mut tracker = VisitTracker::new(Duration::from_secs(10), 2, 100);
    let start = start();
    tracker.record_at(ip(1), start);
    assert_eq!(
        tracker.record_at(ip(1), after(start, 10)),
        VisitDecision::Ban { count: 2 }
    );
}

#[test]
fn sources_are_counted_apart() {
    let mut tracker = VisitTracker::new(Duration::from_secs(60), 2, 100);
    let start = start();
    tracker.record_at(ip(1), start);
    assert_eq!(
        tracker.record_at(ip(2), start),
        VisitDecision::Allow { count: 1 }
    );
    assert_eq!(
        tracker.record_at(ip(1), after(start, 1)),
        VisitDecision::Ban { count: 2 }
    );
    assert_eq!(tracker.stored_visits(ip(2)), Some(1));
    assert_eq!(tracker.stored_visits(ip(3)), None);
}

#[test]
fn a_look_at_the_history_counts_as_use() {
    let mut tracker = VisitTracker::new(Duration::from_secs(60), 5, 2);
    let start = start();
    tracker.record_at(ip(1), start);
    tracker.record_at(ip(2), start);
    assert_eq!(tracker.stored_visits(ip(1)), Some(1));
    tracker.record_at(ip(3), start);
    assert!(tracker.is_tracked(ip(1)));
    assert!(!tracker.is_tracked(ip(2)));
}

#[test]
fn visits_now_are_counted() {
    let mut tracker = VisitTracker::new(Duration::from_secs(3_600), 3, 10);
    assert_eq!(tracker.record(ip(1)), VisitDecision::Allow { count: 1 });
    assert_eq!(tracker.record(ip(1)), VisitDecision::Allow { count: 2 });
    assert_eq!(tracker.record(ip(1)), VisitDecision::Ban { count: 3 });
    assert_eq!(tracker.record(ip(1)), VisitDecision::Ban { count: 3 });
}

#[test]
fn a_window_longer_than_the_clock_keeps_every_visit() {
    let mut tracker = VisitTracker::new(Duration::from_secs(u64::MAX), 2, 100);
    let now = Instant { nanos: 5 };
    assert_eq!(tracker.record_at(ip(1), now), VisitDecision::Allow { count: 1 });
    assert_eq!(
        tracker.record_at(ip(1), after(now, 1)),
        VisitDecision::Ban { count: 2 }
    );

    let mut tracker = VisitTracker::new(Duration::from_secs(u64::MAX), 2, 100);
    let first = Instant { nanos: i128::MIN };
    assert_eq!(tracker.record_at(ip(1), first), VisitDecision::Allow { count: 1 });
    assert_eq!(
        tracker.record_at(ip(1), after(first, 1)),
        VisitDecision::Ban { count: 2 }
    );
}

#[test]
fn a_source_that_is_remembered_is_judged_by_its_own_visits() {
    let mut tracker = VisitTracker::new(Duration::from_secs(60), 3, 2);
    let start = start();
    assert_eq!(tracker.record_at(ip(1), start), VisitDecision::Allow { count: 1 });
    for other in 2..20 {
        tracker.record_at(ip(100), after(start, i128::from(other)));
    }
    assert_eq!(
        tracker.record_at(ip(1), after(start, 20)),
        VisitDecision::Allow { count: 2 }
    );
    tracker.record_at(ip(2), after(start, 21));
    assert!(!tracker.is_tracked(ip(100)));
    assert!(tracker.is_tracked(ip(1)));
    assert_eq!(
        tracker.record_at(ip(1), after(start, 22)),
        VisitDecision::Ban { count: 3 }
    );
}

#[test]
fn the_oldest_of_many_sources_go_first() {
    let mut tracker = VisitTracker::new(Duration::from_secs(60), 2, 3);
    let start = start();
    for last in 1..=5 {
        tracker.record_at(ip(last), start);
    }
    assert!(!tracker.is_tracked(ip(1)));
    assert!(!tracker.is_tracked(ip(2)));
    assert!(tracker.is_tracked(ip(3)));
    assert!(tracker.is_tracked(ip(4)));
    assert!(tracker.is_tracked(ip(5)));
}
