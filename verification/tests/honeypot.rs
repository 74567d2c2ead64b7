use honeypot::addr::{parse_ip, IpAddr};
use honeypot::config::{AdminConfig, HoneypotConfig};
use honeypot::honeypot::{
    ban_reason, AcceptBackoff, BanQueue, BanQueueOutcome, BanRequest, Connection, ConnectionAction,
    ConnectionEvent, ConnectionSettings, Listener, ListenerAction, ListenerEvent,
};
use honeypot::time::Duration;
use honeypot::tracker::VisitDecision;

fn request(last: u8) -> BanRequest {
    BanRequest {
        ip: parse_ip(&format!("192.0.2.{last}")).unwrap(),
        count: 5,
    }
}

#[test]
fn accept_backoff_is_bounded_and_resettable() {
    let mut backoff = AcceptBackoff::new();
    let delays: Vec<_> = (0..7).map(|_| backoff.next_delay()).collect();
    assert_eq!(
        delays,
        vec![
            Duration::from_millis(50),
            Duration::from_millis(100),
            Duration::from_millis(200),
            Duration::from_millis(400),
            Duration::from_millis(800),
            Duration::from_secs(1),
            Duration::from_secs(1),
        ]
    );
    backoff.reset();
    assert_eq!(backoff.next_delay(), Duration::from_millis(50));
}

#[test]
fn ban_queue_deduplicates_pending_ip() {
    let mut queue = BanQueue::new();

    assert!(!queue.is_pending(request(1).ip));
    assert_eq!(queue.enqueue(request(1)), BanQueueOutcome::Queued);
    assert!(queue.is_pending(request(1).ip));
    assert_eq!(queue.enqueue(request(1)), BanQueueOutcome::AlreadyPending);
    assert_eq!(queue.enqueue(request(2)), BanQueueOutcome::Queued);
    queue.complete(request(1).ip);
    assert!(!queue.is_pending(request(1).ip));
    assert!(queue.is_pending(request(2).ip));
    assert_eq!(queue.enqueue(request(1)), BanQueueOutcome::Queued);
    queue.complete(request(3).ip);
    assert_eq!(ban_reason(), "honeypot_rate_limit");
}

fn settings(banner: &str, read_ms: u64, delay_ms: u64, inline: bool) -> ConnectionSettings {
    let config = HoneypotConfig {
        banner: banner.to_string(),
        read_after_banner_timeout_ms: read_ms,
        close_delay_ms: delay_ms,
        ..HoneypotConfig::default()
    };
    let admin = AdminConfig { inline_on_honeypot_port: inline, ..AdminConfig::default() };
    ConnectionSettings::from_config(&config, &admin)
}

fn visitor() -> IpAddr {
    parse_ip("192.0.2.1").unwrap()
}

#[test]
fn settings_are_those_of_the_configuration() {
    let s = settings("hi\r\n", 1500, 20, true);
    assert_eq!(s.banner, b"hi\r\n");
    assert_eq!(s.read_after_banner_timeout, Duration::from_millis(1500));
    assert_eq!(s.close_delay, Duration::from_millis(20));
    assert!(s.inline_admin);
}

#[test]
fn a_visit_is_counted_and_served() {
    let s = settings("banner", 1500, 20, true);
    let allowlist = HoneypotConfig::default().allowlist;
    let (mut c, action) = Connection::open(visitor(), &allowlist, &s);
    assert_eq!(action, ConnectionAction::CheckBan);
    assert_eq!(
        c.step(&s, ConnectionEvent::Banned { banned: false }),
        ConnectionAction::RecordVisit
    );
    let decision = VisitDecision::Allow { count: 1 };
    assert_eq!(
        c.step(&s, ConnectionEvent::Decided { decision }),
        ConnectionAction::WriteBanner
    );
    assert_eq!(
        c.step(&s, ConnectionEvent::Done),
        ConnectionAction::AwaitClient { timeout: Duration::from_millis(1500) }
    );
    assert_eq!(
        c.step(&s, ConnectionEvent::Failed),
        ConnectionAction::Sleep { delay: Duration::from_millis(20) }
    );
    assert_eq!(c.step(&s, ConnectionEvent::Done), ConnectionAction::Shutdown);
    assert_eq!(c.step(&s, ConnectionEvent::Done), ConnectionAction::End);
    assert_eq!(c.step(&s, ConnectionEvent::Failed), ConnectionAction::End);
}

#[test]
fn one_visit_too_many_queues_a_ban() {
    let s = settings("", 0, 0, false);
    let (mut c, _) = Connection::open(visitor(), &Vec::new(), &s);
    c.step(&s, ConnectionEvent::Banned { banned: false });
    let decision = VisitDecision::Ban { count: 5 };
    assert_eq!(
        c.step(&s, ConnectionEvent::Decided { decision }),
        ConnectionAction::Enqueue { request: request(1) }
    );
    assert_eq!(c.step(&s, ConnectionEvent::Failed), ConnectionAction::Shutdown);
    assert_eq!(c.step(&s, ConnectionEvent::Failed), ConnectionAction::Fail);
}

#[test]
fn banned_and_allowlisted_sources_are_not_counted() {
    let s = settings("banner", 0, 0, true);
    let (mut c, _) = Connection::open(visitor(), &Vec::new(), &s);
    assert_eq!(
        c.step(&s, ConnectionEvent::Banned { banned: true }),
        ConnectionAction::WriteBanner
    );
    assert_eq!(c.step(&s, ConnectionEvent::Failed), ConnectionAction::Fail);

    let allowlist = vec!["192.0.2.0/24".parse().unwrap()];
    let (mut c, action) = Connection::open(visitor(), &allowlist, &s);
    assert_eq!(action, ConnectionAction::TryInlineAdmin);
    assert_eq!(
        c.step(&s, ConnectionEvent::Inline { handled: false }),
        ConnectionAction::WriteBanner
    );
    let (mut c, _) = Connection::open(visitor(), &allowlist, &s);
    assert_eq!(
        c.step(&s, ConnectionEvent::Inline { handled: true }),
        ConnectionAction::End
    );
    let (mut c, _) = Connection::open(visitor(), &allowlist, &s);
    assert_eq!(c.step(&s, ConnectionEvent::Failed), ConnectionAction::Fail);
    let s = settings("", 0, 0, false);
    let (_, action) = Connection::open(visitor(), &allowlist, &s);
    assert_eq!(action, ConnectionAction::Shutdown);
}

#[test]
fn the_listener_keeps_to_its_limit() {
    let limit = 3;
    let mut serving = 0;
    let mut most = 0;
    let (mut l, _) = Listener::start();
    let mut action = l.step(ListenerEvent::Bound);
    for round in 0..40 {
        if round % 9 == 8 && serving > 0 {
            serving -= 1;
        }
        action = match action {
            ListenerAction::AwaitPermit
            | ListenerAction::ReportReadyThenAwaitPermit
            | ListenerAction::ServeThenAwaitPermit => {
                if serving < limit {
                    l.step(ListenerEvent::PermitGranted)
                } else {
                    l.step(ListenerEvent::ConnectionEnded)
                }
            }
            ListenerAction::Accept if round % 5 == 4 => l.step(ListenerEvent::AcceptFailed),
            ListenerAction::Accept => l.step(ListenerEvent::Accepted),
            _ => l.step(ListenerEvent::Slept),
        };
        if action == ListenerAction::ServeThenAwaitPermit {
            serving += 1;
        }
        most = most.max(serving);
    }
    assert_eq!(most, limit);
    assert_eq!(l.step(ListenerEvent::ShutdownRequested), ListenerAction::Drain);
    while serving > 0 {
        assert_eq!(l.step(ListenerEvent::ConnectionEnded), ListenerAction::Drain);
        assert_eq!(l.step(ListenerEvent::PermitGranted), ListenerAction::Drain);
        assert_eq!(l.step(ListenerEvent::Accepted), ListenerAction::Drain);
        serving -= 1;
    }
    assert_eq!(l.step(ListenerEvent::Drained), ListenerAction::AwaitWorker);
    assert_eq!(l.step(ListenerEvent::Accepted), ListenerAction::AwaitWorker);
    assert_eq!(l.step(ListenerEvent::WorkerEnded), ListenerAction::End);
}

#[test]
fn the_listener_accepts_backs_off_and_drains() {
    let (mut l, action) = Listener::start();
    assert_eq!(action, ListenerAction::Bind);
    assert_eq!(l.step(ListenerEvent::ShutdownRequested), ListenerAction::Bind);
    assert_eq!(
        l.step(ListenerEvent::Bound),
        ListenerAction::ReportReadyThenAwaitPermit
    );
    assert_eq!(l.step(ListenerEvent::ConnectionEnded), ListenerAction::AwaitPermit);
    assert_eq!(l.step(ListenerEvent::PermitGranted), ListenerAction::Accept);
    for millis in [50, 100, 200, 400, 800, 1000, 1000] {
        assert_eq!(
            l.step(ListenerEvent::AcceptFailed),
            ListenerAction::Sleep { delay: Duration::from_millis(millis) }
        );
        assert_eq!(l.step(ListenerEvent::Slept), ListenerAction::AwaitPermit);
        assert_eq!(l.step(ListenerEvent::PermitGranted), ListenerAction::Accept);
    }
    assert_eq!(l.step(ListenerEvent::Accepted), ListenerAction::ServeThenAwaitPermit);
    l.step(ListenerEvent::PermitGranted);
    assert_eq!(
        l.step(ListenerEvent::AcceptFailed),
        ListenerAction::Sleep { delay: Duration::from_millis(50) }
    );
    assert_eq!(l.step(ListenerEvent::ShutdownRequested), ListenerAction::Drain);
    assert_eq!(l.step(ListenerEvent::ConnectionEnded), ListenerAction::Drain);
    assert_eq!(l.step(ListenerEvent::Drained), ListenerAction::AwaitWorker);
    assert_eq!(l.step(ListenerEvent::WorkerEnded), ListenerAction::End);

    let (mut l, _) = Listener::start();
    l.step(ListenerEvent::Bound);
    assert_eq!(l.step(ListenerEvent::PermitsClosed), ListenerAction::Fail);
    let (mut l, _) = Listener::start();
    l.step(ListenerEvent::Bound);
    l.step(ListenerEvent::ShutdownRequested);
    l.step(ListenerEvent::Drained);
    assert_eq!(l.step(ListenerEvent::WorkerFailed), ListenerAction::Fail);
}

#[test]
fn a_listener_without_its_address_is_never_ready() {
    let (mut l, action) = Listener::start();
    assert_eq!(action, ListenerAction::Bind);
    assert_eq!(l.step(ListenerEvent::BindFailed), ListenerAction::Fail);
    for event in [
        ListenerEvent::Bound,
        ListenerEvent::PermitGranted,
        ListenerEvent::Accepted,
        ListenerEvent::ShutdownRequested,
    ] {
        assert_eq!(l.step(event), ListenerAction::End);
    }
}
