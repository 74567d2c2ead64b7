use honeypot::addr::{IpAddr, Ipv4Addr};
use honeypot::config::{ConfigError, WebdavConfig};
use honeypot::store::{BanRecord, Timestamp};
use honeypot::time::Duration;
use honeypot::webdav::{
    curl_command, curl_config, curl_quote, sort_by_ip, CurlEnd, SyncAction, SyncEvent, SyncTiming, SyncWorker,
    WebdavClient, WebdavError, WebdavPayload, WebdavUploadResult,
};

fn record(last_octet: u8) -> BanRecord {
    BanRecord::new(IpAddr::V4(Ipv4Addr::new(192, 0, 2, last_octet)), "test")
}

fn snapshot(last_octet: u8) -> Vec<BanRecord> {
    vec![record(last_octet)]
}

#[test]
fn payload_sorts_ips_and_counts_records() {
    let ip_a = IpAddr::V4(Ipv4Addr::new(192, 0, 2, 1));
    let ip_b = IpAddr::V4(Ipv4Addr::new(192, 0, 2, 2));
    let payload = WebdavPayload::new(vec![
        BanRecord::new(ip_b, "test"),
        BanRecord::new(ip_a, "test"),
    ]);

    assert_eq!(payload.banned_count, 2);
    assert_eq!(payload.ips[0].ip, ip_a);
    assert_eq!(payload.ips[1].ip, ip_b);
}

#[test]
fn curl_config_quotes_url_auth_and_line_breaks() {
    let config = WebdavConfig {
        enabled: true,
        url: "https://example.com/path with space/banned.json".to_string(),
        username: Some("user".to_string()),
        password: Some("pass\nword".to_string()),
        ..WebdavConfig::default()
    };

    let rendered = curl_config(&config, "/tmp/body.json");

    assert!(rendered.contains("request = \"PUT\""));
    assert!(rendered.contains("url = \"https://example.com/path with space/banned.json\""));
    assert!(rendered.contains("user = \"user:pass\\nword\""));
    assert!(rendered.contains("data-binary = \"@/tmp/body.json\""));
    assert!(!rendered.contains("pass\nword"));
}

#[test]
fn the_whole_configuration_is_as_written() {
    let config = WebdavConfig {
        url: "https://example.com".to_string(),
        timeout_seconds: 7,
        ..WebdavConfig::default()
    };
    let expected = "fail\nsilent\nshow-error\nrequest = \"PUT\"\nurl = \"https://example.com\"\nheader = \"content-type: application/json\"\nconnect-timeout = 7\nmax-time = 7\ndata-binary = \"@/b\"";
    assert_eq!(curl_config(&config, "/b"), expected);
    let client = WebdavClient::new(config).unwrap();
    assert_eq!(client.prepare_upload("/b"), expected);
    let config = WebdavConfig {
        username: Some("u".to_string()),
        password: None,
        ..WebdavConfig::default()
    };
    assert!(curl_config(&config, "/b").ends_with("\nuser = \"u:\""));
}

#[test]
fn quoting_escapes_what_would_end_the_text() {
    assert_eq!(curl_quote(""), "\"\"");
    assert_eq!(curl_quote("a\\b\"c\td\re\nf"), "\"a\\\\b\\\"c\\td\\re\\nf\"");
    assert_eq!(curl_quote("\\n"), "\"\\\\n\"");
}

#[test]
fn records_of_one_address_keep_their_order() {
    let at = |secs, last: u8| {
        BanRecord::at(
            IpAddr::V4(Ipv4Addr::new(192, 0, 2, last)),
            Timestamp { secs, nanos: 0 },
            "x",
        )
    };
    let sorted = sort_by_ip(vec![at(1, 5), at(2, 3), at(3, 5), at(4, 3), at(5, 9), at(6, 1)]);
    let order: Vec<i64> = sorted.iter().map(|r| r.banned_at.secs).collect();
    assert_eq!(order, vec![6, 2, 4, 1, 3, 5]);
    let payload = WebdavPayload::at(Timestamp { secs: 8, nanos: 9 }, sorted);
    assert_eq!(payload.updated_at, Timestamp { secs: 8, nanos: 9 });
    assert_eq!(payload.banned_count, 6);
}

#[test]
fn a_client_needs_a_timeout() {
    let config = WebdavConfig { timeout_seconds: 0, ..WebdavConfig::default() };
    assert_eq!(WebdavClient::new(config).err(), Some(ConfigError::WebdavTimeout));
    let client = WebdavClient::new(WebdavConfig::default()).unwrap();
    assert_eq!(client.config().timeout_seconds, 15);
}

#[test]
fn uploads_are_judged_by_how_curl_ended() {
    let config = WebdavConfig { timeout_seconds: 1, ..WebdavConfig::default() };
    let client = WebdavClient::new(config).unwrap();
    let error = client.finish_upload(CurlEnd::TimedOut).unwrap_err();
    assert_eq!(error, WebdavError::HardTimeout { seconds: 1 });
    assert_eq!(
        error.to_string(),
        "curl WebDAV PUT exceeded hard timeout of 1 seconds and was terminated"
    );
    assert_eq!(
        client.finish_upload(CurlEnd::Exited {
            success: true,
            exit_code: Some(0),
            stderr: "noise".to_string()
        }),
        Ok(WebdavUploadResult { exit_code: Some(0) })
    );
    let error = client
        .finish_upload(CurlEnd::Exited {
            success: false,
            exit_code: Some(22),
            stderr: " curl: (22) \n".to_string(),
        })
        .unwrap_err();
    assert_eq!(
        error.to_string(),
        "curl WebDAV PUT failed; exit_code=Some(22); stderr=curl: (22)"
    );
}

fn timing(debounce: u64, initial: u64, max: u64) -> SyncTiming {
    SyncTiming {
        debounce: Duration::from_millis(debounce),
        retry_initial: Duration::from_millis(initial),
        retry_max: Duration::from_millis(max),
    }
}

fn uploaded(action: SyncAction) -> IpAddr {
    match action {
        SyncAction::Upload { records } => records[0].ip,
        _ => panic!("no upload"),
    }
}

fn waits(action: SyncAction, millis: u64) -> bool {
    match action {
        SyncAction::Wait { delay } => delay == Duration::from_millis(millis),
        _ => false,
    }
}

#[test]
fn sync_worker_coalesces_to_latest_snapshot() {
    let (mut worker, action) = SyncWorker::start(timing(30, 10, 20));
    assert!(matches!(action, SyncAction::AwaitChange));
    assert!(waits(worker.step(SyncEvent::Changed { records: snapshot(1) }), 30));
    assert!(matches!(
        worker.step(SyncEvent::Changed { records: snapshot(2) }),
        SyncAction::KeepWaiting
    ));
    assert_eq!(
        uploaded(worker.step(SyncEvent::Elapsed)),
        IpAddr::V4(Ipv4Addr::new(192, 0, 2, 2))
    );
    assert!(matches!(worker.step(SyncEvent::Uploaded), SyncAction::AwaitChange));
    assert!(matches!(worker.step(SyncEvent::Closed), SyncAction::End));
}

#[test]
fn sync_worker_retries_failures_with_latest_snapshot() {
    let (mut worker, _) = SyncWorker::start(timing(0, 30, 60));
    assert_eq!(
        uploaded(worker.step(SyncEvent::Changed { records: snapshot(1) })),
        IpAddr::V4(Ipv4Addr::new(192, 0, 2, 1))
    );
    assert!(waits(worker.step(SyncEvent::UploadFailed), 30));
    assert!(matches!(
        worker.step(SyncEvent::Changed { records: snapshot(2) }),
        SyncAction::KeepWaiting
    ));
    assert_eq!(
        uploaded(worker.step(SyncEvent::Elapsed)),
        IpAddr::V4(Ipv4Addr::new(192, 0, 2, 2))
    );
    assert!(waits(worker.step(SyncEvent::UploadFailed), 60));
    worker.step(SyncEvent::Elapsed);
    assert!(waits(worker.step(SyncEvent::UploadFailed), 60));
    worker.step(SyncEvent::Elapsed);
    assert!(matches!(worker.step(SyncEvent::Uploaded), SyncAction::AwaitChange));
    uploaded(worker.step(SyncEvent::Changed { records: snapshot(3) }));
    assert!(waits(worker.step(SyncEvent::UploadFailed), 30));
}

#[test]
fn optional_shutdown_stops_sync_worker() {
    let (mut worker, _) = SyncWorker::start(timing(0, 10, 20));
    assert!(matches!(worker.step(SyncEvent::ShutdownRequested), SyncAction::End));
    assert!(matches!(
        worker.step(SyncEvent::Changed { records: snapshot(1) }),
        SyncAction::End
    ));
    assert!(matches!(worker.step(SyncEvent::Elapsed), SyncAction::End));
}

#[test]
fn a_change_during_an_upload_starts_over() {
    let (mut worker, _) = SyncWorker::start(timing(30, 10, 20));
    worker.step(SyncEvent::Changed { records: snapshot(1) });
    worker.step(SyncEvent::Elapsed);
    assert!(waits(worker.step(SyncEvent::Changed { records: snapshot(2) }), 30));
    assert_eq!(
        uploaded(worker.step(SyncEvent::Elapsed)),
        IpAddr::V4(Ipv4Addr::new(192, 0, 2, 2))
    );
}

#[test]
fn timing_is_that_of_the_configuration() {
    let timing = SyncTiming::from_config(&WebdavConfig::default());
    assert_eq!(timing.debounce, Duration::from_secs(5));
    assert_eq!(timing.retry_initial, Duration::from_secs(5));
    assert_eq!(timing.retry_max, Duration::from_secs(300));
}

#[test]
fn credentials_are_not_among_the_arguments() {
    let config = WebdavConfig {
        curl_binary: "/usr/bin/curl".to_string(),
        username: Some("operator".to_string()),
        password: Some("hunter2".to_string()),
        ..WebdavConfig::default()
    };
    let command = curl_command(&config, "/tmp/upload.conf");
    assert_eq!(command.program, "/usr/bin/curl");
    assert_eq!(command.args, vec!["--config", "/tmp/upload.conf"]);
}
