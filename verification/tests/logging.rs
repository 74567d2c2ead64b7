use honeypot::config::LoggingConfig;
use honeypot::logging::{
    expired_files, is_log_file, log_level, log_level_with, log_name, surplus_files, LogFile,
};

const DAY: i128 = 86_400_000_000_000;

fn file(name: &str, modified_at: i128) -> LogFile {
    LogFile { name: name.to_string(), modified_at }
}

#[test]
fn cleanup_keeps_newest_configured_files() {
    let config = LoggingConfig {
        file_prefix: "honeypot".to_string(),
        retention_files: 2,
        retention_days: 0,
        ..LoggingConfig::default()
    };

    let mut files = Vec::new();
    for day in 1..=3 {
        let name = format!("honeypot.log.2026-07-0{day}");
        assert!(is_log_file(&config, &name));
        files.push(file(&name, day * 5_000_000));
    }

    assert!(expired_files(&files, 1_000 * DAY, config.retention_days).is_empty());
    let surplus = surplus_files(&files, config.retention_files);
    assert_eq!(surplus, vec![0]);
    assert_eq!(files.len() - surplus.len(), 2);
}

#[test]
fn old_files_expire() {
    let files = vec![
        file("a", 0),
        file("b", 10 * DAY),
        file("c", 10 * DAY - 1),
        file("d", 30 * DAY),
    ];
    assert_eq!(expired_files(&files, 24 * DAY, 14), vec![0, 2]);
    assert_eq!(expired_files(&files, 24 * DAY, 0), Vec::<usize>::new());
    assert_eq!(expired_files(&files, i128::MIN, 1), Vec::<usize>::new());
}

#[test]
fn files_of_one_age_are_kept_in_their_order() {
    let files = vec![file("a", 5), file("b", 7), file("c", 5), file("d", 7)];
    assert_eq!(surplus_files(&files, 3), vec![2]);
    assert_eq!(surplus_files(&files, 2), vec![0, 2]);
    assert_eq!(surplus_files(&files, 1), vec![0, 2, 3]);
    assert_eq!(surplus_files(&files, 0), vec![0, 1, 2, 3]);
    assert_eq!(surplus_files(&files, 9), Vec::<usize>::new());
}

#[test]
fn log_files_are_known_by_their_names() {
    let config = LoggingConfig::default();
    assert_eq!(log_name(&config), "honeypot.log");
    assert!(is_log_file(&config, "honeypot.log"));
    assert!(is_log_file(&config, "honeypot.log.2026-07-01"));
    assert!(!is_log_file(&config, "honeypot.txt"));
    assert!(!is_log_file(&config, "other.log"));
}

#[test]
fn a_level_that_is_no_filter_falls_back_to_info() {
    let mut config = LoggingConfig::default();
    config.level = "debug".to_string();
    assert_eq!(log_level(&config), "debug");
    config.level = "[not a filter".to_string();
    assert_eq!(log_level(&config), "info");
    assert_eq!(log_level_with(&config, true), "[not a filter");
    for unreadable in ["\u{3000}a=info", " \u{e9}=info"] {
        config.level = unreadable.to_string();
        assert_eq!(log_level(&config), "info");
    }
}
