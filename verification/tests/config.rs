use honeypot::addr::parse_ip;
use honeypot::config::{
    contains_crlf, is_placeholder_password, AppConfig, ConfigError, FirewallBackend,
    FirewallConfig,
};

fn valid_config() -> AppConfig {
    let mut config = AppConfig::default();
    config.admin.password = "correct horse battery staple".to_string();
    config
}

#[test]
fn config_accepts_ip_and_cidr_allowlist_entries() {
    let table: toml::Table = toml::from_str(
        r#"
            [honeypot]
            allowlist = ["127.0.0.1", "172.23.16.0/24"]

            [admin]
            password = "secret"
            "#,
    )
    .unwrap();
    let mut config = AppConfig::default();
    config.admin.password = table["admin"]["password"].as_str().unwrap().to_string();
    config.honeypot.allowlist = table["honeypot"]["allowlist"]
        .as_array()
        .unwrap()
        .iter()
        .map(|entry| entry.as_str().unwrap().parse().unwrap())
        .collect();

    assert_eq!(config.honeypot.allowlist.len(), 2);
    assert!(config.honeypot.allowlist[1].contains(parse_ip("172.23.16.9").unwrap()));
}

#[test]
fn rejects_missing_short_and_placeholder_admin_passwords() {
    let mut config = AppConfig::default();
    assert!(config
        .validate()
        .unwrap_err()
        .to_string()
        .contains("explicitly"));

    config.admin.password = "too-short".to_string();
    assert!(config.validate().unwrap_err().to_string().contains("16"));

    config.admin.password = "replace-with-a-long-random-password".to_string();
    assert!(config
        .validate()
        .unwrap_err()
        .to_string()
        .contains("placeholder"));
}

#[test]
fn remote_plaintext_admin_requires_explicit_opt_in() {
    let mut config = valid_config();
    config.admin.listen_addr = "0.0.0.0:8080".to_string();
    assert!(config
        .validate()
        .unwrap_err()
        .to_string()
        .contains("plaintext"));

    config.admin.allow_insecure_http = true;
    config.validate().unwrap();
}

#[test]
fn validates_connection_and_inline_resource_limits() {
    let mut config = valid_config();
    config.honeypot.max_concurrent_connections = 0;
    assert!(config.validate().is_err());

    config.honeypot.max_concurrent_connections = 10;
    config.admin.inline_on_honeypot_port = true;
    config.admin.allow_insecure_http = true;
    config.admin.inline_probe_timeout_ms = 500;
    config.admin.inline_request_timeout_ms = 100;
    assert!(config.validate().is_err());

    config.admin.inline_request_timeout_ms = 500;
    config.admin.inline_path_prefix = "/".to_string();
    assert!(config.validate().is_err());
}

#[test]
fn webdav_requires_bounded_secure_configuration() {
    let mut config = valid_config();
    config.webdav.enabled = true;
    config.webdav.url = "http://example.com/banned.json".to_string();
    config.webdav.timeout_seconds = 0;
    assert!(config.validate().is_err());

    config.webdav.timeout_seconds = 15;
    assert!(config.validate().is_err());

    config.webdav.allow_insecure_http = true;
    config.webdav.username = Some("user".to_string());
    assert!(config.validate().is_err());

    config.webdav.password = Some("non-placeholder-secret".to_string());
    config.validate().unwrap();
}

#[test]
fn rejects_invalid_logging_filter() {
    let mut config = valid_config();
    config.logging.level = "[not a filter".to_string();
    assert!(config
        .validate()
        .unwrap_err()
        .to_string()
        .contains("logging.level"));
}

#[test]
fn filters_are_those_of_the_log_library() {
    let mut config = valid_config();
    config.logging.level = "honeypot=debug,info".to_string();
    config.validate().unwrap();
    config.logging.level = "honeypot=nonsense".to_string();
    assert_eq!(config.validate(), Err(ConfigError::LogLevel));
    assert_eq!(config.validate_with(true), Ok(()));
    for unreadable in ["\u{3000}a=info", " \u{e9}=info", "info, \u{e9}=debug"] {
        config.logging.level = unreadable.to_string();
        assert_eq!(config.validate(), Err(ConfigError::LogLevel));
    }
    for readable in [" info", " \u{e9}", "\u{e9}=info", "info,\u{e9}=debug"] {
        config.logging.level = readable.to_string();
        assert_eq!(config.validate(), Ok(()));
    }
    config.logging.level = "info".to_string();
    assert_eq!(config.validate_with(false), Err(ConfigError::LogLevel));
}

#[test]
fn defaults_are_as_documented() {
    let config = AppConfig::default();
    assert_eq!(config.honeypot.listen_addr, "0.0.0.0:2222");
    assert_eq!(config.honeypot.max_visits, 5);
    assert_eq!(config.honeypot.window_seconds, 60);
    assert_eq!(config.honeypot.max_tracked_ips, 100_000);
    assert_eq!(config.honeypot.allowlist.len(), 2);
    assert_eq!(config.honeypot.allowlist[0].to_string(), "127.0.0.1");
    assert_eq!(config.honeypot.allowlist[1].to_string(), "::1");
    assert_eq!(config.honeypot.banner, "SSH-2.0-OpenSSH_8.9p1 Ubuntu-3\r\n");
    assert_eq!(config.admin.listen_addr, "127.0.0.1:8080");
    assert_eq!(config.admin.inline_max_request_bytes, 16 * 1024);
    assert_eq!(config.firewall.backend, FirewallBackend::IptablesIpset);
    assert_eq!(config.state.banned_ips_path, "state/banned_ips.json");
    assert!(!config.webdav.enabled);
    assert_eq!(config.webdav.retry_max_seconds, 300);
    assert_eq!(config.logging.retention_days, 14);
    assert_eq!(FirewallConfig::default().command_timeout_seconds, 15);
}

fn broken(change: fn(&mut AppConfig)) -> ConfigError {
    let mut config = valid_config();
    change(&mut config);
    config.validate().unwrap_err()
}

fn broken_inline(change: fn(&mut AppConfig)) -> ConfigError {
    let mut config = valid_config();
    config.admin.inline_on_honeypot_port = true;
    config.admin.allow_insecure_http = true;
    config.validate().unwrap();
    change(&mut config);
    config.validate().unwrap_err()
}

fn broken_nft(change: fn(&mut AppConfig)) -> ConfigError {
    let mut config = valid_config();
    config.firewall.backend = FirewallBackend::Nftables;
    config.validate().unwrap();
    change(&mut config);
    config.validate().unwrap_err()
}

fn broken_webdav(change: fn(&mut AppConfig)) -> ConfigError {
    let mut config = valid_config();
    config.webdav.enabled = true;
    config.webdav.url = "https://example.com/banned.json".to_string();
    config.webdav.username = Some("user".to_string());
    config.webdav.password = Some("hunter22".to_string());
    config.validate().unwrap();
    change(&mut config);
    config.validate().unwrap_err()
}

#[test]
fn every_listener_rule_is_checked() {
    assert_eq!(
        broken(|c| c.honeypot.listen_addr = "localhost:22".to_string()),
        ConfigError::HoneypotListenAddr
    );
    assert_eq!(
        broken(|c| c.admin.listen_addr = "127.0.0.1".to_string()),
        ConfigError::AdminListenAddr
    );
    assert_eq!(broken(|c| c.honeypot.max_visits = 0), ConfigError::MaxVisits);
    assert_eq!(
        broken(|c| c.honeypot.window_seconds = 0),
        ConfigError::WindowSeconds
    );
    assert_eq!(
        broken(|c| c.honeypot.max_tracked_ips = 0),
        ConfigError::MaxTrackedIps
    );
    assert_eq!(
        broken(|c| c.honeypot.max_concurrent_connections = 0),
        ConfigError::MaxConcurrentConnections
    );
    assert_eq!(
        broken(|c| c.honeypot.ban_queue_capacity = 0),
        ConfigError::BanQueueCapacity
    );
    assert_eq!(
        ConfigError::HoneypotListenAddr.to_string(),
        "honeypot.listen_addr must be a numeric socket address"
    );
}

#[test]
fn every_password_rule_is_checked() {
    assert_eq!(
        broken(|c| c.admin.password = " \t ".to_string()),
        ConfigError::PasswordMissing
    );
    assert_eq!(
        broken(|c| c.admin.password = "  fifteen letters  ".to_string()),
        ConfigError::PasswordShort
    );
    assert_eq!(
        broken(|c| c.admin.password = " Configured-Password ".to_string()),
        ConfigError::PasswordPlaceholder
    );
    let mut config = valid_config();
    config.admin.password = "sechzehn Zeichen".to_string();
    config.validate().unwrap();
    assert!(is_placeholder_password("CHANGE-me"));
    assert!(is_placeholder_password("admin"));
    assert!(!is_placeholder_password("admin1"));
}

#[test]
fn every_inline_rule_is_checked() {
    assert_eq!(
        broken_inline(|c| c.admin.inline_path_prefix = "admin".to_string()),
        ConfigError::PrefixStart
    );
    assert_eq!(
        broken_inline(|c| c.admin.inline_path_prefix = "/a b".to_string()),
        ConfigError::PrefixWhiteSpace
    );
    assert_eq!(
        broken_inline(|c| c.admin.inline_probe_timeout_ms = 0),
        ConfigError::ProbeTimeout
    );
    assert_eq!(
        broken_inline(|c| c.admin.inline_request_timeout_ms = 0),
        ConfigError::RequestTimeout
    );
    assert_eq!(
        broken_inline(|c| c.admin.inline_request_timeout_ms = 249),
        ConfigError::ProbeExceedsRequest
    );
    assert_eq!(
        broken_inline(|c| c.admin.inline_max_request_bytes = 0),
        ConfigError::MaxRequestBytes
    );
    assert_eq!(
        broken_inline(|c| c.admin.inline_path_prefix = "///".to_string()),
        ConfigError::PrefixRoot
    );
    assert_eq!(
        broken_inline(|c| c.admin.inline_path_prefix = "/a?b".to_string()),
        ConfigError::PrefixDelimiter
    );
    assert_eq!(
        broken_inline(|c| c.admin.inline_path_prefix = "/a#b".to_string()),
        ConfigError::PrefixDelimiter
    );
    assert_eq!(
        broken_inline(|c| c.admin.allow_insecure_http = false),
        ConfigError::PlaintextAdmin
    );
    let mut config = valid_config();
    config.admin.inline_path_prefix = "anything goes".to_string();
    config.validate().unwrap();
}

#[test]
fn every_firewall_and_file_rule_is_checked() {
    assert_eq!(
        broken(|c| c.logging.retention_files = 0),
        ConfigError::RetentionFiles
    );
    assert_eq!(
        broken(|c| c.firewall.ipset_hash_size = 0),
        ConfigError::IpsetHashSize
    );
    assert_eq!(
        broken(|c| c.firewall.ipset_max_elements = 0),
        ConfigError::IpsetMaxElements
    );
    assert_eq!(
        broken(|c| c.firewall.command_timeout_seconds = 0),
        ConfigError::CommandTimeout
    );
    assert_eq!(
        broken_nft(|c| c.firewall.nft_table = " ".to_string()),
        ConfigError::NftTable
    );
    assert_eq!(
        broken_nft(|c| c.firewall.nft_chain = "".to_string()),
        ConfigError::NftChain
    );
    assert_eq!(
        broken_nft(|c| c.firewall.nft_hook = "".to_string()),
        ConfigError::NftHook
    );
    assert_eq!(
        broken_nft(|c| c.firewall.nft_set_name_v4 = "".to_string()),
        ConfigError::NftSetV4
    );
    assert_eq!(
        broken_nft(|c| c.firewall.nft_set_name_v6 = "".to_string()),
        ConfigError::NftSetV6
    );
    assert_eq!(
        broken(|c| c.state.banned_ips_path = "".to_string()),
        ConfigError::BannedIpsPath
    );
    assert_eq!(
        broken(|c| c.logging.directory = "".to_string()),
        ConfigError::LogDirectory
    );
    assert_eq!(
        broken(|c| c.logging.file_prefix = "".to_string()),
        ConfigError::LogFilePrefix
    );
    let mut config = valid_config();
    config.firewall.nft_table = "".to_string();
    config.validate().unwrap();
}

#[test]
fn every_webdav_rule_is_checked() {
    assert_eq!(
        broken_webdav(|c| c.webdav.url = " ".to_string()),
        ConfigError::WebdavUrl
    );
    assert_eq!(
        broken_webdav(|c| c.webdav.timeout_seconds = 0),
        ConfigError::WebdavTimeout
    );
    assert_eq!(
        broken_webdav(|c| c.webdav.retry_initial_seconds = 0),
        ConfigError::WebdavRetryInitial
    );
    assert_eq!(
        broken_webdav(|c| c.webdav.retry_max_seconds = 4),
        ConfigError::WebdavRetryMax
    );
    assert_eq!(
        broken_webdav(|c| c.webdav.url = "ftp://example.com".to_string()),
        ConfigError::WebdavScheme
    );
    assert_eq!(
        broken_webdav(|c| c.webdav.username = None),
        ConfigError::WebdavCredentials
    );
    assert_eq!(
        broken_webdav(|c| c.webdav.password = Some("webdav-password".to_string())),
        ConfigError::WebdavPassword
    );
    assert_eq!(
        broken_webdav(|c| c.webdav.password = Some(String::new())),
        ConfigError::WebdavPassword
    );
    assert_eq!(
        broken_webdav(|c| c.webdav.username = Some("a\nb".to_string())),
        ConfigError::WebdavLineBreak
    );
    assert!(contains_crlf("a\rb"));
    assert!(!contains_crlf("a b"));
}

#[test]
fn the_first_broken_rule_is_reported() {
    let mut config = valid_config();
    config.logging.directory = String::new();
    config.honeypot.window_seconds = 0;
    config.honeypot.max_visits = 0;
    assert_eq!(config.validate(), Err(ConfigError::MaxVisits));
    config.honeypot.max_visits = 1;
    assert_eq!(config.validate(), Err(ConfigError::WindowSeconds));
    config.honeypot.window_seconds = 1;
    assert_eq!(config.validate(), Err(ConfigError::LogDirectory));
}
