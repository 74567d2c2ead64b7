//! The configuration and its rules.

use vstd::prelude::*;

use crate::addr;
use crate::addr::{IpAddr, Ipv4Addr, Ipv6Addr};
use crate::allowlist;
use crate::allowlist::AllowlistEntry;
use crate::filter;
use crate::text;

verus! {

// ---------------------------------------------------------------------------
// The configuration

#[derive(Clone, Debug)]
pub struct AppConfig {
    pub honeypot: HoneypotConfig,
    pub admin: AdminConfig,
    pub firewall: FirewallConfig,
    pub state: StateConfig,
    pub webdav: WebdavConfig,
    pub logging: LoggingConfig,
}

#[derive(Clone, Debug)]
pub struct HoneypotConfig {
    pub listen_addr: String,
    pub max_visits: usize,
    pub window_seconds: u64,
    pub max_tracked_ips: usize,
    pub max_concurrent_connections: usize,
    pub ban_queue_capacity: usize,
    pub allowlist: Vec<AllowlistEntry>,
    pub banner: String,
    pub read_after_banner_timeout_ms: u64,
    pub close_delay_ms: u64,
}

#[derive(Clone, Debug)]
pub struct AdminConfig {
    pub listen_addr: String,
    pub password: String,
    pub inline_on_honeypot_port: bool,
    pub inline_path_prefix: String,
    pub inline_probe_timeout_ms: u64,
    pub inline_request_timeout_ms: u64,
    pub inline_max_request_bytes: usize,
    pub allow_insecure_http: bool,
    pub allow_legacy_get_password: bool,
}

#[derive(Clone, Copy, Debug, PartialEq, Eq, Structural)]
pub enum FirewallBackend {
    Nftables,
    Ufw,
    Iptables,
    IptablesIpset,
    DryRun,
}

#[derive(Clone, Debug)]
pub struct FirewallConfig {
    pub backend: FirewallBackend,
    pub nft_binary: String,
    pub nft_table: String,
    pub nft_chain: String,
    pub nft_hook: String,
    pub nft_priority: String,
    pub nft_set_name_v4: String,
    pub nft_set_name_v6: String,
    pub ufw_binary: String,
    pub iptables_binary: String,
    pub ip6tables_binary: String,
    pub ipset_binary: String,
    pub chain: String,
    pub rule_position: u16,
    pub ipset_name_v4: String,
    pub ipset_name_v6: String,
    pub ipset_hash_size: u32,
    pub ipset_max_elements: u32,
    pub command_timeout_seconds: u64,
}

#[derive(Clone, Debug)]
pub struct StateConfig {
    pub banned_ips_path: String,
}

#[derive(Clone, Debug)]
pub struct WebdavConfig {
    pub enabled: bool,
    pub url: String,
    pub username: Option<String>,
    pub password: Option<String>,
    pub curl_binary: String,
    pub timeout_seconds: u64,
    pub debounce_seconds: u64,
    pub retry_initial_seconds: u64,
    pub retry_max_seconds: u64,
    pub allow_insecure_http: bool,
}

#[derive(Clone, Debug)]
pub struct LoggingConfig {
    pub directory: String,
    pub file_prefix: String,
    pub level: String,
    pub retention_files: usize,
    pub retention_days: u64,
    pub stdout: bool,
}

// ---------------------------------------------------------------------------
// The values where none are given

impl HoneypotConfig {
    pub open spec fn is_default(self) -> bool {
        &&& self.listen_addr@ == "0.0.0.0:2222"@
        &&& self.max_visits == 5
        &&& self.window_seconds == 60
        &&& self.max_tracked_ips == 100_000
        &&& self.max_concurrent_connections == 1024
        &&& self.ban_queue_capacity == 4096
        &&& self.allowlist@ == seq![
            AllowlistEntry::Ip(IpAddr::V4(Ipv4Addr { bits: 0x7f00_0001 })),
            AllowlistEntry::Ip(IpAddr::V6(Ipv6Addr { bits: 1 })),
        ]
        &&& self.banner@ == "SSH-2.0-OpenSSH_8.9p1 Ubuntu-3\r\n"@
        &&& self.read_after_banner_timeout_ms == 1500
        &&& self.close_delay_ms == 0
    }
}

impl Default for HoneypotConfig {
    fn default() -> (r: HoneypotConfig)
        ensures
            r.is_default(),
    {
        let mut allowlist: Vec<AllowlistEntry> = Vec::new();
        allowlist.push(AllowlistEntry::Ip(IpAddr::V4(Ipv4Addr { bits: 0x7f00_0001 })));
        allowlist.push(AllowlistEntry::Ip(IpAddr::V6(Ipv6Addr { bits: 1 })));
        assert(allowlist@ =~= seq![
            AllowlistEntry::Ip(IpAddr::V4(Ipv4Addr { bits: 0x7f00_0001 })),
            AllowlistEntry::Ip(IpAddr::V6(Ipv6Addr { bits: 1 })),
        ]);
        HoneypotConfig {
            listen_addr: "0.0.0.0:2222".to_string(),
            max_visits: 5,
            window_seconds: 60,
            max_tracked_ips: 100_000,
            max_concurrent_connections: 1024,
            ban_queue_capacity: 4096,
            allowlist,
            banner: "SSH-2.0-OpenSSH_8.9p1 Ubuntu-3\r\n".to_string(),
            read_after_banner_timeout_ms: 1500,
            close_delay_ms: 0,
        }
    }
}

impl AdminConfig {
    pub open spec fn is_default(self) -> bool {
        &&& self.listen_addr@ == "127.0.0.1:8080"@
        &&& self.password@ == ""@
        &&& self.inline_on_honeypot_port == false
        &&& self.inline_path_prefix@ == "/_honeypot_admin"@
        &&& self.inline_probe_timeout_ms == 250
        &&& self.inline_request_timeout_ms == 3_000
        &&& self.inline_max_request_bytes == 16_384
        &&& self.allow_insecure_http == false
        &&& self.allow_legacy_get_password == false
    }
}

impl Default for AdminConfig {
    fn default() -> (r: AdminConfig)
        ensures
            r.is_default(),
    {
        AdminConfig {
            listen_addr: "127.0.0.1:8080".to_string(),
            password: "".to_string(),
            inline_on_honeypot_port: false,
            inline_path_prefix: "/_honeypot_admin".to_string(),
            inline_probe_timeout_ms: 250,
            inline_request_timeout_ms: 3_000,
            inline_max_request_bytes: 16_384,
            allow_insecure_http: false,
            allow_legacy_get_password: false,
        }
    }
}

impl Default for FirewallBackend {
    fn default() -> (r: FirewallBackend)
        ensures
            r == FirewallBackend::IptablesIpset,
    {
        FirewallBackend::IptablesIpset
    }
}

impl FirewallConfig {
    pub open spec fn is_default(self) -> bool {
        &&& self.backend == FirewallBackend::IptablesIpset
        &&& self.nft_binary@ == "nft"@
        &&& self.nft_table@ == "honeypot"@
        &&& self.nft_chain@ == "input"@
        &&& self.nft_hook@ == "input"@
        &&& self.nft_priority@ == "filter"@
        &&& self.nft_set_name_v4@ == "banned_v4"@
        &&& self.nft_set_name_v6@ == "banned_v6"@
        &&& self.ufw_binary@ == "ufw"@
        &&& self.iptables_binary@ == "iptables"@
        &&& self.ip6tables_binary@ == "ip6tables"@
        &&& self.ipset_binary@ == "ipset"@
        &&& self.chain@ == "INPUT"@
        &&& self.rule_position == 1
        &&& self.ipset_name_v4@ == "honeypot_banned_v4"@
        &&& self.ipset_name_v6@ == "honeypot_banned_v6"@
        &&& self.ipset_hash_size == 4096
        &&& self.ipset_max_elements == 1_000_000
        &&& self.command_timeout_seconds == 15
    }
}

impl Default for FirewallConfig {
    fn default() -> (r: FirewallConfig)
        ensures
            r.is_default(),
    {
        FirewallConfig {
            backend: FirewallBackend::default(),
            nft_binary: "nft".to_string(),
            nft_table: "honeypot".to_string(),
            nft_chain: "input".to_string(),
            nft_hook: "input".to_string(),
            nft_priority: "filter".to_string(),
            nft_set_name_v4: "banned_v4".to_string(),
            nft_set_name_v6: "banned_v6".to_string(),
            ufw_binary: "ufw".to_string(),
            iptables_binary: "iptables".to_string(),
            ip6tables_binary: "ip6tables".to_string(),
            ipset_binary: "ipset".to_string(),
            chain: "INPUT".to_string(),
            rule_position: 1,
            ipset_name_v4: "honeypot_banned_v4".to_string(),
            ipset_name_v6: "honeypot_banned_v6".to_string(),
            ipset_hash_size: 4096,
            ipset_max_elements: 1_000_000,
            command_timeout_seconds: 15,
        }
    }
}

impl StateConfig {
    pub open spec fn is_default(self) -> bool {
        &&& self.banned_ips_path@ == "state/banned_ips.json"@
    }
}

impl Default for StateConfig {
    fn default() -> (r: StateConfig)
        ensures
            r.is_default(),
    {
        StateConfig {
            banned_ips_path: "state/banned_ips.json".to_string(),
        }
    }
}

impl WebdavConfig {
    pub open spec fn is_default(self) -> bool {
        &&& self.enabled == false
        &&& self.url@ == ""@
        &&& self.username is None
        &&& self.password is None
        &&& self.curl_binary@ == "curl"@
        &&& self.timeout_seconds == 15
        &&& self.debounce_seconds == 5
        &&& self.retry_initial_seconds == 5
        &&& self.retry_max_seconds == 300
        &&& self.allow_insecure_http == false
    }
}

impl Default for WebdavConfig {
    fn default() -> (r: WebdavConfig)
        ensures
            r.is_default(),
    {
        WebdavConfig {
            enabled: false,
            url: "".to_string(),
            username: None,
            password: None,
            curl_binary: "curl".to_string(),
            timeout_seconds: 15,
            debounce_seconds: 5,
            retry_initial_seconds: 5,
            retry_max_seconds: 300,
            allow_insecure_http: false,
        }
    }
}

impl LoggingConfig {
    pub open spec fn is_default(self) -> bool {
        &&& self.directory@ == "logs"@
        &&& self.file_prefix@ == "honeypot"@
        &&& self.level@ == "info"@
        &&& self.retention_files == 7
        &&& self.retention_days == 14
        &&& self.stdout == true
    }
}

impl Default for LoggingConfig {
    fn default() -> (r: LoggingConfig)
        ensures
            r.is_default(),
    {
        LoggingConfig {
            directory: "logs".to_string(),
            file_prefix: "honeypot".to_string(),
            level: "info".to_string(),
            retention_files: 7,
            retention_days: 14,
            stdout: true,
        }
    }
}

impl Default for AppConfig {
    fn default() -> (r: AppConfig)
        ensures
            r.honeypot.is_default(),
            r.admin.is_default(),
            r.firewall.is_default(),
            r.state.is_default(),
            r.webdav.is_default(),
            r.logging.is_default(),
    {
        AppConfig {
            honeypot: HoneypotConfig::default(),
            admin: AdminConfig::default(),
            firewall: FirewallConfig::default(),
            state: StateConfig::default(),
            webdav: WebdavConfig::default(),
            logging: LoggingConfig::default(),
        }
    }
}

// ---------------------------------------------------------------------------
// The rules

/// A rule of the configuration that does not hold. The rules stand in the
/// order in which they are looked at.
#[derive(Clone, Copy, Debug, PartialEq, Eq, Structural)]
pub enum ConfigError {
    HoneypotListenAddr,
    AdminListenAddr,
    MaxVisits,
    WindowSeconds,
    MaxTrackedIps,
    MaxConcurrentConnections,
    BanQueueCapacity,
    PasswordMissing,
    PasswordShort,
    PasswordPlaceholder,
    PrefixStart,
    PrefixWhiteSpace,
    ProbeTimeout,
    RequestTimeout,
    ProbeExceedsRequest,
    MaxRequestBytes,
    PrefixRoot,
    PrefixDelimiter,
    PlaintextAdmin,
    RetentionFiles,
    IpsetHashSize,
    IpsetMaxElements,
    CommandTimeout,
    NftTable,
    NftChain,
    NftHook,
    NftSetV4,
    NftSetV6,
    WebdavUrl,
    WebdavTimeout,
    WebdavRetryInitial,
    WebdavRetryMax,
    WebdavScheme,
    WebdavCredentials,
    WebdavPassword,
    WebdavLineBreak,
    BannedIpsPath,
    LogDirectory,
    LogFilePrefix,
    LogLevel,
}

/// Nothing but white space.
pub open spec fn blank(s: Seq<char>) -> bool {
    text::trimmed(s).len() == 0
}

pub open spec fn has_white_space(s: Seq<char>) -> bool {
    exists|i: int| 0 <= i < s.len() && text::white_space(#[trigger] s[i])
}

pub open spec fn starts_with_slash(s: Seq<char>) -> bool {
    s.len() > 0 && s[0] == '/'
}

pub open spec fn line_break(s: Seq<char>) -> bool {
    s.contains('\r') || s.contains('\n')
}

pub open spec fn option_line_break(s: Option<String>) -> bool {
    s matches Some(t) && line_break(t@)
}

/// A password that documents and templates show, in whatever case.
pub open spec fn placeholder(password: Seq<char>) -> bool {
    let p = text::lower(text::trimmed(password));
    ||| p == "change-me"@
    ||| p == "replace-with-a-long-random-password"@
    ||| p == "configured-password"@
    ||| p == "your-password"@
    ||| p == "password"@
    ||| p == "admin"@
}

pub open spec fn inline(c: AppConfig) -> bool {
    c.admin.inline_on_honeypot_port
}

pub open spec fn nft(c: AppConfig) -> bool {
    c.firewall.backend == FirewallBackend::Nftables
}

/// The address at which the administration listens.
pub open spec fn admin_ip(c: AppConfig) -> IpAddr {
    if inline(c) {
        addr::socket_of(c.honeypot.listen_addr@)->0.ip
    } else {
        addr::socket_of(c.admin.listen_addr@)->0.ip
    }
}

/// Whether a configuration breaks a rule. `filter_ok` tells whether the level
/// of the log is a filter.
pub open spec fn breaks(c: AppConfig, rule: ConfigError, filter_ok: bool) -> bool {
    match rule {
        ConfigError::HoneypotListenAddr => addr::socket_of(c.honeypot.listen_addr@) is None,
        ConfigError::AdminListenAddr => addr::socket_of(c.admin.listen_addr@) is None,
        ConfigError::MaxVisits => c.honeypot.max_visits == 0,
        ConfigError::WindowSeconds => c.honeypot.window_seconds == 0,
        ConfigError::MaxTrackedIps => c.honeypot.max_tracked_ips == 0,
        ConfigError::MaxConcurrentConnections => c.honeypot.max_concurrent_connections == 0,
        ConfigError::BanQueueCapacity => c.honeypot.ban_queue_capacity == 0,
        ConfigError::PasswordMissing => blank(c.admin.password@),
        ConfigError::PasswordShort => text::trimmed(c.admin.password@).len() < 16,
        ConfigError::PasswordPlaceholder => placeholder(c.admin.password@),
        ConfigError::PrefixStart => inline(c) && !starts_with_slash(c.admin.inline_path_prefix@),
        ConfigError::PrefixWhiteSpace => inline(c) && has_white_space(c.admin.inline_path_prefix@),
        ConfigError::ProbeTimeout => inline(c) && c.admin.inline_probe_timeout_ms == 0,
        ConfigError::RequestTimeout => inline(c) && c.admin.inline_request_timeout_ms == 0,
        ConfigError::ProbeExceedsRequest => inline(c) && c.admin.inline_probe_timeout_ms > c.admin.inline_request_timeout_ms,
        ConfigError::MaxRequestBytes => inline(c) && c.admin.inline_max_request_bytes == 0,
        ConfigError::PrefixRoot => inline(c) && text::without_trailing(c.admin.inline_path_prefix@, '/').len() == 0,
        ConfigError::PrefixDelimiter => inline(c) && (c.admin.inline_path_prefix@.contains('?') || c.admin.inline_path_prefix@.contains('#')),
        ConfigError::PlaintextAdmin => !c.admin.allow_insecure_http && !admin_ip(c).loopback(),
        ConfigError::RetentionFiles => c.logging.retention_files == 0,
        ConfigError::IpsetHashSize => c.firewall.ipset_hash_size == 0,
        ConfigError::IpsetMaxElements => c.firewall.ipset_max_elements == 0,
        ConfigError::CommandTimeout => c.firewall.command_timeout_seconds == 0,
        ConfigError::NftTable => nft(c) && blank(c.firewall.nft_table@),
        ConfigError::NftChain => nft(c) && blank(c.firewall.nft_chain@),
        ConfigError::NftHook => nft(c) && blank(c.firewall.nft_hook@),
        ConfigError::NftSetV4 => nft(c) && blank(c.firewall.nft_set_name_v4@),
        ConfigError::NftSetV6 => nft(c) && blank(c.firewall.nft_set_name_v6@),
        ConfigError::WebdavUrl => c.webdav.enabled && blank(c.webdav.url@),
        ConfigError::WebdavTimeout => c.webdav.enabled && c.webdav.timeout_seconds == 0,
        ConfigError::WebdavRetryInitial => c.webdav.enabled && c.webdav.retry_initial_seconds == 0,
        ConfigError::WebdavRetryMax => c.webdav.enabled && c.webdav.retry_max_seconds < c.webdav.retry_initial_seconds,
        ConfigError::WebdavScheme => c.webdav.enabled && !("https://"@.is_prefix_of(c.webdav.url@) || (c.webdav.allow_insecure_http && "http://"@.is_prefix_of(c.webdav.url@))),
        ConfigError::WebdavCredentials => c.webdav.enabled && (c.webdav.username is Some) != (c.webdav.password is Some),
        ConfigError::WebdavPassword => c.webdav.enabled && (c.webdav.password matches Some(p) && (p@.len() == 0 || p@ == "webdav-password"@)),
        ConfigError::WebdavLineBreak => c.webdav.enabled && (line_break(c.webdav.url@) || option_line_break(c.webdav.username) || option_line_break(c.webdav.password)),
        ConfigError::BannedIpsPath => blank(c.state.banned_ips_path@),
        ConfigError::LogDirectory => blank(c.logging.directory@),
        ConfigError::LogFilePrefix => blank(c.logging.file_prefix@),
        ConfigError::LogLevel => !filter_ok,
    }
}

/// The place of a rule in the order.
pub open spec fn place(rule: ConfigError) -> int {
    match rule {
        ConfigError::HoneypotListenAddr => 1,
        ConfigError::AdminListenAddr => 2,
        ConfigError::MaxVisits => 3,
        ConfigError::WindowSeconds => 4,
        ConfigError::MaxTrackedIps => 5,
        ConfigError::MaxConcurrentConnections => 6,
        ConfigError::BanQueueCapacity => 7,
        ConfigError::PasswordMissing => 8,
        ConfigError::PasswordShort => 9,
        ConfigError::PasswordPlaceholder => 10,
        ConfigError::PrefixStart => 11,
        ConfigError::PrefixWhiteSpace => 12,
        ConfigError::ProbeTimeout => 13,
        ConfigError::RequestTimeout => 14,
        ConfigError::ProbeExceedsRequest => 15,
        ConfigError::MaxRequestBytes => 16,
        ConfigError::PrefixRoot => 17,
        ConfigError::PrefixDelimiter => 18,
        ConfigError::PlaintextAdmin => 19,
        ConfigError::RetentionFiles => 20,
        ConfigError::IpsetHashSize => 21,
        ConfigError::IpsetMaxElements => 22,
        ConfigError::CommandTimeout => 23,
        ConfigError::NftTable => 24,
        ConfigError::NftChain => 25,
        ConfigError::NftHook => 26,
        ConfigError::NftSetV4 => 27,
        ConfigError::NftSetV6 => 28,
        ConfigError::WebdavUrl => 29,
        ConfigError::WebdavTimeout => 30,
        ConfigError::WebdavRetryInitial => 31,
        ConfigError::WebdavRetryMax => 32,
        ConfigError::WebdavScheme => 33,
        ConfigError::WebdavCredentials => 34,
        ConfigError::WebdavPassword => 35,
        ConfigError::WebdavLineBreak => 36,
        ConfigError::BannedIpsPath => 37,
        ConfigError::LogDirectory => 38,
        ConfigError::LogFilePrefix => 39,
        ConfigError::LogLevel => 40,
    }
}

/// The first rule that a configuration breaks, if any.
pub open spec fn is_first_broken(c: AppConfig, filter_ok: bool, rule: Option<ConfigError>) -> bool {
    match rule {
        Some(e) => breaks(c, e, filter_ok) && forall|f: ConfigError|
            place(f) < place(e) ==> !#[trigger] breaks(c, f, filter_ok),
        None => forall|f: ConfigError| !#[trigger] breaks(c, f, filter_ok),
    }
}

/// `rule` is the first broken rule among those from `from` on and before `to`.
spec fn first_between(
    c: AppConfig,
    filter_ok: bool,
    from: int,
    to: int,
    rule: Option<ConfigError>,
) -> bool {
    match rule {
        Some(e) => from <= place(e) < to && breaks(c, e, filter_ok) && forall|f: ConfigError|
            from <= place(f) < place(e) ==> !#[trigger] breaks(c, f, filter_ok),
        None => forall|f: ConfigError|
            from <= place(f) < to ==> !#[trigger] breaks(c, f, filter_ok),
    }
}

impl ConfigError {
    pub open spec fn message(self) -> Seq<char> {
        match self {
            ConfigError::HoneypotListenAddr => "honeypot.listen_addr must be a numeric socket address"@,
            ConfigError::AdminListenAddr => "admin.listen_addr must be a numeric socket address"@,
            ConfigError::MaxVisits => "honeypot.max_visits must be greater than 0"@,
            ConfigError::WindowSeconds => "honeypot.window_seconds must be greater than 0"@,
            ConfigError::MaxTrackedIps => "honeypot.max_tracked_ips must be greater than 0"@,
            ConfigError::MaxConcurrentConnections => "honeypot.max_concurrent_connections must be greater than 0"@,
            ConfigError::BanQueueCapacity => "honeypot.ban_queue_capacity must be greater than 0"@,
            ConfigError::PasswordMissing => "admin.password must be explicitly configured"@,
            ConfigError::PasswordShort => "admin.password must contain at least 16 characters"@,
            ConfigError::PasswordPlaceholder => "admin.password must not use a documented placeholder value"@,
            ConfigError::PrefixStart => "admin.inline_path_prefix must start with /"@,
            ConfigError::PrefixWhiteSpace => "admin.inline_path_prefix must not contain whitespace"@,
            ConfigError::ProbeTimeout => "admin.inline_probe_timeout_ms must be greater than 0"@,
            ConfigError::RequestTimeout => "admin.inline_request_timeout_ms must be greater than 0"@,
            ConfigError::ProbeExceedsRequest => "admin.inline_probe_timeout_ms must not exceed admin.inline_request_timeout_ms"@,
            ConfigError::MaxRequestBytes => "admin.inline_max_request_bytes must be greater than 0"@,
            ConfigError::PrefixRoot => "admin.inline_path_prefix must not be the root path"@,
            ConfigError::PrefixDelimiter => "admin.inline_path_prefix must not contain a query or fragment delimiter"@,
            ConfigError::PlaintextAdmin => "remote plaintext admin access requires admin.allow_insecure_http = true"@,
            ConfigError::RetentionFiles => "logging.retention_files must be greater than 0"@,
            ConfigError::IpsetHashSize => "firewall.ipset_hash_size must be greater than 0"@,
            ConfigError::IpsetMaxElements => "firewall.ipset_max_elements must be greater than 0"@,
            ConfigError::CommandTimeout => "firewall.command_timeout_seconds must be greater than 0"@,
            ConfigError::NftTable => "firewall.nft_table must not be empty"@,
            ConfigError::NftChain => "firewall.nft_chain must not be empty"@,
            ConfigError::NftHook => "firewall.nft_hook must not be empty"@,
            ConfigError::NftSetV4 => "firewall.nft_set_name_v4 must not be empty"@,
            ConfigError::NftSetV6 => "firewall.nft_set_name_v6 must not be empty"@,
            ConfigError::WebdavUrl => "webdav.url must be set"@,
            ConfigError::WebdavTimeout => "webdav.timeout_seconds must be greater than 0"@,
            ConfigError::WebdavRetryInitial => "webdav.retry_initial_seconds must be greater than 0"@,
            ConfigError::WebdavRetryMax => "webdav.retry_max_seconds must be at least webdav.retry_initial_seconds"@,
            ConfigError::WebdavScheme => "webdav.url must use https:// unless webdav.allow_insecure_http = true"@,
            ConfigError::WebdavCredentials => "webdav.username and webdav.password must be configured together"@,
            ConfigError::WebdavPassword => "webdav.password must not be empty or use the example value"@,
            ConfigError::WebdavLineBreak => "WebDAV values must not contain CR or LF characters"@,
            ConfigError::BannedIpsPath => "state.banned_ips_path must not be empty"@,
            ConfigError::LogDirectory => "logging.directory must not be empty"@,
            ConfigError::LogFilePrefix => "logging.file_prefix must not be empty"@,
            ConfigError::LogLevel => "logging.level must be a valid tracing filter"@,
        }
    }

    /// The message of the error.
    pub fn to_string(&self) -> (r: String)
        ensures
            r@ == self.message(),
    {
        let message = match self {
            ConfigError::HoneypotListenAddr => "honeypot.listen_addr must be a numeric socket address",
            ConfigError::AdminListenAddr => "admin.listen_addr must be a numeric socket address",
            ConfigError::MaxVisits => "honeypot.max_visits must be greater than 0",
            ConfigError::WindowSeconds => "honeypot.window_seconds must be greater than 0",
            ConfigError::MaxTrackedIps => "honeypot.max_tracked_ips must be greater than 0",
            ConfigError::MaxConcurrentConnections => "honeypot.max_concurrent_connections must be greater than 0",
            ConfigError::BanQueueCapacity => "honeypot.ban_queue_capacity must be greater than 0",
            ConfigError::PasswordMissing => "admin.password must be explicitly configured",
            ConfigError::PasswordShort => "admin.password must contain at least 16 characters",
            ConfigError::PasswordPlaceholder => "admin.password must not use a documented placeholder value",
            ConfigError::PrefixStart => "admin.inline_path_prefix must start with /",
            ConfigError::PrefixWhiteSpace => "admin.inline_path_prefix must not contain whitespace",
            ConfigError::ProbeTimeout => "admin.inline_probe_timeout_ms must be greater than 0",
            ConfigError::RequestTimeout => "admin.inline_request_timeout_ms must be greater than 0",
            ConfigError::ProbeExceedsRequest => "admin.inline_probe_timeout_ms must not exceed admin.inline_request_timeout_ms",
            ConfigError::MaxRequestBytes => "admin.inline_max_request_bytes must be greater than 0",
            ConfigError::PrefixRoot => "admin.inline_path_prefix must not be the root path",
            ConfigError::PrefixDelimiter => "admin.inline_path_prefix must not contain a query or fragment delimiter",
            ConfigError::PlaintextAdmin => "remote plaintext admin access requires admin.allow_insecure_http = true",
            ConfigError::RetentionFiles => "logging.retention_files must be greater than 0",
            ConfigError::IpsetHashSize => "firewall.ipset_hash_size must be greater than 0",
            ConfigError::IpsetMaxElements => "firewall.ipset_max_elements must be greater than 0",
            ConfigError::CommandTimeout => "firewall.command_timeout_seconds must be greater than 0",
            ConfigError::NftTable => "firewall.nft_table must not be empty",
            ConfigError::NftChain => "firewall.nft_chain must not be empty",
            ConfigError::NftHook => "firewall.nft_hook must not be empty",
            ConfigError::NftSetV4 => "firewall.nft_set_name_v4 must not be empty",
            ConfigError::NftSetV6 => "firewall.nft_set_name_v6 must not be empty",
            ConfigError::WebdavUrl => "webdav.url must be set",
            ConfigError::WebdavTimeout => "webdav.timeout_seconds must be greater than 0",
            ConfigError::WebdavRetryInitial => "webdav.retry_initial_seconds must be greater than 0",
            ConfigError::WebdavRetryMax => "webdav.retry_max_seconds must be at least webdav.retry_initial_seconds",
            ConfigError::WebdavScheme => "webdav.url must use https:// unless webdav.allow_insecure_http = true",
            ConfigError::WebdavCredentials => "webdav.username and webdav.password must be configured together",
            ConfigError::WebdavPassword => "webdav.password must not be empty or use the example value",
            ConfigError::WebdavLineBreak => "WebDAV values must not contain CR or LF characters",
            ConfigError::BannedIpsPath => "state.banned_ips_path must not be empty",
            ConfigError::LogDirectory => "logging.directory must not be empty",
            ConfigError::LogFilePrefix => "logging.file_prefix must not be empty",
            ConfigError::LogLevel => "logging.level must be a valid tracing filter",
        };
        message.to_string()
    }
}

fn is_blank(s: &str) -> (r: bool)
    ensures
        r == blank(s@),
{
    text::to_chars(text::trim(s).as_str()).len() == 0
}

pub fn is_placeholder_password(password: &str) -> (r: bool)
    ensures
        r == placeholder(password@),
{
    let p = text::to_lower(text::trim(password).as_str());
    text::same(p.as_str(), "change-me") || text::same(
        p.as_str(),
        "replace-with-a-long-random-password",
    ) || text::same(p.as_str(), "configured-password") || text::same(p.as_str(), "your-password")
        || text::same(p.as_str(), "password") || text::same(p.as_str(), "admin")
}

pub fn contains_crlf(value: &str) -> (r: bool)
    ensures
        r == line_break(value@),
{
    text::contains_char(value, '\r') || text::contains_char(value, '\n')
}

fn option_contains_crlf(value: &Option<String>) -> (r: bool)
    ensures
        r == option_line_break(*value),
{
    match value {
        Some(s) => contains_crlf(s.as_str()),
        None => false,
    }
}

/// The rules of the listener.
fn check_honeypot(c: &AppConfig) -> (r: Option<ConfigError>)
    ensures
        forall|filter_ok: bool| #[trigger] first_between(*c, filter_ok, 1, 8, r),
{
    if addr::parse_socket_addr(c.honeypot.listen_addr.as_str()).is_none() {
        return Some(ConfigError::HoneypotListenAddr);
    }
    if addr::parse_socket_addr(c.admin.listen_addr.as_str()).is_none() {
        return Some(ConfigError::AdminListenAddr);
    }
    if c.honeypot.max_visits == 0 {
        return Some(ConfigError::MaxVisits);
    }
    if c.honeypot.window_seconds == 0 {
        return Some(ConfigError::WindowSeconds);
    }
    if c.honeypot.max_tracked_ips == 0 {
        return Some(ConfigError::MaxTrackedIps);
    }
    if c.honeypot.max_concurrent_connections == 0 {
        return Some(ConfigError::MaxConcurrentConnections);
    }
    if c.honeypot.ban_queue_capacity == 0 {
        return Some(ConfigError::BanQueueCapacity);
    }
    None
}

/// The rules of the password.
fn check_password(c: &AppConfig) -> (r: Option<ConfigError>)
    ensures
        forall|filter_ok: bool| #[trigger] first_between(*c, filter_ok, 8, 11, r),
{
    let length = text::to_chars(text::trim(c.admin.password.as_str()).as_str()).len();
    if length == 0 {
        return Some(ConfigError::PasswordMissing);
    }
    if length < 16 {
        return Some(ConfigError::PasswordShort);
    }
    if is_placeholder_password(c.admin.password.as_str()) {
        return Some(ConfigError::PasswordPlaceholder);
    }
    None
}

/// The rules of the administration on the port of the honeypot.
fn check_inline(c: &AppConfig) -> (r: Option<ConfigError>)
    ensures
        forall|filter_ok: bool| #[trigger] first_between(*c, filter_ok, 11, 19, r),
{
    if !c.admin.inline_on_honeypot_port {
        return None;
    }
    let prefix = c.admin.inline_path_prefix.as_str();
    proof {
        reveal_strlit("/");
        if starts_with_slash(prefix@) {
            assert("/"@ =~= prefix@.take(1));
        } else if "/"@.is_prefix_of(prefix@) {
            assert("/"@[0] == prefix@[0]);
        }
    }
    if !text::starts_with(prefix, "/") {
        return Some(ConfigError::PrefixStart);
    }
    if text::contains_white_space(prefix) {
        return Some(ConfigError::PrefixWhiteSpace);
    }
    if c.admin.inline_probe_timeout_ms == 0 {
        return Some(ConfigError::ProbeTimeout);
    }
    if c.admin.inline_request_timeout_ms == 0 {
        return Some(ConfigError::RequestTimeout);
    }
    if c.admin.inline_probe_timeout_ms > c.admin.inline_request_timeout_ms {
        return Some(ConfigError::ProbeExceedsRequest);
    }
    if c.admin.inline_max_request_bytes == 0 {
        return Some(ConfigError::MaxRequestBytes);
    }
    if text::to_chars(text::trim_end_char(prefix, '/').as_str()).len() == 0 {
        return Some(ConfigError::PrefixRoot);
    }
    if text::contains_char(prefix, '?') || text::contains_char(prefix, '#') {
        return Some(ConfigError::PrefixDelimiter);
    }
    None
}

/// The rule on access without encryption.
fn check_plaintext(c: &AppConfig) -> (r: Option<ConfigError>)
    requires
        addr::socket_of(c.honeypot.listen_addr@) is Some,
        addr::socket_of(c.admin.listen_addr@) is Some,
    ensures
        forall|filter_ok: bool| #[trigger] first_between(*c, filter_ok, 19, 20, r),
{
    let listen_addr = if c.admin.inline_on_honeypot_port {
        &c.honeypot.listen_addr
    } else {
        &c.admin.listen_addr
    };
    let loopback = match addr::parse_socket_addr(listen_addr.as_str()) {
        Some(socket) => socket.ip.is_loopback(),
        None => false,
    };
    if !loopback && !c.admin.allow_insecure_http {
        return Some(ConfigError::PlaintextAdmin);
    }
    None
}

/// The rules of the firewall.
fn check_firewall(c: &AppConfig) -> (r: Option<ConfigError>)
    ensures
        forall|filter_ok: bool| #[trigger] first_between(*c, filter_ok, 20, 29, r),
{
    let nft = c.firewall.backend == FirewallBackend::Nftables;
    if c.logging.retention_files == 0 {
        return Some(ConfigError::RetentionFiles);
    }
    if c.firewall.ipset_hash_size == 0 {
        return Some(ConfigError::IpsetHashSize);
    }
    if c.firewall.ipset_max_elements == 0 {
        return Some(ConfigError::IpsetMaxElements);
    }
    if c.firewall.command_timeout_seconds == 0 {
        return Some(ConfigError::CommandTimeout);
    }
    if nft && is_blank(c.firewall.nft_table.as_str()) {
        return Some(ConfigError::NftTable);
    }
    if nft && is_blank(c.firewall.nft_chain.as_str()) {
        return Some(ConfigError::NftChain);
    }
    if nft && is_blank(c.firewall.nft_hook.as_str()) {
        return Some(ConfigError::NftHook);
    }
    if nft && is_blank(c.firewall.nft_set_name_v4.as_str()) {
        return Some(ConfigError::NftSetV4);
    }
    if nft && is_blank(c.firewall.nft_set_name_v6.as_str()) {
        return Some(ConfigError::NftSetV6);
    }
    None
}

/// The rules of the upload.
fn check_webdav(c: &AppConfig) -> (r: Option<ConfigError>)
    ensures
        forall|filter_ok: bool| #[trigger] first_between(*c, filter_ok, 29, 37, r),
{
    if !c.webdav.enabled {
        return None;
    }
    let example_password = match &c.webdav.password {
        Some(p) => text::to_chars(p.as_str()).len() == 0 || text::same(
            p.as_str(),
            "webdav-password",
        ),
        None => false,
    };
    if is_blank(c.webdav.url.as_str()) {
        return Some(ConfigError::WebdavUrl);
    }
    if c.webdav.timeout_seconds == 0 {
        return Some(ConfigError::WebdavTimeout);
    }
    if c.webdav.retry_initial_seconds == 0 {
        return Some(ConfigError::WebdavRetryInitial);
    }
    if c.webdav.retry_max_seconds < c.webdav.retry_initial_seconds {
        return Some(ConfigError::WebdavRetryMax);
    }
    if !(text::starts_with(c.webdav.url.as_str(), "https://") || (c.webdav.allow_insecure_http
        && text::starts_with(c.webdav.url.as_str(), "http://"))) {
        return Some(ConfigError::WebdavScheme);
    }
    if c.webdav.username.is_some() != c.webdav.password.is_some() {
        return Some(ConfigError::WebdavCredentials);
    }
    if example_password {
        return Some(ConfigError::WebdavPassword);
    }
    if contains_crlf(c.webdav.url.as_str()) || option_contains_crlf(&c.webdav.username)
        || option_contains_crlf(&c.webdav.password) {
        return Some(ConfigError::WebdavLineBreak);
    }
    None
}

/// The rules of the files.
fn check_files(c: &AppConfig, filter_ok: bool) -> (r: Option<ConfigError>)
    ensures
        first_between(*c, filter_ok, 37, 41, r),
{
    if is_blank(c.state.banned_ips_path.as_str()) {
        return Some(ConfigError::BannedIpsPath);
    }
    if is_blank(c.logging.directory.as_str()) {
        return Some(ConfigError::LogDirectory);
    }
    if is_blank(c.logging.file_prefix.as_str()) {
        return Some(ConfigError::LogFilePrefix);
    }
    if !filter_ok {
        return Some(ConfigError::LogLevel);
    }
    None
}

impl AppConfig {
    /// Holds the configuration to its rules.
    pub fn validate(&self) -> (r: Result<(), ConfigError>)
        ensures
            match r {
                Ok(()) => is_first_broken(*self, filter::usable_filter(self.logging.level@), None),
                Err(e) => is_first_broken(*self, filter::usable_filter(self.logging.level@), Some(e)),
            },
    {
        let filter_ok = filter::is_usable_filter(self.logging.level.as_str());
        self.validate_with(filter_ok)
    }

    /// The same, where it is known whether the level of the log is a filter.
    pub fn validate_with(&self, filter_ok: bool) -> (r: Result<(), ConfigError>)
        ensures
            match r {
                Ok(()) => is_first_broken(*self, filter_ok, None),
                Err(e) => is_first_broken(*self, filter_ok, Some(e)),
            },
    {
        proof {
            lemma_sound_start(*self, filter_ok);
        }
        let honeypot = check_honeypot(self);
        assert(first_between(*self, filter_ok, 1, 8, honeypot));
        if let Some(e) = honeypot {
            proof {
                lemma_first_broken(*self, filter_ok, 1, 8, e);
            }
            return Err(e);
        }
        proof {
            lemma_sound_on(*self, filter_ok, 1, 8);
        }
        let password = check_password(self);
        assert(first_between(*self, filter_ok, 8, 11, password));
        if let Some(e) = password {
            proof {
                lemma_first_broken(*self, filter_ok, 8, 11, e);
            }
            return Err(e);
        }
        proof {
            lemma_sound_on(*self, filter_ok, 8, 11);
        }
        let inline = check_inline(self);
        assert(first_between(*self, filter_ok, 11, 19, inline));
        if let Some(e) = inline {
            proof {
                lemma_first_broken(*self, filter_ok, 11, 19, e);
            }
            return Err(e);
        }
        proof {
            lemma_sound_on(*self, filter_ok, 11, 19);
            lemma_sound_addresses(*self, filter_ok, 19);
        }
        let plaintext = check_plaintext(self);
        assert(first_between(*self, filter_ok, 19, 20, plaintext));
        if let Some(e) = plaintext {
            proof {
                lemma_first_broken(*self, filter_ok, 19, 20, e);
            }
            return Err(e);
        }
        proof {
            lemma_sound_on(*self, filter_ok, 19, 20);
        }
        let firewall = check_firewall(self);
        assert(first_between(*self, filter_ok, 20, 29, firewall));
        if let Some(e) = firewall {
            proof {
                lemma_first_broken(*self, filter_ok, 20, 29, e);
            }
            return Err(e);
        }
        proof {
            lemma_sound_on(*self, filter_ok, 20, 29);
        }
        let webdav = check_webdav(self);
        assert(first_between(*self, filter_ok, 29, 37, webdav));
        if let Some(e) = webdav {
            proof {
                lemma_first_broken(*self, filter_ok, 29, 37, e);
            }
            return Err(e);
        }
        proof {
            lemma_sound_on(*self, filter_ok, 29, 37);
        }
        let files = check_files(self, filter_ok);
        assert(first_between(*self, filter_ok, 37, 41, files));
        if let Some(e) = files {
            proof {
                lemma_first_broken(*self, filter_ok, 37, 41, e);
            }
            return Err(e);
        }
        proof {
            lemma_sound_on(*self, filter_ok, 37, 41);
            lemma_nothing_broken(*self, filter_ok);
        }
        Ok(())
    }
}

/// No rule before the given place is broken.
#[verifier::opaque]
spec fn sound_before(c: AppConfig, filter_ok: bool, to: int) -> bool {
    forall|f: ConfigError| place(f) < to ==> !#[trigger] breaks(c, f, filter_ok)
}

proof fn lemma_sound_start(c: AppConfig, filter_ok: bool)
    ensures
        sound_before(c, filter_ok, 1),
{
    reveal(sound_before);
}

proof fn lemma_sound_on(c: AppConfig, filter_ok: bool, from: int, to: int)
    requires
        sound_before(c, filter_ok, from),
        first_between(c, filter_ok, from, to, None),
    ensures
        sound_before(c, filter_ok, to),
{
    reveal(sound_before);
}

proof fn lemma_first_broken(c: AppConfig, filter_ok: bool, from: int, to: int, rule: ConfigError)
    requires
        sound_before(c, filter_ok, from),
        first_between(c, filter_ok, from, to, Some(rule)),
    ensures
        is_first_broken(c, filter_ok, Some(rule)),
{
    reveal(sound_before);
}

proof fn lemma_nothing_broken(c: AppConfig, filter_ok: bool)
    requires
        sound_before(c, filter_ok, 41),
    ensures
        is_first_broken(c, filter_ok, None),
{
    reveal(sound_before);
}

proof fn lemma_sound_addresses(c: AppConfig, filter_ok: bool, to: int)
    requires
        sound_before(c, filter_ok, to),
        to > 2,
    ensures
        addr::socket_of(c.honeypot.listen_addr@) is Some,
        addr::socket_of(c.admin.listen_addr@) is Some,
{
    reveal(sound_before);
    assert(!breaks(c, ConfigError::HoneypotListenAddr, filter_ok));
    assert(!breaks(c, ConfigError::AdminListenAddr, filter_ok));
}

// ---------------------------------------------------------------------------
// Laws

/// A configuration that breaks no rule.
pub open spec fn accepted(c: AppConfig, filter_ok: bool) -> bool {
    is_first_broken(c, filter_ok, None)
}

/// An accepted configuration has a password of its own, of at least 16
/// characters.
pub proof fn law_accepted_password(c: AppConfig, filter_ok: bool)
    requires
        accepted(c, filter_ok),
    ensures
        text::trimmed(c.admin.password@).len() >= 16,
        !placeholder(c.admin.password@),
{
    assert(!breaks(c, ConfigError::PasswordShort, filter_ok));
    assert(!breaks(c, ConfigError::PasswordPlaceholder, filter_ok));
}

/// Under an accepted configuration the administration listens without
/// encryption at a loopback address only, unless that was asked for.
pub proof fn law_accepted_admin_is_local(c: AppConfig, filter_ok: bool)
    requires
        accepted(c, filter_ok),
    ensures
        addr::socket_of(c.honeypot.listen_addr@) is Some,
        addr::socket_of(c.admin.listen_addr@) is Some,
        admin_ip(c).loopback() || c.admin.allow_insecure_http,
{
    assert(!breaks(c, ConfigError::HoneypotListenAddr, filter_ok));
    assert(!breaks(c, ConfigError::AdminListenAddr, filter_ok));
    assert(!breaks(c, ConfigError::PlaintextAdmin, filter_ok));
}

/// Under an accepted configuration the records are uploaded with encryption,
/// unless plain HTTP was asked for; a user name comes with a password, and
/// neither holds a line break.
pub proof fn law_accepted_upload_is_secure(c: AppConfig, filter_ok: bool)
    requires
        accepted(c, filter_ok),
        c.webdav.enabled,
    ensures
        "https://"@.is_prefix_of(c.webdav.url@) || (c.webdav.allow_insecure_http
            && "http://"@.is_prefix_of(c.webdav.url@)),
        c.webdav.username is Some <==> c.webdav.password is Some,
        !line_break(c.webdav.url@),
        !option_line_break(c.webdav.username),
        !option_line_break(c.webdav.password),
        c.webdav.timeout_seconds > 0,
        0 < c.webdav.retry_initial_seconds <= c.webdav.retry_max_seconds,
{
    assert(!breaks(c, ConfigError::WebdavScheme, filter_ok));
    assert(!breaks(c, ConfigError::WebdavCredentials, filter_ok));
    assert(!breaks(c, ConfigError::WebdavLineBreak, filter_ok));
    assert(!breaks(c, ConfigError::WebdavTimeout, filter_ok));
    assert(!breaks(c, ConfigError::WebdavRetryInitial, filter_ok));
    assert(!breaks(c, ConfigError::WebdavRetryMax, filter_ok));
}

/// An accepted configuration bounds what the service keeps and does at once,
/// and its hidden path is neither empty nor ambiguous.
pub proof fn law_accepted_limits(c: AppConfig, filter_ok: bool)
    requires
        accepted(c, filter_ok),
    ensures
        c.honeypot.max_visits > 0,
        c.honeypot.window_seconds > 0,
        c.honeypot.max_tracked_ips > 0,
        c.honeypot.max_concurrent_connections > 0,
        c.honeypot.ban_queue_capacity > 0,
        c.firewall.command_timeout_seconds > 0,
        c.logging.retention_files > 0,
        inline(c) ==> 0 < c.admin.inline_probe_timeout_ms <= c.admin.inline_request_timeout_ms,
        inline(c) ==> c.admin.inline_max_request_bytes > 0,
        inline(c) ==> text::without_trailing(c.admin.inline_path_prefix@, '/').len() > 0,
        inline(c) ==> starts_with_slash(c.admin.inline_path_prefix@),
        inline(c) ==> !c.admin.inline_path_prefix@.contains('?'),
        inline(c) ==> !c.admin.inline_path_prefix@.contains('#'),
{
    assert(!breaks(c, ConfigError::MaxVisits, filter_ok));
    assert(!breaks(c, ConfigError::WindowSeconds, filter_ok));
    assert(!breaks(c, ConfigError::MaxTrackedIps, filter_ok));
    assert(!breaks(c, ConfigError::MaxConcurrentConnections, filter_ok));
    assert(!breaks(c, ConfigError::BanQueueCapacity, filter_ok));
    assert(!breaks(c, ConfigError::CommandTimeout, filter_ok));
    assert(!breaks(c, ConfigError::RetentionFiles, filter_ok));
    assert(!breaks(c, ConfigError::ProbeTimeout, filter_ok));
    assert(!breaks(c, ConfigError::ProbeExceedsRequest, filter_ok));
    assert(!breaks(c, ConfigError::MaxRequestBytes, filter_ok));
    assert(!breaks(c, ConfigError::PrefixRoot, filter_ok));
    assert(!breaks(c, ConfigError::PrefixStart, filter_ok));
    assert(!breaks(c, ConfigError::PrefixDelimiter, filter_ok));
}

/// Some character is not white space.
pub open spec fn says_something(s: Seq<char>) -> bool {
    exists|i: int| 0 <= i < s.len() && !text::white_space(#[trigger] s[i])
}

proof fn lemma_says_something(s: Seq<char>)
    ensures
        blank(s) <==> !says_something(s),
{
    let r = text::law_trimming_takes_the_white_space_at_the_ends(s);
}

/// What a configuration needs to be accepted of the listener: numeric
/// addresses and limits that are not zero.
pub open spec fn listener_is_sound(c: AppConfig) -> bool {
    &&& addr::socket_of(c.honeypot.listen_addr@) is Some
    &&& addr::socket_of(c.admin.listen_addr@) is Some
    &&& c.honeypot.max_visits > 0
    &&& c.honeypot.window_seconds > 0
    &&& c.honeypot.max_tracked_ips > 0
    &&& c.honeypot.max_concurrent_connections > 0
    &&& c.honeypot.ban_queue_capacity > 0
}

/// The password has at least 16 characters between its white space and is none
/// that documents show.
pub open spec fn password_is_sound(c: AppConfig) -> bool {
    let shown = text::trimmed(c.admin.password@);
    let small = text::lower(shown);
    &&& shown.len() >= 16
    &&& small != "change-me"@ && small != "replace-with-a-long-random-password"@ && small
        != "configured-password"@ && small != "your-password"@ && small != "password"@ && small
        != "admin"@
}

/// Where the administration is served on the port of the honeypot, its path
/// starts with a slash, is more than slashes, and holds no white space and
/// nothing that ends a path; its limits are not zero, and the probe is not
/// longer than the request.
pub open spec fn inline_is_sound(c: AppConfig) -> bool {
    let p = c.admin.inline_path_prefix@;
    c.admin.inline_on_honeypot_port ==> {
        &&& p.len() > 0 && p[0] == '/'
        &&& exists|i: int| 0 <= i < p.len() && #[trigger] p[i] != '/'
        &&& forall|i: int| 0 <= i < p.len() ==> !text::white_space(#[trigger] p[i])
        &&& forall|i: int| 0 <= i < p.len() ==> #[trigger] p[i] != '?' && p[i] != '#'
        &&& 0 < c.admin.inline_probe_timeout_ms <= c.admin.inline_request_timeout_ms
        &&& c.admin.inline_max_request_bytes > 0
    }
}

/// Without leave for plain HTTP the address at which the administration is
/// served is a loopback one.
pub open spec fn admin_is_sound(c: AppConfig) -> bool {
    let served_at = if c.admin.inline_on_honeypot_port {
        c.honeypot.listen_addr@
    } else {
        c.admin.listen_addr@
    };
    c.admin.allow_insecure_http || match addr::socket_of(served_at)->0.ip {
        IpAddr::V4(a) => a.bits / 0x100_0000 == 127,
        IpAddr::V6(a) => a.bits == 1,
    }
}

pub open spec fn firewall_is_sound(c: AppConfig) -> bool {
    &&& c.firewall.ipset_hash_size > 0
    &&& c.firewall.ipset_max_elements > 0
    &&& c.firewall.command_timeout_seconds > 0
    &&& c.firewall.backend == FirewallBackend::Nftables ==> {
        &&& says_something(c.firewall.nft_table@)
        &&& says_something(c.firewall.nft_chain@)
        &&& says_something(c.firewall.nft_hook@)
        &&& says_something(c.firewall.nft_set_name_v4@)
        &&& says_something(c.firewall.nft_set_name_v6@)
    }
}

pub open spec fn one_line(s: Seq<char>) -> bool {
    forall|i: int| 0 <= i < s.len() ==> #[trigger] s[i] != '\r' && s[i] != '\n'
}

/// Where the records are uploaded, that is by HTTPS, or by HTTP where there is
/// leave for it; a user name and a password come together, and neither they
/// nor the address break the line; times are not zero.
pub open spec fn upload_is_sound(c: AppConfig) -> bool {
    let w = c.webdav;
    w.enabled ==> {
        &&& says_something(w.url@)
        &&& w.timeout_seconds > 0
        &&& 0 < w.retry_initial_seconds <= w.retry_max_seconds
        &&& "https://"@.is_prefix_of(w.url@) || w.allow_insecure_http && "http://"@.is_prefix_of(
            w.url@,
        )
        &&& one_line(w.url@)
        &&& match (w.username, w.password) {
            (Some(username), Some(password)) => {
                &&& password@.len() > 0
                &&& password@ != "webdav-password"@
                &&& one_line(username@)
                &&& one_line(password@)
            },
            (None, None) => true,
            _ => false,
        }
    }
}

pub open spec fn files_are_sound(c: AppConfig, filter_ok: bool) -> bool {
    &&& c.logging.retention_files > 0
    &&& says_something(c.state.banned_ips_path@)
    &&& says_something(c.logging.directory@)
    &&& says_something(c.logging.file_prefix@)
    &&& filter_ok
}

/// A configuration is accepted exactly when all of it is sound: nothing else is
/// asked of it.
pub proof fn law_sound_configurations_are_accepted(c: AppConfig, filter_ok: bool)
    ensures
        accepted(c, filter_ok) <==> {
            &&& listener_is_sound(c)
            &&& password_is_sound(c)
            &&& inline_is_sound(c)
            &&& admin_is_sound(c)
            &&& firewall_is_sound(c)
            &&& upload_is_sound(c)
            &&& files_are_sound(c, filter_ok)
        },
{
    let sound = listener_is_sound(c) && password_is_sound(c) && inline_is_sound(c)
        && admin_is_sound(c) && firewall_is_sound(c) && upload_is_sound(c) && files_are_sound(
        c,
        filter_ok,
    );
    if sound {
        assert forall|f: ConfigError| !#[trigger] breaks(c, f, filter_ok) by {
            let n = place(f);
            if n <= 10 || n == 19 {
                lemma_sound_listener(c, filter_ok, f);
            } else if n <= 18 {
                lemma_sound_inline(c, filter_ok, f);
            } else if n == 20 || n >= 37 {
                lemma_sound_files(c, filter_ok, f);
            } else if n <= 28 {
                lemma_sound_firewall(c, filter_ok, f);
            } else {
                lemma_sound_upload(c, filter_ok, f);
            }
        }
    }
    if accepted(c, filter_ok) {
        lemma_accepted_listener(c, filter_ok);
        lemma_accepted_inline(c, filter_ok);
        lemma_accepted_firewall(c, filter_ok);
        lemma_accepted_upload(c, filter_ok);
        lemma_accepted_files(c, filter_ok);
    }
}

proof fn lemma_one_line(s: Seq<char>)
    ensures
        line_break(s) <==> !one_line(s),
{
    if line_break(s) {
        let i = choose|i: int| 0 <= i < s.len() && (s[i] == '\r' || s[i] == '\n');
        assert(s[i] == '\r' || s[i] == '\n');
    }
}

proof fn lemma_prefix(c: AppConfig)
    ensures
        ({
            let p = c.admin.inline_path_prefix@;
            &&& text::without_trailing(p, '/').len() == 0 <==> forall|i: int|
                0 <= i < p.len() ==> #[trigger] p[i] == '/'
            &&& (p.contains('?') || p.contains('#')) <==> !(forall|i: int|
                0 <= i < p.len() ==> #[trigger] p[i] != '?' && p[i] != '#')
        }),
{
    let p = c.admin.inline_path_prefix@;
    let k = text::law_trailing_characters_are_dropped(p, '/');
    if k > 0 {
        assert(p[k - 1] != '/');
    }
}

proof fn lemma_sound_listener(c: AppConfig, filter_ok: bool, f: ConfigError)
    requires
        listener_is_sound(c),
        password_is_sound(c),
        admin_is_sound(c),
        place(f) <= 10 || place(f) == 19,
    ensures
        !breaks(c, f, filter_ok),
{
}

proof fn lemma_sound_inline(c: AppConfig, filter_ok: bool, f: ConfigError)
    requires
        inline_is_sound(c),
        11 <= place(f) <= 18,
    ensures
        !breaks(c, f, filter_ok),
{
    lemma_prefix(c);
}

proof fn lemma_sound_firewall(c: AppConfig, filter_ok: bool, f: ConfigError)
    requires
        firewall_is_sound(c),
        21 <= place(f) <= 28,
    ensures
        !breaks(c, f, filter_ok),
{
    lemma_says_something(c.firewall.nft_table@);
    lemma_says_something(c.firewall.nft_chain@);
    lemma_says_something(c.firewall.nft_hook@);
    lemma_says_something(c.firewall.nft_set_name_v4@);
    lemma_says_something(c.firewall.nft_set_name_v6@);
}

proof fn lemma_sound_upload(c: AppConfig, filter_ok: bool, f: ConfigError)
    requires
        upload_is_sound(c),
        29 <= place(f) <= 36,
    ensures
        !breaks(c, f, filter_ok),
{
    lemma_says_something(c.webdav.url@);
    lemma_one_line(c.webdav.url@);
    if let Some(username) = c.webdav.username {
        lemma_one_line(username@);
    }
    if let Some(password) = c.webdav.password {
        lemma_one_line(password@);
    }
}

proof fn lemma_sound_files(c: AppConfig, filter_ok: bool, f: ConfigError)
    requires
        files_are_sound(c, filter_ok),
        place(f) == 20 || place(f) >= 37,
    ensures
        !breaks(c, f, filter_ok),
{
    lemma_says_something(c.state.banned_ips_path@);
    lemma_says_something(c.logging.directory@);
    lemma_says_something(c.logging.file_prefix@);
}

proof fn lemma_accepted_listener(c: AppConfig, filter_ok: bool)
    requires
        accepted(c, filter_ok),
    ensures
        listener_is_sound(c),
        password_is_sound(c),
        admin_is_sound(c),
{
    law_accepted_password(c, filter_ok);
    law_accepted_admin_is_local(c, filter_ok);
    law_accepted_limits(c, filter_ok);
}

proof fn lemma_accepted_inline(c: AppConfig, filter_ok: bool)
    requires
        accepted(c, filter_ok),
    ensures
        inline_is_sound(c),
{
    law_accepted_limits(c, filter_ok);
    lemma_prefix(c);
    assert(!breaks(c, ConfigError::PrefixWhiteSpace, filter_ok));
}

proof fn lemma_accepted_firewall(c: AppConfig, filter_ok: bool)
    requires
        accepted(c, filter_ok),
    ensures
        firewall_is_sound(c),
{
    assert(!breaks(c, ConfigError::CommandTimeout, filter_ok));
    assert(!breaks(c, ConfigError::IpsetHashSize, filter_ok));
    assert(!breaks(c, ConfigError::IpsetMaxElements, filter_ok));
    assert(!breaks(c, ConfigError::NftTable, filter_ok));
    assert(!breaks(c, ConfigError::NftChain, filter_ok));
    assert(!breaks(c, ConfigError::NftHook, filter_ok));
    assert(!breaks(c, ConfigError::NftSetV4, filter_ok));
    assert(!breaks(c, ConfigError::NftSetV6, filter_ok));
    lemma_says_something(c.firewall.nft_table@);
    lemma_says_something(c.firewall.nft_chain@);
    lemma_says_something(c.firewall.nft_hook@);
    lemma_says_something(c.firewall.nft_set_name_v4@);
    lemma_says_something(c.firewall.nft_set_name_v6@);
}

proof fn lemma_accepted_upload(c: AppConfig, filter_ok: bool)
    requires
        accepted(c, filter_ok),
    ensures
        upload_is_sound(c),
{
    if c.webdav.enabled {
        law_accepted_upload_is_secure(c, filter_ok);
        assert(!breaks(c, ConfigError::WebdavUrl, filter_ok));
        assert(!breaks(c, ConfigError::WebdavPassword, filter_ok));
        lemma_says_something(c.webdav.url@);
        lemma_one_line(c.webdav.url@);
        if let Some(username) = c.webdav.username {
            lemma_one_line(username@);
        }
        if let Some(password) = c.webdav.password {
            lemma_one_line(password@);
        }
    }
}

proof fn lemma_accepted_files(c: AppConfig, filter_ok: bool)
    requires
        accepted(c, filter_ok),
    ensures
        files_are_sound(c, filter_ok),
{
    assert(!breaks(c, ConfigError::RetentionFiles, filter_ok));
    assert(!breaks(c, ConfigError::BannedIpsPath, filter_ok));
    assert(!breaks(c, ConfigError::LogDirectory, filter_ok));
    assert(!breaks(c, ConfigError::LogFilePrefix, filter_ok));
    assert(!breaks(c, ConfigError::LogLevel, filter_ok));
    lemma_says_something(c.state.banned_ips_path@);
    lemma_says_something(c.logging.directory@);
    lemma_says_something(c.logging.file_prefix@);
}

/// What stands in a configuration where nothing was given.
pub proof fn law_defaults_are_those_of_the_documents(c: AppConfig)
    requires
        c.honeypot.is_default(),
        c.admin.is_default(),
        c.firewall.is_default(),
        c.state.is_default(),
        c.webdav.is_default(),
        c.logging.is_default(),
    ensures
        c.honeypot.listen_addr@ == "0.0.0.0:2222"@ && c.admin.listen_addr@ == "127.0.0.1:8080"@,
        c.honeypot.max_visits == 5 && c.honeypot.window_seconds == 60,
        c.honeypot.max_tracked_ips == 100_000,
        c.honeypot.max_concurrent_connections == 1_024,
        c.honeypot.ban_queue_capacity == 4_096,
        allowlist::covered(c.honeypot.allowlist@, IpAddr::V4(Ipv4Addr { bits: 0x7f00_0001 })),
        allowlist::covered(c.honeypot.allowlist@, IpAddr::V6(Ipv6Addr { bits: 1 })),
        c.honeypot.allowlist@.len() == 2,
        c.honeypot.banner@ == "SSH-2.0-OpenSSH_8.9p1 Ubuntu-3\r\n"@,
        c.honeypot.read_after_banner_timeout_ms == 1_500 && c.honeypot.close_delay_ms == 0,
        c.admin.password@.len() == 0,
        !c.admin.inline_on_honeypot_port && c.admin.inline_path_prefix@ == "/_honeypot_admin"@,
        c.admin.inline_probe_timeout_ms == 250 && c.admin.inline_request_timeout_ms == 3_000,
        c.admin.inline_max_request_bytes == 16 * 1_024,
        !c.admin.allow_insecure_http && !c.admin.allow_legacy_get_password,
        c.firewall.backend == FirewallBackend::IptablesIpset,
        c.firewall.nft_binary@ == "nft"@ && c.firewall.nft_table@ == "honeypot"@,
        c.firewall.nft_chain@ == "input"@ && c.firewall.nft_hook@ == "input"@,
        c.firewall.nft_priority@ == "filter"@,
        c.firewall.nft_set_name_v4@ == "banned_v4"@ && c.firewall.nft_set_name_v6@ == "banned_v6"@,
        c.firewall.ufw_binary@ == "ufw"@ && c.firewall.iptables_binary@ == "iptables"@,
        c.firewall.ip6tables_binary@ == "ip6tables"@ && c.firewall.ipset_binary@ == "ipset"@,
        c.firewall.chain@ == "INPUT"@ && c.firewall.rule_position == 1,
        c.firewall.ipset_name_v4@ == "honeypot_banned_v4"@,
        c.firewall.ipset_name_v6@ == "honeypot_banned_v6"@,
        c.firewall.ipset_hash_size == 4_096 && c.firewall.ipset_max_elements == 1_000_000,
        c.firewall.command_timeout_seconds == 15,
        c.state.banned_ips_path@ == "state/banned_ips.json"@,
        !c.webdav.enabled && c.webdav.url@.len() == 0 && c.webdav.username is None
            && c.webdav.password is None,
        c.webdav.curl_binary@ == "curl"@ && !c.webdav.allow_insecure_http,
        c.webdav.timeout_seconds == 15 && c.webdav.debounce_seconds == 5,
        c.webdav.retry_initial_seconds == 5 && c.webdav.retry_max_seconds == 300,
        c.logging.directory@ == "logs"@ && c.logging.file_prefix@ == "honeypot"@
            && c.logging.level@ == "info"@,
        c.logging.retention_files == 7 && c.logging.retention_days == 14 && c.logging.stdout,
{
    reveal_strlit("");
    let list = c.honeypot.allowlist@;
    assert(list[0]@.covers(IpAddr::V4(Ipv4Addr { bits: 0x7f00_0001 })));
    assert(list[1]@.covers(IpAddr::V6(Ipv6Addr { bits: 1 })));
}

/// Of several rules that are broken, the one that is reported is the first in
/// the order of the configuration: listener, password, path, plain text,
/// firewall, upload, files.
pub proof fn law_rules_have_an_order(c: AppConfig, filter_ok: bool, rule: ConfigError)
    requires
        is_first_broken(c, filter_ok, Some(rule)),
    ensures
        breaks(c, rule, filter_ok),
        !listener_is_sound(c) ==> place(rule) <= 7,
        listener_is_sound(c) && !password_is_sound(c) ==> 8 <= place(rule) <= 10,
        listener_is_sound(c) && password_is_sound(c) && !inline_is_sound(c) ==> 11 <= place(rule)
            <= 18,
        listener_is_sound(c) && password_is_sound(c) && inline_is_sound(c) && !admin_is_sound(c)
            ==> rule == ConfigError::PlaintextAdmin,
{
    lemma_prefix(c);
    let all = seq![
        ConfigError::HoneypotListenAddr,
        ConfigError::AdminListenAddr,
        ConfigError::MaxVisits,
        ConfigError::WindowSeconds,
        ConfigError::MaxTrackedIps,
        ConfigError::MaxConcurrentConnections,
        ConfigError::BanQueueCapacity,
        ConfigError::PasswordMissing,
        ConfigError::PasswordShort,
        ConfigError::PasswordPlaceholder,
        ConfigError::PrefixStart,
        ConfigError::PrefixWhiteSpace,
        ConfigError::ProbeTimeout,
        ConfigError::RequestTimeout,
        ConfigError::ProbeExceedsRequest,
        ConfigError::MaxRequestBytes,
        ConfigError::PrefixRoot,
        ConfigError::PrefixDelimiter,
        ConfigError::PlaintextAdmin,
    ];
    assert forall|i: int| 0 <= i < all.len() && place(#[trigger] all[i]) < place(
        rule,
    ) implies !breaks(c, all[i], filter_ok) by {
    }
    assert(forall|i: int| 0 <= i < all.len() ==> place(#[trigger] all[i]) == i + 1);
    assert(!breaks(c, all[0], filter_ok) || place(rule) <= 1);
    assert(!breaks(c, all[1], filter_ok) || place(rule) <= 2);
    assert(!breaks(c, all[2], filter_ok) || place(rule) <= 3);
    assert(!breaks(c, all[3], filter_ok) || place(rule) <= 4);
    assert(!breaks(c, all[4], filter_ok) || place(rule) <= 5);
    assert(!breaks(c, all[5], filter_ok) || place(rule) <= 6);
    assert(!breaks(c, all[6], filter_ok) || place(rule) <= 7);
    assert(!breaks(c, all[7], filter_ok) || place(rule) <= 8);
    assert(!breaks(c, all[8], filter_ok) || place(rule) <= 9);
    assert(!breaks(c, all[9], filter_ok) || place(rule) <= 10);
    assert(!breaks(c, all[10], filter_ok) || place(rule) <= 11);
    assert(!breaks(c, all[11], filter_ok) || place(rule) <= 12);
    assert(!breaks(c, all[12], filter_ok) || place(rule) <= 13);
    assert(!breaks(c, all[13], filter_ok) || place(rule) <= 14);
    assert(!breaks(c, all[14], filter_ok) || place(rule) <= 15);
    assert(!breaks(c, all[15], filter_ok) || place(rule) <= 16);
    assert(!breaks(c, all[16], filter_ok) || place(rule) <= 17);
    assert(!breaks(c, all[17], filter_ok) || place(rule) <= 18);
    assert(!breaks(c, all[18], filter_ok) || place(rule) <= 19);
}

/// What is told of a rule that is broken: the setting and what is asked of it.
pub proof fn law_broken_rules_are_told(rule: ConfigError)
    ensures
        rule.message() == match rule {
            ConfigError::HoneypotListenAddr => "honeypot.listen_addr must be a numeric socket address"@,
            ConfigError::AdminListenAddr => "admin.listen_addr must be a numeric socket address"@,
            ConfigError::MaxVisits => "honeypot.max_visits must be greater than 0"@,
            ConfigError::WindowSeconds => "honeypot.window_seconds must be greater than 0"@,
            ConfigError::MaxTrackedIps => "honeypot.max_tracked_ips must be greater than 0"@,
            ConfigError::MaxConcurrentConnections => "honeypot.max_concurrent_connections must be greater than 0"@,
            ConfigError::BanQueueCapacity => "honeypot.ban_queue_capacity must be greater than 0"@,
            ConfigError::PasswordMissing => "admin.password must be explicitly configured"@,
            ConfigError::PasswordShort => "admin.password must contain at least 16 characters"@,
            ConfigError::PasswordPlaceholder => "admin.password must not use a documented placeholder value"@,
            ConfigError::PrefixStart => "admin.inline_path_prefix must start with /"@,
            ConfigError::PrefixWhiteSpace => "admin.inline_path_prefix must not contain whitespace"@,
            ConfigError::ProbeTimeout => "admin.inline_probe_timeout_ms must be greater than 0"@,
            ConfigError::RequestTimeout => "admin.inline_request_timeout_ms must be greater than 0"@,
            ConfigError::ProbeExceedsRequest => "admin.inline_probe_timeout_ms must not exceed admin.inline_request_timeout_ms"@,
            ConfigError::MaxRequestBytes => "admin.inline_max_request_bytes must be greater than 0"@,
            ConfigError::PrefixRoot => "admin.inline_path_prefix must not be the root path"@,
            ConfigError::PrefixDelimiter => "admin.inline_path_prefix must not contain a query or fragment delimiter"@,
            ConfigError::PlaintextAdmin => "remote plaintext admin access requires admin.allow_insecure_http = true"@,
            ConfigError::RetentionFiles => "logging.retention_files must be greater than 0"@,
            ConfigError::IpsetHashSize => "firewall.ipset_hash_size must be greater than 0"@,
            ConfigError::IpsetMaxElements => "firewall.ipset_max_elements must be greater than 0"@,
            ConfigError::CommandTimeout => "firewall.command_timeout_seconds must be greater than 0"@,
            ConfigError::NftTable => "firewall.nft_table must not be empty"@,
            ConfigError::NftChain => "firewall.nft_chain must not be empty"@,
            ConfigError::NftHook => "firewall.nft_hook must not be empty"@,
            ConfigError::NftSetV4 => "firewall.nft_set_name_v4 must not be empty"@,
            ConfigError::NftSetV6 => "firewall.nft_set_name_v6 must not be empty"@,
            ConfigError::WebdavUrl => "webdav.url must be set"@,
            ConfigError::WebdavTimeout => "webdav.timeout_seconds must be greater than 0"@,
            ConfigError::WebdavRetryInitial => "webdav.retry_initial_seconds must be greater than 0"@,
            ConfigError::WebdavRetryMax => "webdav.retry_max_seconds must be at least webdav.retry_initial_seconds"@,
            ConfigError::WebdavScheme => "webdav.url must use https:// unless webdav.allow_insecure_http = true"@,
            ConfigError::WebdavCredentials => "webdav.username and webdav.password must be configured together"@,
            ConfigError::WebdavPassword => "webdav.password must not be empty or use the example value"@,
            ConfigError::WebdavLineBreak => "WebDAV values must not contain CR or LF characters"@,
            ConfigError::BannedIpsPath => "state.banned_ips_path must not be empty"@,
            ConfigError::LogDirectory => "logging.directory must not be empty"@,
            ConfigError::LogFilePrefix => "logging.file_prefix must not be empty"@,
            ConfigError::LogLevel => "logging.level must be a valid tracing filter"@,
        },
{
}

} // verus!
