//! The daemon's settings, their defaults, and the durations they hold.

use vstd::prelude::*;
use crate::text::{chars_of, decimal_value, push_char, trim_text, trimmed};

verus! {

pub const VERSION: &'static str = "0.3.0";
pub const CONF_FILE: &'static str = "cloud-network";
pub const CONF_PATH: &'static str = "/etc/cloud-network";
pub const DEFAULT_HTTP_REQUEST_TIMEOUT: u64 = 10000;

#[derive(Debug, Clone)]
pub struct Config {
    pub logging: LoggingConfig,
    pub server: ServerConfig,
    pub metadata: MetadataConfig,
    pub network: NetworkConfig,
    pub cloud: CloudConfig,
    pub security: SecurityConfig,
    pub state: StateConfig,
    pub features: FeaturesConfig,
}

#[derive(Debug, Clone)]
pub struct LoggingConfig {
    pub level: String,
    pub format: String,
    pub file: Option<String>,
    pub timestamps: bool,
}

#[derive(Debug, Clone)]
pub struct ServerConfig {
    pub listen: ListenConfig,
    pub tls: Option<TlsConfig>,
}

#[derive(Debug, Clone)]
pub struct ListenConfig {
    pub address: String,
    pub port: u16,
}

#[derive(Debug, Clone)]
pub struct TlsConfig {
    pub enabled: bool,
    pub cert_file: String,
    pub key_file: String,
}

#[derive(Debug, Clone)]
pub struct MetadataConfig {
    pub refresh_interval: String,
    pub request_timeout: String,
    pub retry: RetryConfig,
}

#[derive(Debug, Clone)]
pub struct RetryConfig {
    pub enabled: bool,
    pub max_attempts: u32,
    pub backoff: String,
}

#[derive(Debug, Clone)]
pub struct NetworkConfig {
    pub interfaces: InterfacesConfig,
    pub primary: PrimaryConfig,
    pub routing: RoutingConfig,
    pub mtu: MtuConfig,
}

#[derive(Debug, Clone)]
pub struct InterfacesConfig {
    pub enabled: Vec<String>,
    pub patterns: Vec<String>,
}

#[derive(Debug, Clone)]
pub struct PrimaryConfig {
    pub enabled: bool,
    pub interface: Option<String>,
}

#[derive(Debug, Clone)]
pub struct RoutingConfig {
    pub table_base: u32,
    pub policy_routing: bool,
    pub manage_default_routes: bool,
}

#[derive(Debug, Clone)]
pub struct MtuConfig {
    pub auto_configure: bool,
    pub override_value: Option<u32>,
}

#[derive(Debug, Clone)]
pub struct CloudConfig {
    pub auto_detect: bool,
    pub provider: Option<String>,
    pub azure: AzureCloudConfig,
    pub aws: AwsCloudConfig,
    pub gcp: GcpCloudConfig,
}

#[derive(Debug, Clone)]
pub struct AzureCloudConfig {
    pub api_version: String,
}

#[derive(Debug, Clone)]
pub struct AwsCloudConfig {
    pub imds_version: u8,
    pub token_ttl: Option<u64>,
}

#[derive(Debug, Clone)]
pub struct GcpCloudConfig {
    pub recursive: bool,
}

#[derive(Debug, Clone)]
pub struct SecurityConfig {
    pub user: String,
    pub capabilities: Vec<String>,
    pub watchdog: WatchdogConfig,
}

#[derive(Debug, Clone)]
pub struct WatchdogConfig {
    pub enabled: bool,
    pub interval: String,
}

#[derive(Debug, Clone)]
pub struct StateConfig {
    pub directory: String,
    pub persist_metadata: bool,
    pub per_interface_files: bool,
}

#[derive(Debug, Clone)]
pub struct FeaturesConfig {
    pub network_events: bool,
    pub cleanup_stale: bool,
    pub ipv6: bool,
    pub health_check: bool,
}

impl Default for LoggingConfig {
    fn default() -> (r: Self)
        ensures
            r.level@ == "info"@,
            r.format@ == "text"@,
            r.file is None,
            !r.timestamps,
    {
        LoggingConfig {
            level: String::from_str("info"),
            format: String::from_str("text"),
            file: None,
            timestamps: false,
        }
    }
}

impl Default for ListenConfig {
    fn default() -> (r: Self)
        ensures
            r.address@ == "127.0.0.1"@,
            r.port == 5209,
    {
        ListenConfig { address: String::from_str("127.0.0.1"), port: 5209 }
    }
}

impl Default for ServerConfig {
    fn default() -> (r: Self)
        ensures
            r.listen.address@ == "127.0.0.1"@,
            r.listen.port == 5209,
            r.tls is None,
    {
        ServerConfig { listen: ListenConfig::default(), tls: None }
    }
}

impl Default for RetryConfig {
    fn default() -> (r: Self)
        ensures
            r.enabled,
            r.max_attempts == 3,
            r.backoff@ == "5s"@,
    {
        RetryConfig { enabled: true, max_attempts: 3, backoff: String::from_str("5s") }
    }
}

impl Default for MetadataConfig {
    fn default() -> (r: Self)
        ensures
            r.refresh_interval@ == "300s"@,
            r.request_timeout@ == "10s"@,
            r.retry.enabled,
            r.retry.max_attempts == 3,
            r.retry.backoff@ == "5s"@,
    {
        MetadataConfig {
            refresh_interval: String::from_str("300s"),
            request_timeout: String::from_str("10s"),
            retry: RetryConfig::default(),
        }
    }
}

impl Default for InterfacesConfig {
    fn default() -> (r: Self)
        ensures
            r.enabled@.len() == 0,
            r.patterns@.len() == 0,
    {
        InterfacesConfig { enabled: Vec::new(), patterns: Vec::new() }
    }
}

impl Default for PrimaryConfig {
    fn default() -> (r: Self)
        ensures
            r.enabled,
            r.interface is None,
    {
        PrimaryConfig { enabled: true, interface: None }
    }
}

impl Default for RoutingConfig {
    fn default() -> (r: Self)
        ensures
            r.table_base == 9999,
            r.policy_routing,
            r.manage_default_routes,
    {
        RoutingConfig { table_base: 9999, policy_routing: true, manage_default_routes: true }
    }
}

impl Default for MtuConfig {
    fn default() -> (r: Self)
        ensures
            r.auto_configure,
            r.override_value is None,
    {
        MtuConfig { auto_configure: true, override_value: None }
    }
}

impl Default for NetworkConfig {
    fn default() -> (r: Self)
        ensures
            r.interfaces.enabled@.len() == 0,
            r.interfaces.patterns@.len() == 0,
            r.primary.enabled,
            r.primary.interface is None,
            r.routing.table_base == 9999,
            r.routing.policy_routing,
            r.routing.manage_default_routes,
            r.mtu.auto_configure,
            r.mtu.override_value is None,
    {
        NetworkConfig {
            interfaces: InterfacesConfig::default(),
            primary: PrimaryConfig::default(),
            routing: RoutingConfig::default(),
            mtu: MtuConfig::default(),
        }
    }
}

impl Default for AzureCloudConfig {
    fn default() -> (r: Self)
        ensures
            r.api_version@ == "2021-02-01"@,
    {
        AzureCloudConfig { api_version: String::from_str("2021-02-01") }
    }
}

impl Default for AwsCloudConfig {
    fn default() -> (r: Self)
        ensures
            r.imds_version == 1,
            r.token_ttl is None,
    {
        AwsCloudConfig { imds_version: 1, token_ttl: None }
    }
}

impl Default for GcpCloudConfig {
    fn default() -> (r: Self)
        ensures
            r.recursive,
    {
        GcpCloudConfig { recursive: true }
    }
}

impl Default for CloudConfig {
    fn default() -> (r: Self)
        ensures
            r.auto_detect,
            r.provider is None,
            r.azure.api_version@ == "2021-02-01"@,
            r.aws.imds_version == 1,
            r.aws.token_ttl is None,
            r.gcp.recursive,
    {
        CloudConfig {
            auto_detect: true,
            provider: None,
            azure: AzureCloudConfig::default(),
            aws: AwsCloudConfig::default(),
            gcp: GcpCloudConfig::default(),
        }
    }
}

impl Default for WatchdogConfig {
    fn default() -> (r: Self)
        ensures
            r.enabled,
            r.interval@ == "30s"@,
    {
        WatchdogConfig { enabled: true, interval: String::from_str("30s") }
    }
}

impl Default for SecurityConfig {
    fn default() -> (r: Self)
        ensures
            r.user@ == "cloud-network"@,
            r.capabilities@.len() == 1,
            r.capabilities@[0]@ == "CAP_NET_ADMIN"@,
            r.watchdog.enabled,
            r.watchdog.interval@ == "30s"@,
    {
        let mut caps: Vec<String> = Vec::new();
        caps.push(String::from_str("CAP_NET_ADMIN"));
        SecurityConfig {
            user: String::from_str("cloud-network"),
            capabilities: caps,
            watchdog: WatchdogConfig::default(),
        }
    }
}

impl Default for StateConfig {
    fn default() -> (r: Self)
        ensures
            r.directory@ == "/run/cloud-network"@,
            r.persist_metadata,
            r.per_interface_files,
    {
        StateConfig {
            directory: String::from_str("/run/cloud-network"),
            persist_metadata: true,
            per_interface_files: true,
        }
    }
}

impl Default for FeaturesConfig {
    fn default() -> (r: Self)
        ensures
            r.network_events,
            r.cleanup_stale,
            !r.ipv6,
            r.health_check,
    {
        FeaturesConfig { network_events: true, cleanup_stale: true, ipv6: false, health_check: true }
    }
}

impl Default for Config {
    fn default() -> (r: Self)
        ensures
            r.logging.level@ == "info"@,
            r.logging.format@ == "text"@,
            r.server.listen.address@ == "127.0.0.1"@,
            r.server.listen.port == 5209,
            r.metadata.refresh_interval@ == "300s"@,
            r.metadata.request_timeout@ == "10s"@,
            r.network.interfaces.enabled@.len() == 0,
            r.network.routing.table_base == 9999,
            r.cloud.auto_detect,
            r.cloud.provider is None,
            r.cloud.azure.api_version@ == "2021-02-01"@,
            r.cloud.aws.imds_version == 1,
            r.cloud.gcp.recursive,
            r.security.user@ == "cloud-network"@,
            r.security.watchdog.interval@ == "30s"@,
            r.state.directory@ == "/run/cloud-network"@,
            r.features.network_events,
            !r.features.ipv6,
    {
        Config {
            logging: LoggingConfig::default(),
            server: ServerConfig::default(),
            metadata: MetadataConfig::default(),
            network: NetworkConfig::default(),
            cloud: CloudConfig::default(),
            security: SecurityConfig::default(),
            state: StateConfig::default(),
            features: FeaturesConfig::default(),
        }
    }
}

} // verus!

verus! {

/// Why a setting was refused.
#[derive(Debug, Clone, Copy, PartialEq, Eq, Structural)]
pub enum ConfError {
    EmptyDuration,
    InvalidDurationNumber,
    InvalidDurationUnit,
    DurationTooLong,
    InvalidPort,
}

/// Seconds per unit of a duration suffix (`s`, `m`, `h`, `d`), 0 for any other.
pub open spec fn unit_seconds(c: char) -> nat {
    if c == 's' {
        1
    } else if c == 'm' {
        60
    } else if c == 'h' {
        3600
    } else if c == 'd' {
        86400
    } else {
        0
    }
}

/// The outcome of reading `t` (already trimmed) as a number and a unit.
pub open spec fn duration_spec(t: Seq<char>) -> Result<u64, ConfError> {
    if t.len() == 0 {
        Err(ConfError::EmptyDuration)
    } else if !crate::text::uint_text_ok(t.drop_last(), u64::MAX as nat) {
        Err(ConfError::InvalidDurationNumber)
    } else if unit_seconds(t.last()) == 0 {
        Err(ConfError::InvalidDurationUnit)
    } else if decimal_value(crate::text::u8_digits(t.drop_last())) * unit_seconds(t.last()) > u64::MAX {
        Err(ConfError::DurationTooLong)
    } else {
        Ok((decimal_value(crate::text::u8_digits(t.drop_last())) * unit_seconds(t.last())) as u64)
    }
}

/// Reads a trimmed duration such as `300s`, `5m`, `1h` or `1d` as seconds.
pub fn duration_seconds(t: &str) -> (r: Result<u64, ConfError>)
    ensures
        r == duration_spec(t@),
{
    let chars = chars_of(t);
    let n = chars.len();
    if n == 0 {
        return Err(ConfError::EmptyDuration);
    }
    let mut num: Vec<char> = Vec::new();
    let mut i: usize = 0;
    while i < n - 1
        invariant
            chars@ == t@,
            n == t@.len(),
            n > 0,
            i <= n - 1,
            num@ == t@.take(i as int),
        decreases n - 1 - i,
    {
        num.push(chars[i]);
        i = i + 1;
        assert(num@ =~= t@.take(i as int));
    }
    assert(num@ =~= t@.drop_last());
    let value = match crate::text::parse_uint_text(&num, u64::MAX) {
        Some(v) => v,
        None => { return Err(ConfError::InvalidDurationNumber); },
    };
    let unit = chars[n - 1];
    let mult: u64 = if unit == 's' {
        1
    } else if unit == 'm' {
        60
    } else if unit == 'h' {
        3600
    } else if unit == 'd' {
        86400
    } else {
        return Err(ConfError::InvalidDurationUnit);
    };
    match value.checked_mul(mult) {
        Some(secs) => Ok(secs),
        None => Err(ConfError::DurationTooLong),
    }
}

/// What `Duration::from_secs` gives for `secs`.
pub uninterp spec fn duration_of_secs(secs: u64) -> std::time::Duration;

/// Relies on `Duration::from_secs`: a duration of whole seconds.
#[verifier::external_body]
fn seconds(secs: u64) -> (r: std::time::Duration)
    ensures
        r == duration_of_secs(secs),
{
    std::time::Duration::from_secs(secs)
}

/// Reads a duration such as `300s`, `5m`, `1h` or `1d`, surrounding white
/// space aside.
pub fn parse_duration(s: &str) -> (r: Result<std::time::Duration, ConfError>)
    ensures
        match duration_spec(trimmed(s@)) {
            Ok(secs) => r == Ok::<std::time::Duration, ConfError>(duration_of_secs(secs)),
            Err(e) => r == Err::<std::time::Duration, ConfError>(e),
        },
{
    let t = trim_text(s);
    match duration_seconds(t.as_str()) {
        Ok(secs) => Ok(seconds(secs)),
        Err(e) => Err(e),
    }
}

/// How much the daemon logs.
#[derive(Debug, Clone, Copy, PartialEq, Eq, Structural)]
pub enum LogLevel {
    Trace,
    Debug,
    Info,
    Warn,
    Error,
}

/// The level a lower-case level name stands for (`info` for an unknown one).
pub open spec fn level_named(s: Seq<char>) -> LogLevel {
    if s == "trace"@ {
        LogLevel::Trace
    } else if s == "debug"@ {
        LogLevel::Debug
    } else if s == "info"@ {
        LogLevel::Info
    } else if s == "warn"@ || s == "warning"@ {
        LogLevel::Warn
    } else if s == "error"@ {
        LogLevel::Error
    } else {
        LogLevel::Info
    }
}

fn same_text(a: &str, b: &str) -> (r: bool)
    ensures
        r == (a@ == b@),
{
    let x = chars_of(a);
    let y = chars_of(b);
    if x.len() != y.len() {
        return false;
    }
    let mut i: usize = 0;
    while i < x.len()
        invariant
            x@ == a@,
            y@ == b@,
            x.len() == y.len(),
            i <= x.len(),
            forall|j: int| 0 <= j < i ==> x@[j] == y@[j],
        decreases x.len() - i,
    {
        if x[i] != y[i] {
            return false;
        }
        i = i + 1;
    }
    assert(x@ =~= y@);
    true
}

/// The level that a lower-case level name stands for.
pub fn log_level_of(lowered: &str) -> (r: LogLevel)
    ensures
        r == level_named(lowered@),
{
    if same_text(lowered, "trace") {
        LogLevel::Trace
    } else if same_text(lowered, "debug") {
        LogLevel::Debug
    } else if same_text(lowered, "info") {
        LogLevel::Info
    } else if same_text(lowered, "warn") || same_text(lowered, "warning") {
        LogLevel::Warn
    } else if same_text(lowered, "error") {
        LogLevel::Error
    } else {
        LogLevel::Info
    }
}

/// What `str::to_lowercase` gives for `s`.
pub uninterp spec fn lowercase_of(s: Seq<char>) -> Seq<char>;

/// Relies on `str::to_lowercase`: the result depends on the characters alone.
#[verifier::external_body]
fn lowercase(s: &str) -> (r: String)
    ensures
        r@ == lowercase_of(s@),
{
    s.to_lowercase()
}

impl Config {
    /// Checks that the three durations read and that the port is not 0.
    pub fn validate(&self) -> (r: Result<(), ConfError>)
        ensures
            duration_spec(trimmed(self.metadata.refresh_interval@)) is Err ==> r == Err::<(), ConfError>(
                duration_spec(trimmed(self.metadata.refresh_interval@))->Err_0),
            duration_spec(trimmed(self.metadata.refresh_interval@)) is Ok
                && duration_spec(trimmed(self.metadata.request_timeout@)) is Err ==> r == Err::<(), ConfError>(
                duration_spec(trimmed(self.metadata.request_timeout@))->Err_0),
            duration_spec(trimmed(self.metadata.refresh_interval@)) is Ok
                && duration_spec(trimmed(self.metadata.request_timeout@)) is Ok
                && duration_spec(trimmed(self.security.watchdog.interval@)) is Err ==> r == Err::<(), ConfError>(
                duration_spec(trimmed(self.security.watchdog.interval@))->Err_0),
            r is Ok <==> (duration_spec(trimmed(self.metadata.refresh_interval@)) is Ok
                && duration_spec(trimmed(self.metadata.request_timeout@)) is Ok
                && duration_spec(trimmed(self.security.watchdog.interval@)) is Ok
                && self.server.listen.port != 0),
            duration_spec(trimmed(self.metadata.refresh_interval@)) is Ok
                && duration_spec(trimmed(self.metadata.request_timeout@)) is Ok
                && duration_spec(trimmed(self.security.watchdog.interval@)) is Ok
                && self.server.listen.port == 0 ==> r == Err::<(), ConfError>(ConfError::InvalidPort),
    {
        match parse_duration(self.metadata.refresh_interval.as_str()) {
            Err(e) => { return Err(e); },
            Ok(_) => {},
        }
        match parse_duration(self.metadata.request_timeout.as_str()) {
            Err(e) => { return Err(e); },
            Ok(_) => {},
        }
        match parse_duration(self.security.watchdog.interval.as_str()) {
            Err(e) => { return Err(e); },
            Ok(_) => {},
        }
        if self.server.listen.port == 0 {
            return Err(ConfError::InvalidPort);
        }
        Ok(())
    }

    /// The configured log level; `info` for an unknown name.
    pub fn get_log_level(&self) -> (r: LogLevel)
        ensures
            r == level_named(lowercase_of(self.logging.level@)),
    {
        let lowered = lowercase(self.logging.level.as_str());
        log_level_of(lowered.as_str())
    }

    /// How often metadata is refreshed; 300 s where the setting does not read.
    pub fn get_refresh_duration(&self) -> (r: std::time::Duration)
        ensures
            r == duration_of_secs(match duration_spec(trimmed(self.metadata.refresh_interval@)) {
                Ok(secs) => secs,
                Err(_) => 300,
            }),
    {
        match parse_duration(self.metadata.refresh_interval.as_str()) {
            Ok(d) => d,
            Err(_) => seconds(300),
        }
    }

    /// The timeout of metadata requests; 10 s where the setting does not read.
    pub fn get_request_timeout(&self) -> (r: std::time::Duration)
        ensures
            r == duration_of_secs(match duration_spec(trimmed(self.metadata.request_timeout@)) {
                Ok(secs) => secs,
                Err(_) => 10,
            }),
    {
        match parse_duration(self.metadata.request_timeout.as_str()) {
            Ok(d) => d,
            Err(_) => seconds(10),
        }
    }

    /// The watchdog's interval; 30 s where the setting does not read.
    pub fn get_watchdog_interval(&self) -> (r: std::time::Duration)
        ensures
            r == duration_of_secs(match duration_spec(trimmed(self.security.watchdog.interval@)) {
                Ok(secs) => secs,
                Err(_) => 30,
            }),
    {
        match parse_duration(self.security.watchdog.interval.as_str()) {
            Ok(d) => d,
            Err(_) => seconds(30),
        }
    }

    /// `address:port` of the status server.
    pub fn get_listen_addr(&self) -> (r: String)
        ensures
            r@ == self.server.listen.address@.push(':') + crate::text::decimal_text(self.server.listen.port as nat),
    {
        let mut r = self.server.listen.address.clone();
        push_char(&mut r, ':');
        let port = crate::text::decimal_string(self.server.listen.port as u64);
        r.append(port.as_str());
        r
    }

    /// The supplementary interface names, separated by spaces.
    pub fn get_supplementary_interfaces(&self) -> (r: String)
        ensures
            r@ == crate::text::joined(crate::text::texts(self.network.interfaces.enabled@), seq![' ']),
    {
        proof {
            reveal_strlit(" ");
            assert(" "@ =~= seq![' ']);
        }
        crate::text::join_texts(&self.network.interfaces.enabled, " ")
    }
}

} // verus!
