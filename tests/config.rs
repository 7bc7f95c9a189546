use cloud_netconfig::conf::{duration_seconds, parse_duration, Config, ConfError, LogLevel};
use cloud_netconfig::parser::{parse_mac, parse_port, ParseError};
use std::time::Duration;

#[test]
fn test_parse_duration() {
    assert_eq!(parse_duration("300s").unwrap(), Duration::from_secs(300));
    assert_eq!(parse_duration("5m").unwrap(), Duration::from_secs(300));
    assert_eq!(parse_duration("1h").unwrap(), Duration::from_secs(3600));
    assert_eq!(parse_duration("1d").unwrap(), Duration::from_secs(86400));
}

#[test]
fn test_default_config() {
    let config = Config::default();
    assert_eq!(config.logging.level, "info");
    assert_eq!(config.server.listen.port, 5209);
    assert_eq!(config.network.routing.table_base, 9999);
}

#[test]
fn test_parse_mac() {
    assert_eq!(parse_mac("001122334455"), "00:11:22:33:44:55");
}

#[test]
fn duration_trims_surrounding_space() {
    assert_eq!(parse_duration("  2m \n").unwrap(), Duration::from_secs(120));
}

#[test]
fn duration_errors() {
    assert_eq!(parse_duration(""), Err(ConfError::EmptyDuration));
    assert_eq!(parse_duration("   "), Err(ConfError::EmptyDuration));
    assert_eq!(parse_duration("10x"), Err(ConfError::InvalidDurationUnit));
    assert_eq!(parse_duration("s"), Err(ConfError::InvalidDurationNumber));
    assert_eq!(parse_duration("1.5h"), Err(ConfError::InvalidDurationNumber));
    assert_eq!(parse_duration("18446744073709551615d"), Err(ConfError::DurationTooLong));
}

#[test]
fn duration_seconds_exact() {
    assert_eq!(duration_seconds("+7s"), Ok(7));
    assert_eq!(duration_seconds("007m"), Ok(420));
    assert_eq!(duration_seconds("2d"), Ok(172800));
    assert_eq!(duration_seconds("18446744073709551615s"), Ok(u64::MAX));
    assert_eq!(duration_seconds("18446744073709551616s"), Err(ConfError::InvalidDurationNumber));
}

#[test]
fn validate_checks_durations_and_port() {
    let mut config = Config::default();
    assert_eq!(config.validate(), Ok(()));
    config.server.listen.port = 0;
    assert_eq!(config.validate(), Err(ConfError::InvalidPort));
    config.metadata.request_timeout = "10 seconds".to_string();
    assert_eq!(config.validate(), Err(ConfError::InvalidDurationNumber));
    config.metadata.request_timeout = "10w".to_string();
    assert_eq!(config.validate(), Err(ConfError::InvalidDurationUnit));
}

#[test]
fn getters_fall_back_to_defaults() {
    let mut config = Config::default();
    assert_eq!(config.get_refresh_duration(), Duration::from_secs(300));
    assert_eq!(config.get_request_timeout(), Duration::from_secs(10));
    assert_eq!(config.get_watchdog_interval(), Duration::from_secs(30));
    config.metadata.refresh_interval = "1h".to_string();
    config.metadata.request_timeout = "bogus".to_string();
    config.security.watchdog.interval = "".to_string();
    assert_eq!(config.get_refresh_duration(), Duration::from_secs(3600));
    assert_eq!(config.get_request_timeout(), Duration::from_secs(10));
    assert_eq!(config.get_watchdog_interval(), Duration::from_secs(30));
}

#[test]
fn log_level_ignores_case() {
    let mut config = Config::default();
    assert_eq!(config.get_log_level(), LogLevel::Info);
    config.logging.level = "DEBUG".to_string();
    assert_eq!(config.get_log_level(), LogLevel::Debug);
    config.logging.level = "Warning".to_string();
    assert_eq!(config.get_log_level(), LogLevel::Warn);
    config.logging.level = "loud".to_string();
    assert_eq!(config.get_log_level(), LogLevel::Info);
}

#[test]
fn listen_addr_and_supplementary_interfaces() {
    let mut config = Config::default();
    assert_eq!(config.get_listen_addr(), "127.0.0.1:5209");
    assert_eq!(config.get_supplementary_interfaces(), "");
    config.network.interfaces.enabled = vec!["eth1".to_string(), "eth2".to_string()];
    config.server.listen.port = 80;
    assert_eq!(config.get_supplementary_interfaces(), "eth1 eth2");
    assert_eq!(config.get_listen_addr(), "127.0.0.1:80");
}

#[test]
fn port_parsing() {
    assert_eq!(parse_port("5209"), Ok(5209));
    assert_eq!(parse_port("+80"), Ok(80));
    assert_eq!(parse_port("65535"), Ok(65535));
    assert_eq!(parse_port("65536"), Err(ParseError::InvalidPort));
    assert_eq!(parse_port(""), Err(ParseError::InvalidPort));
    assert_eq!(parse_port("80a"), Err(ParseError::InvalidPort));
}

#[test]
fn mac_formatting_edges() {
    assert_eq!(parse_mac(""), "");
    assert_eq!(parse_mac("a"), "a");
    assert_eq!(parse_mac("abc"), "ab:c");
}

#[test]
fn duration_trims_unicode_white_space() {
    assert_eq!(parse_duration("\u{3000}5m\u{a0}\t").unwrap(), Duration::from_secs(300));
    assert_eq!(parse_duration("\u{200b}5m"), Err(ConfError::InvalidDurationNumber));
}
