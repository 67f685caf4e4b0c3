use iedb::config;
use iedb::config::{
    parse_bytes, parse_bytes_opt, parse_duration, parse_duration_opt, AgentClientConfig, Config,
    DataConfig, ServerConfig,
};

fn default_config() -> Config {
    Config {
        server: ServerConfig {
            host: config::default_host(),
            port: config::default_port(),
            max_body_bytes: config::default_max_body_bytes(),
        },
        data: DataConfig { dir: config::default_data_dir() },
        wal: config::default_wal(),
        flush: config::default_flush(),
        s3: None,
        agent: None,
        query: None,
        compaction: None,
        agents: None,
        metadata: None,
    }
}

#[test]
fn test_parse_duration_values() {
    assert_eq!(parse_duration("10m"), 600);
    assert_eq!(parse_duration("60s"), 60);
    assert_eq!(parse_duration("5m"), 300);
    assert_eq!(parse_duration("90s"), 90);
}

#[test]
fn test_parse_duration_unknown_returns_default() {
    assert_eq!(parse_duration("abc"), 600);
    assert_eq!(parse_duration(""), 600);
}

#[test]
fn test_parse_bytes_values() {
    assert_eq!(parse_bytes("512MB"), 536_870_912);
    assert_eq!(parse_bytes("1GB"), 1_073_741_824);
    assert_eq!(parse_bytes("256MB"), 268_435_456);
    assert_eq!(parse_bytes("2GB"), 2_147_483_648);
}

#[test]
fn test_parse_bytes_unknown_returns_default() {
    assert_eq!(parse_bytes("abc"), 536_870_912);
    assert_eq!(parse_bytes(""), 536_870_912);
}

#[test]
fn test_default_values_when_fields_missing() {
    let config = default_config();
    assert_eq!(config.flush.snapshot_interval, "10m");
    assert_eq!(config.flush.memory_limit, "512MB");
    assert_eq!(config.flush.backend, "http");
    assert_eq!(config.wal.max_write_buffer_ops, 100_000);
    assert_eq!(config.wal.flush_interval_secs, 1);
    assert_eq!(config.server.port, 8080);
    assert_eq!(config.server.max_body_bytes, 10 * 1024 * 1024);
    assert_eq!(config.max_body_bytes(), 10 * 1024 * 1024);
    assert_eq!(config.data.dir, "/var/lib/iedb-agent");
    assert!(config.agent.is_none());
}

#[test]
fn test_agent_minimal_config() {
    let mut config = default_config();
    config.data.dir = "/tmp/test".to_string();
    config.agent = Some(AgentClientConfig {
        id: "test-agent".to_string(),
        server_url: "http://localhost:8080".to_string(),
    });
    assert_eq!(config.agent.as_ref().unwrap().id, "test-agent");
    assert_eq!(config.agent.as_ref().unwrap().server_url, "http://localhost:8080");
}

#[test]
fn values_that_cannot_be_read() {
    assert_eq!(parse_duration_opt("10m"), Some(600));
    assert_eq!(parse_duration_opt("10h"), None);
    assert_eq!(parse_duration_opt("m"), None);
    assert_eq!(parse_bytes_opt("2GB"), Some(2_147_483_648));
    assert_eq!(parse_bytes_opt("12"), None);
    assert_eq!(parse_bytes_opt("MB"), None);
}

#[test]
fn limits_that_do_not_fit() {
    let mut config = default_config();
    assert!(config.check_limits());
    assert_eq!(config.snapshot_interval_secs(), 600);
    assert_eq!(config.memory_limit_bytes(), 536_870_912);
    config.flush.snapshot_interval = "9223372036854775807m".to_string();
    assert!(!config.check_limits());
    config.flush.snapshot_interval = "2m".to_string();
    config.flush.memory_limit = "18446744073709551615MB".to_string();
    assert!(!config.check_limits());
    config.flush.memory_limit = "256MB".to_string();
    assert!(config.check_limits());
    assert_eq!(config.snapshot_interval_secs(), 120);
    assert_eq!(config.memory_limit_bytes(), 268_435_456);
}
