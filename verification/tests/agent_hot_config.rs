use iedb::agent::hot_config::HotConfig;
use iedb::config;
use iedb::config::{Config, DataConfig, FlushConfig, ServerConfig, WalConfig};

fn test_config() -> Config {
    Config {
        server: ServerConfig {
            host: config::default_host(),
            port: config::default_port(),
            max_body_bytes: config::default_max_body_bytes(),
        },
        data: DataConfig { dir: "/tmp/iedb-hot-test".to_string() },
        wal: WalConfig { flush_interval_secs: 1, max_write_buffer_ops: 100000 },
        flush: FlushConfig {
            snapshot_interval: "10m".to_string(),
            backend: config::default_backend(),
            memory_limit: "512MB".to_string(),
        },
        s3: None,
        agent: None,
        query: None,
        compaction: None,
        agents: None,
        metadata: None,
    }
}

fn json(text: &str) -> serde_json::Value {
    serde_json::from_str(text).unwrap()
}

#[test]
fn test_from_config_initializes_all_fields() {
    let c = test_config();
    let hot = HotConfig::from_config(&c);
    assert_eq!(hot.snapshot_interval_secs(), 600);
    assert_eq!(hot.memory_limit_bytes(), 512 * 1024 * 1024);
    assert_eq!(hot.wal_flush_interval(), 1);
    assert_eq!(hot.wal_max_buffer_ops(), 100_000);
}

#[test]
fn test_apply_update_changes_all_four_fields() {
    let mut hot = HotConfig::from_config(&test_config());
    let update = json(
        r#"{
            "flush": {"snapshot_interval": "2m", "memory_limit": "256MB"},
            "wal": {"flush_interval_secs": 5, "max_write_buffer_ops": 5000}
        }"#,
    );
    hot.apply_update(&update);
    assert_eq!(hot.snapshot_interval_secs(), 120);
    assert_eq!(hot.memory_limit_bytes(), 256 * 1024 * 1024);
    assert_eq!(hot.wal_flush_interval(), 5);
    assert_eq!(hot.wal_max_buffer_ops(), 5000);
}

#[test]
fn test_apply_update_partial_leaves_others_untouched() {
    let mut hot = HotConfig::from_config(&test_config());
    hot.apply_update(&json(r#"{"flush": {"snapshot_interval": "30s"}}"#));
    assert_eq!(hot.snapshot_interval_secs(), 30);
    assert_eq!(
        hot.memory_limit_bytes(),
        512 * 1024 * 1024,
        "untouched field must keep old value"
    );
    assert_eq!(hot.wal_flush_interval(), 1);
    assert_eq!(hot.wal_max_buffer_ops(), 100_000);
}

#[test]
fn test_apply_update_invalid_values_are_skipped() {
    let mut hot = HotConfig::from_config(&test_config());
    hot.apply_update(&json(
        r#"{
            "flush": {"snapshot_interval": "30s", "memory_limit": "256MB"},
            "wal": {"flush_interval_secs": 7, "max_write_buffer_ops": 7000}
        }"#,
    ));
    assert_eq!(hot.snapshot_interval_secs(), 30);

    hot.apply_update(&json(
        r#"{
            "flush": {"snapshot_interval": "garbage", "memory_limit": ""},
            "wal": {"flush_interval_secs": 0, "max_write_buffer_ops": 0}
        }"#,
    ));
    assert_eq!(hot.snapshot_interval_secs(), 30, "invalid duration must be skipped, not reset");
    assert_eq!(hot.memory_limit_bytes(), 256 * 1024 * 1024, "invalid size must be skipped");
    assert_eq!(hot.wal_flush_interval(), 7, "zero interval must be skipped");
    assert_eq!(hot.wal_max_buffer_ops(), 7000, "zero limit must be skipped");
}

#[test]
fn test_apply_update_missing_sections_are_ignored() {
    let mut hot = HotConfig::from_config(&test_config());
    hot.apply_update(&json(r#"{"other": true}"#));
    assert_eq!(hot.snapshot_interval_secs(), 600);
    assert_eq!(hot.wal_flush_interval(), 1);
}

#[test]
fn updating_twice_changes_nothing_more() {
    let update = json(r#"{"flush": {"snapshot_interval": "3m"}, "wal": {"flush_interval_secs": 9}}"#);
    let mut once = HotConfig::from_config(&test_config());
    once.apply_update(&update);
    let mut twice = once;
    twice.apply_update(&update);
    assert_eq!(once.snapshot_interval_secs(), twice.snapshot_interval_secs());
    assert_eq!(once.memory_limit_bytes(), twice.memory_limit_bytes());
    assert_eq!(once.wal_flush_interval(), twice.wal_flush_interval());
    assert_eq!(once.wal_max_buffer_ops(), twice.wal_max_buffer_ops());
}

#[test]
fn update_ignores_values_of_other_types() {
    let mut hot = HotConfig::from_config(&test_config());
    hot.apply_update(&json(
        r#"{"flush": {"snapshot_interval": 30, "memory_limit": null},
            "wal": {"flush_interval_secs": "5", "max_write_buffer_ops": -1}}"#,
    ));
    assert_eq!(hot.snapshot_interval_secs(), 600);
    assert_eq!(hot.memory_limit_bytes(), 512 * 1024 * 1024);
    assert_eq!(hot.wal_flush_interval(), 1);
    assert_eq!(hot.wal_max_buffer_ops(), 100_000);
}
