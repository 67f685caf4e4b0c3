use iedb::agent::buffer::chunk::{Chunk, FieldType, FieldValue, Row};
use iedb::agent::buffer::Buffer;
use iedb::agent::flush::http_upload::{
    build_ingest_url, staged_chunk_time, staging_path, upload_result, UploadError,
};
use iedb::agent::flush::scheduler::{
    compute_end_time_marker, hand_off, plan_upload, safe_wal_seq, select_chunk_times, RetryTally,
    SnapshotAction, SnapshotEvent, SnapshotRun, SnapshotScheduler, StagedEntry, UploadPlan,
};
use iedb::agent::hot_config::HotConfig;
use iedb::agent::wal::wal_core::{cleanup_files, WalManager};
use iedb::agent::wal::{WalOp, WriteBatch};
use iedb::config;
use iedb::config::{
    AgentClientConfig, Config, DataConfig, FlushConfig, S3Config, ServerConfig, WalConfig,
};

fn base_config(dir: &str) -> Config {
    Config {
        server: ServerConfig {
            host: config::default_host(),
            port: 8080,
            max_body_bytes: config::default_max_body_bytes(),
        },
        data: DataConfig { dir: dir.to_string() },
        wal: WalConfig { flush_interval_secs: 1, max_write_buffer_ops: 100_000 },
        flush: FlushConfig {
            snapshot_interval: "10m".to_string(),
            backend: "http".to_string(),
            memory_limit: "512MB".to_string(),
        },
        s3: None,
        agent: Some(AgentClientConfig {
            id: "test-agent".to_string(),
            server_url: "http://127.0.0.1:9".to_string(),
        }),
        query: None,
        compaction: None,
        agents: None,
        metadata: None,
    }
}

fn json(text: &str) -> serde_json::Value {
    serde_json::from_str(text).unwrap()
}

#[test]
fn test_staging_save_creates_correct_directory_structure() {
    let path = staging_path("/tmp/staging", "metrics_db", "cpu_usage", 1700000000000000000);
    assert!(path.starts_with("/tmp/staging/metrics_db/cpu_usage"));
    assert!(path.ends_with(".parquet"));
    assert_eq!(path, "/tmp/staging/metrics_db/cpu_usage/1700000000000000000.parquet");
}

#[test]
fn test_staging_save_multiple_files() {
    let path1 = staging_path("/tmp/staging", "mydb", "table_a", 1700000000000000000);
    let path2 = staging_path("/tmp/staging", "mydb", "table_b", 1700000060000000000);
    assert!(path1.contains("table_a"));
    assert!(path2.contains("table_b"));
    assert_ne!(path1, path2);
}

#[test]
fn test_staging_save_same_chunk_time_overwrites_same_file() {
    let path1 = staging_path("/tmp/staging", "db", "tbl", 1700000000000000000);
    let path2 = staging_path("/tmp/staging", "db", "tbl", 1700000000000000000);
    assert_eq!(path1, path2);
}

#[test]
fn test_staging_save_different_chunk_time_different_files() {
    let path1 = staging_path("/tmp/staging", "db", "tbl", 1700000000000000000);
    let path2 = staging_path("/tmp/staging", "db", "tbl", 1700000060000000000);
    assert_ne!(path1, path2);
    assert_eq!(path1.rsplit('/').next().unwrap(), "1700000000000000000.parquet");
    assert_eq!(path2.rsplit('/').next().unwrap(), "1700000060000000000.parquet");
}

#[test]
fn test_ingest_url_includes_chunk_time() {
    let url = build_ingest_url("http://server:8080", "mydb", "cpu", Some(1700000000000000000));
    assert!(url.contains("/api/v1/ingest/parquet?"));
    assert!(url.contains("db=mydb"));
    assert!(url.contains("measurement=cpu"));
    assert!(url.contains("chunk_time=1700000000000000000"));
}

#[test]
fn test_ingest_url_without_chunk_time_for_backward_compat() {
    let url = build_ingest_url("http://server:8080/", "mydb", "cpu", None);
    assert!(!url.contains("chunk_time"));
    assert!(url.starts_with("http://server:8080/api/v1/ingest/parquet?"));
}

#[test]
fn ingest_url_encodes_names() {
    assert_eq!(
        build_ingest_url("http://h//", "my db", "a/b\u{e9}", Some(-5)),
        "http://h/api/v1/ingest/parquet?db=my+db&measurement=a%2Fb%C3%A9&chunk_time=-5"
    );
}

#[test]
fn staged_names_are_read_back() {
    assert_eq!(staged_chunk_time("123.parquet"), Some(123));
    assert_eq!(staged_chunk_time("-9223372036854775808.parquet"), Some(i64::MIN));
    assert_eq!(staged_chunk_time("9223372036854775808.parquet"), None);
    assert_eq!(staged_chunk_time("20260809_052051_190585464.parquet"), None);
    assert_eq!(staged_chunk_time("123.txt"), None);
}

#[test]
fn upload_outcomes() {
    assert!(upload_result(Ok((200, "ok".to_string()))).is_ok());
    assert!(upload_result(Ok((299, String::new()))).is_ok());
    match upload_result(Ok((500, "boom".to_string()))) {
        Err(e) => {
            assert_eq!(e.message(), "server error 500: boom");
            assert_eq!(e.reason(), "HTTP 500 boom");
            assert!(matches!(e, UploadError::ServerError { status: 500, .. }));
        }
        Ok(()) => panic!("a status of 500 is no success"),
    }
    match upload_result(Err("refused".to_string())) {
        Err(e) => {
            assert_eq!(e.message(), "HTTP error: refused");
            assert_eq!(e.reason(), "refused");
        }
        Ok(()) => panic!("no answer is no success"),
    }
}

#[test]
fn test_end_time_marker_10m_interval() {
    let marker = compute_end_time_marker(1_200_000_000_000, 600);
    assert_eq!(marker, 600_000_000_000);

    let marker = compute_end_time_marker(1_800_000_000_000, 600);
    assert_eq!(marker, 1_200_000_000_000);

    let marker = compute_end_time_marker(590_000_000_000, 600);
    assert_eq!(marker, 0);
}

#[test]
fn test_end_time_marker_60s_interval() {
    let marker = compute_end_time_marker(120_000_000_000, 60);
    assert_eq!(marker, 60_000_000_000);

    let marker = compute_end_time_marker(200_000_000_000, 60);
    assert_eq!(marker, 120_000_000_000);
}

fn push_chunk(buffer: &mut Buffer, chunk_time: i64, time: i64) {
    let table = buffer.get_or_create_table("testdb", "cpu");
    let mut c = Chunk::new(chunk_time);
    c.rows.push(Row { time, tag_values: vec![], field_values: vec![] });
    table.chunks.push(c);
}

#[test]
fn test_chunk_collection_only_selects_before_marker() {
    let mut buffer = Buffer::new();
    push_chunk(&mut buffer, 100_000_000_000, 100);
    push_chunk(&mut buffer, 500_000_000_000, 500);
    push_chunk(&mut buffer, 900_000_000_000, 900);

    let end_time_marker: i64 = 600_000_000_000;
    let selected = select_chunk_times(buffer.get_table("testdb", "cpu").unwrap(), end_time_marker);
    assert_eq!(selected.len(), 2);
    assert_eq!(selected, vec![100_000_000_000, 500_000_000_000]);
}

#[test]
fn test_chunk_collection_none_if_all_after_marker() {
    let mut buffer = Buffer::new();
    push_chunk(&mut buffer, 800_000_000_000, 800);
    push_chunk(&mut buffer, 900_000_000_000, 900);

    let end_time_marker: i64 = 600_000_000_000;
    let selected = select_chunk_times(buffer.get_table("testdb", "cpu").unwrap(), end_time_marker);
    assert!(selected.is_empty());
}

/// A buffer with one chunk of three rows from the log file 1, and the log behind it.
fn buffered() -> (Buffer, WalManager) {
    let mut buffer = Buffer::new();
    let table = buffer.get_or_create_table("db1", "tbl1");
    let _ = table.schema.ensure_field("v", FieldType::F64);
    let chunk = table.get_or_create_chunk(0);
    for i in 1..=3i64 {
        chunk.insert(
            Row {
                time: i * 100,
                tag_values: vec![],
                field_values: vec![Some(FieldValue::F64((i as f64).to_bits()))],
            },
            i as u64,
        );
    }
    let config = WalConfig { flush_interval_secs: 1, max_write_buffer_ops: 100_000 };
    let mut wal = WalManager::new("/data", &config, &vec![], 0);
    for _ in 0..3 {
        wal.buffer_op(WalOp::Write(WriteBatch {
            db_name: "db1".to_string(),
            table_name: "tbl1".to_string(),
            chunk_time: 0,
            field_names: vec!["v".to_string()],
            tag_keys: vec![],
            rows: vec![],
        }))
        .unwrap();
    }
    let file = wal.begin_flush().unwrap();
    assert_eq!(file.seq, 1);
    wal.finish_flush(Ok(())).unwrap();
    (buffer, wal)
}

#[test]
fn test_failed_upload_stages_removes_chunk_and_cleans_wal() {
    let (mut buffer, wal) = buffered();
    let mut scheduler = SnapshotScheduler::new(base_config("/data"));
    let marker = compute_end_time_marker(1_200_000_000_000, 600);
    let mut run = SnapshotRun::begin(&buffer, marker);
    let seq = wal.current_sequence();

    let chunks = match run.step(&mut scheduler, &mut buffer, seq, 5, SnapshotEvent::Next) {
        SnapshotAction::Encode { chunks } => chunks,
        _ => panic!("the chunk has to be encoded first"),
    };
    assert_eq!(chunks.len(), 1);
    assert_eq!(chunks[0].rows.len(), 3);
    match run.step(&mut scheduler, &mut buffer, seq, 5, SnapshotEvent::Encoded(Ok(77))) {
        SnapshotAction::Upload { plan: UploadPlan::Http { url, agent_id } } => {
            assert!(url.contains("chunk_time=0"));
            assert_eq!(agent_id, "test-agent");
        }
        _ => panic!("encoded chunks are uploaded"),
    }
    let event = SnapshotEvent::Uploaded(Err("HTTP 500 boom".to_string()));
    match run.step(&mut scheduler, &mut buffer, seq, 5, event) {
        SnapshotAction::Stage { path } => assert_eq!(path, "/data/staging/db1/tbl1/0.parquet"),
        _ => panic!("a failed upload is staged"),
    }
    assert_eq!(buffer.get_table("db1", "tbl1").unwrap().chunks.len(), 1);
    match run.step(&mut scheduler, &mut buffer, seq, 5, SnapshotEvent::Staged(Ok(()))) {
        SnapshotAction::SaveMeta { through } => assert_eq!(through, 1),
        _ => panic!("what is staged is noted"),
    }
    assert!(buffer.get_table("db1", "tbl1").unwrap().chunks.is_empty());
    match run.step(&mut scheduler, &mut buffer, seq, 5, SnapshotEvent::MetaSaved(Ok(()))) {
        SnapshotAction::CleanLog { through } => {
            assert_eq!(through, 1);
            let names = vec!["00000000000000000001.wal".to_string()];
            assert_eq!(cleanup_files(&names, through), names);
        }
        _ => panic!("the log is cleaned at the end"),
    }
    assert!(matches!(
        run.step(&mut scheduler, &mut buffer, seq, 5, SnapshotEvent::LogCleaned),
        SnapshotAction::Continue
    ));
    assert!(matches!(
        run.step(&mut scheduler, &mut buffer, seq, 5, SnapshotEvent::Next),
        SnapshotAction::Done { flushed: 0 }
    ));
    assert!(!scheduler.last_snapshot.upload_ok);
}

#[test]
fn staging_failure_keeps_the_chunk() {
    let (mut buffer, wal) = buffered();
    let mut scheduler = SnapshotScheduler::new(base_config("/data"));
    let mut run = SnapshotRun::begin(&buffer, 600_000_000_000);
    let seq = wal.current_sequence();
    run.step(&mut scheduler, &mut buffer, seq, 5, SnapshotEvent::Next);
    run.step(&mut scheduler, &mut buffer, seq, 5, SnapshotEvent::Encoded(Ok(77)));
    run.step(&mut scheduler, &mut buffer, seq, 5, SnapshotEvent::Uploaded(Err("x".to_string())));
    run.step(&mut scheduler, &mut buffer, seq, 5, SnapshotEvent::Staged(Err("full".to_string())));
    assert_eq!(buffer.get_table("db1", "tbl1").unwrap().chunks.len(), 1);
}

#[test]
fn successful_upload_counts_the_table() {
    let (mut buffer, wal) = buffered();
    let mut scheduler = SnapshotScheduler::new(base_config("/data"));
    let mut run = SnapshotRun::begin(&buffer, 600_000_000_000);
    let seq = wal.current_sequence();
    assert!(run.waits_for(&SnapshotEvent::Next));
    assert!(!run.waits_for(&SnapshotEvent::LogCleaned));
    run.step(&mut scheduler, &mut buffer, seq, 5, SnapshotEvent::Next);
    run.step(&mut scheduler, &mut buffer, seq, 5, SnapshotEvent::Encoded(Ok(77)));
    run.step(&mut scheduler, &mut buffer, seq, 5, SnapshotEvent::Uploaded(Ok(())));
    run.step(&mut scheduler, &mut buffer, seq, 5, SnapshotEvent::MetaSaved(Ok(())));
    run.step(&mut scheduler, &mut buffer, seq, 5, SnapshotEvent::LogCleaned);
    assert!(matches!(
        run.step(&mut scheduler, &mut buffer, seq, 5, SnapshotEvent::Next),
        SnapshotAction::Done { flushed: 1 }
    ));
    assert!(scheduler.last_snapshot.upload_ok);
    assert_eq!(scheduler.last_snapshot.last_at, Some(5));
    assert_eq!(scheduler.last_snapshot.last_size_bytes, 77);
    assert!(buffer.get_table("db1", "tbl1").unwrap().chunks.is_empty());
}

#[test]
fn chunks_that_leave_were_encoded() {
    let (mut buffer, wal) = buffered();
    let mut scheduler = SnapshotScheduler::new(base_config("/data"));
    let mut run = SnapshotRun::begin(&buffer, 600_000_000_000);
    let seq = wal.current_sequence();
    let row = |time: i64| Row { time, tag_values: vec![], field_values: vec![] };
    let encoded = match run.step(&mut scheduler, &mut buffer, seq, 5, SnapshotEvent::Next) {
        SnapshotAction::Encode { chunks } => chunks,
        _ => panic!("the chunk has to be encoded first"),
    };
    let table = buffer.get_or_create_table("db1", "tbl1");
    table.get_or_create_chunk(700_000_000_000).insert(row(700_000_000_000), 1);
    let before = table.chunks.clone();
    run.step(&mut scheduler, &mut buffer, seq, 5, SnapshotEvent::Encoded(Ok(77)));
    run.step(&mut scheduler, &mut buffer, seq, 5, SnapshotEvent::Uploaded(Ok(())));
    let after = &buffer.get_table("db1", "tbl1").unwrap().chunks;
    assert_eq!(after.len(), 1);
    assert_eq!(after[0].chunk_time, 700_000_000_000);
    let left: Vec<i64> = before[0].rows.iter().map(|r| r.time).collect();
    let copied: Vec<i64> = encoded[0].rows.iter().map(|r| r.time).collect();
    assert_eq!(left, copied);
}

#[test]
fn log_files_of_kept_chunks_stay() {
    let (mut buffer, _wal) = buffered();
    let table = buffer.get_or_create_table("db1", "tbl1");
    table.get_or_create_chunk(700).insert(
        Row { time: 700, tag_values: vec![], field_values: vec![] },
        4,
    );
    assert_eq!(safe_wal_seq(&buffer, 9), 0);
    assert_eq!(hand_off(&mut buffer, "db1", "tbl1", &vec![0], 9), 3);
    assert_eq!(buffer.get_table("db1", "tbl1").unwrap().chunks.len(), 1);
    assert_eq!(hand_off(&mut buffer, "db1", "tbl1", &vec![700], 9), 8);
}

#[test]
fn test_current_values_follow_hot_config() {
    let mut scheduler = SnapshotScheduler::new(base_config("/data"));
    assert_eq!(scheduler.current_snapshot_interval(), 600);
    assert_eq!(scheduler.current_memory_limit(), 512 * 1024 * 1024);

    let mut hot = HotConfig::from_config(&scheduler.config);
    hot.apply_update(&json(
        r#"{"flush": {"snapshot_interval": "30s", "memory_limit": "256MB"}}"#,
    ));
    scheduler.hot = Some(hot);
    assert_eq!(scheduler.current_snapshot_interval(), 30);
    assert_eq!(scheduler.current_memory_limit(), 256 * 1024 * 1024);

    hot.apply_update(&json(r#"{"flush": {"snapshot_interval": "2m"}}"#));
    scheduler.hot = Some(hot);
    assert_eq!(scheduler.current_snapshot_interval(), 120);

    let status = scheduler.last_snapshot_status(7, 1_000_000);
    assert!(
        status.next_in_secs <= 120 && status.next_in_secs >= 0,
        "next_snapshot_in_secs must follow the hot interval, got {}",
        status.next_in_secs
    );
    assert_eq!(status.next_in_secs, 113);
}

#[test]
fn turns_of_the_scheduler() {
    let scheduler = SnapshotScheduler::new(base_config("/data"));
    let limit: usize = 512 * 1024 * 1024;
    let turn = scheduler.plan_turn(6, 0, 599);
    assert!(turn.retry_staging && !turn.snapshot && !turn.forced);
    let turn = scheduler.plan_turn(7, 0, 600);
    assert!(!turn.retry_staging && turn.snapshot && !turn.forced);
    let turn = scheduler.plan_turn(7, limit, 0);
    assert!(turn.snapshot && turn.forced);
}

#[test]
fn test_staging_retry_uploads_and_deletes_on_success() {
    let scheduler = SnapshotScheduler::new(base_config("/data"));
    let entries = vec![StagedEntry {
        db: "db1".to_string(),
        table: "tbl1".to_string(),
        name: "123.parquet".to_string(),
    }];
    let uploads = scheduler.retry_staging(&entries);
    assert_eq!(uploads.len(), 1, "one staging file must be retried");
    match &uploads[0].plan {
        UploadPlan::Http { url, .. } => {
            assert!(url.contains("chunk_time=123"), "retry must pass chunk_time, got: {}", url);
            assert!(url.contains("db=db1") && url.contains("measurement=tbl1"));
        }
        _ => panic!("the http backend uploads to the server"),
    }
    let mut tally = RetryTally { delivered: 0 };
    assert!(tally.record(&Ok(())), "staging file must be deleted after successful upload");
    assert_eq!(tally.delivered, 1);
}

#[test]
fn test_staging_retry_skips_unrecognized_filenames() {
    let scheduler = SnapshotScheduler::new(base_config("/data"));
    let entries = vec![
        StagedEntry {
            db: "db1".to_string(),
            table: "tbl1".to_string(),
            name: "20260809_052051_190585464.parquet".to_string(),
        },
        StagedEntry {
            db: "db1".to_string(),
            table: "tbl1".to_string(),
            name: "123.parquet".to_string(),
        },
    ];
    let uploads = scheduler.retry_staging(&entries);
    assert_eq!(uploads.len(), 1, "only the chunk_time-named file is retried");
    assert_eq!(uploads[0].name, "123.parquet");
    assert_eq!(uploads[0].chunk_time, 123);
}

#[test]
fn test_staging_retry_keeps_file_on_failure() {
    let mut tally = RetryTally { delivered: 0 };
    assert!(!tally.record(&Err("HTTP 500 boom".to_string())), "staging file must be kept");
    assert_eq!(tally.delivered, 0, "failed retry must not count as retried");
}

#[test]
fn upload_plans_follow_the_backend() {
    let mut config = base_config("/data");
    config.flush.backend = "local".to_string();
    match plan_upload(&config, "db", "t", 42, 7) {
        UploadPlan::Local { path } => assert_eq!(path, "/data/db/t/local_42.parquet"),
        _ => panic!("the local backend writes a file"),
    }
    config.flush.backend = "s3".to_string();
    match plan_upload(&config, "db", "t", 42, 7) {
        UploadPlan::Refused { reason } => assert_eq!(reason, "S3 config missing"),
        _ => panic!("s3 needs its section"),
    }
    config.s3 = Some(S3Config {
        bucket: "b".to_string(),
        region: "r".to_string(),
        endpoint: "e".to_string(),
        access_key: "a".to_string(),
        secret_key: "s".to_string(),
    });
    match plan_upload(&config, "db", "t", 42, 7) {
        UploadPlan::S3 { agent_id, time_min } => {
            assert_eq!(agent_id, "test-agent");
            assert_eq!(time_min, 7);
        }
        _ => panic!("the s3 backend uploads to the bucket"),
    }
}
