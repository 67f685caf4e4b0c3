use iedb::agent::buffer::chunk::{FieldType, FieldValue, Row};
use iedb::agent::buffer::Buffer;
use iedb::agent::flush::scheduler::hand_off;
use iedb::agent::hot_config::HotConfig;
use iedb::agent::wal::wal_core::{
    apply_write_batch, cleanup_files, flush_and_apply, log_file_seq, max_wal_seq, replay,
    replay_files, WalError, WalManager,
};
use iedb::agent::wal::{WalOp, WriteBatch};
use iedb::config;
use iedb::config::{Config, DataConfig, FlushConfig, ServerConfig, WalConfig};

fn float(v: f64) -> Option<FieldValue> {
    Some(FieldValue::F64(v.to_bits()))
}

fn texts(names: &[&str]) -> Vec<String> {
    names.iter().map(|n| n.to_string()).collect()
}

fn row(time: i64, tags: &[&str], fields: Vec<Option<FieldValue>>) -> Row {
    Row { time, tag_values: texts(tags), field_values: fields }
}

fn batch(chunk_time: i64, fields: &[&str], tags: &[&str], rows: Vec<Row>) -> WriteBatch {
    WriteBatch {
        db_name: "testdb".to_string(),
        table_name: "cpu".to_string(),
        chunk_time,
        field_names: texts(fields),
        tag_keys: texts(tags),
        rows,
    }
}

fn manager(limit: usize) -> WalManager {
    let config = WalConfig { flush_interval_secs: 1, max_write_buffer_ops: limit };
    WalManager::new("/data", &config, &vec![], 0)
}

#[test]
fn test_buffer_op_respects_hot_limit() {
    let mut wm = manager(100);
    let hot_cfg = Config {
        server: ServerConfig {
            host: config::default_host(),
            port: 0,
            max_body_bytes: config::default_max_body_bytes(),
        },
        data: DataConfig { dir: "/data".to_string() },
        wal: WalConfig {
            flush_interval_secs: config::default_wal_flush_interval(),
            max_write_buffer_ops: 100,
        },
        flush: FlushConfig {
            snapshot_interval: "10m".to_string(),
            backend: config::default_backend(),
            memory_limit: "512MB".to_string(),
        },
        s3: None,
        agent: None,
        query: None,
        compaction: None,
        agents: None,
        metadata: None,
    };
    let mut hot = HotConfig::from_config(&hot_cfg);
    hot.apply_update(&serde_json::from_str(r#"{"wal": {"max_write_buffer_ops": 1}}"#).unwrap());
    wm.set_hot_config(hot);

    assert!(wm.buffer_op(WalOp::Noop).is_ok(), "first op under hot limit 1");
    assert!(
        matches!(wm.buffer_op(WalOp::Noop), Err(WalError::BufferFull(_))),
        "second op must be rejected by the hot limit"
    );
}

#[test]
fn test_seq_does_not_restart_after_full_drain() {
    let config = WalConfig { flush_interval_secs: 1, max_write_buffer_ops: 100 };

    let mut wm1 = WalManager::new("/data", &config, &vec![], 0);
    wm1.buffer_op(WalOp::Noop).unwrap();
    let file = wm1.begin_flush().unwrap();
    let name1 = file.path.rsplit('/').next().unwrap().to_string();
    wm1.finish_flush(Ok(())).unwrap();
    assert_eq!(cleanup_files(&vec![name1.clone()], 1), vec![name1]);

    let mut wm2 = WalManager::new("/data", &config, &vec![], 1);
    assert!(
        wm2.current_sequence() > 1,
        "seq must not restart below the flushed watermark, got {}",
        wm2.current_sequence()
    );
    wm2.buffer_op(WalOp::Noop).unwrap();
    let file = wm2.begin_flush().unwrap();
    let name2 = file.path.rsplit('/').next().unwrap().to_string();
    wm2.finish_flush(Ok(())).unwrap();

    assert_eq!(replay_files(&vec![name2.clone()], 1), vec![(2, name2.clone())]);
    let wm3 = WalManager::new("/data", &config, &vec![name2], 1);
    assert!(
        wm3.current_sequence() > wm2.current_sequence() || wm3.current_sequence() >= 2,
        "sequence must keep advancing across restarts, got {}",
        wm3.current_sequence()
    );
}

#[test]
fn test_flush_and_apply_tracks_file_seq() {
    let mut wal = manager(100);
    let mut buffer = Buffer::new();

    for i in 0..2 {
        wal.buffer_op(WalOp::Write(WriteBatch {
            db_name: "db1".to_string(),
            table_name: "tbl1".to_string(),
            chunk_time: i,
            field_names: texts(&["v"]),
            tag_keys: vec![],
            rows: vec![row(100 * (i + 1), &[], vec![Some(FieldValue::I64(i + 1))])],
        }))
        .unwrap();
        let file = wal.begin_flush().unwrap();
        let n = flush_and_apply(&mut wal, &mut buffer, &file, Ok(())).unwrap();
        assert_eq!(n, 1);
    }

    let table = buffer.get_table("db1", "tbl1").unwrap();
    assert_eq!(table.chunks.len(), 2);
    let seqs: Vec<(i64, u64)> =
        table.chunks.iter().map(|c| (c.chunk_time, c.min_wal_seq)).collect();
    assert_eq!(seqs, vec![(0, 1), (1, 2)], "chunk wal seqs must match their WAL files exactly");
}

#[test]
fn test_buffer_op_count_and_limit() {
    let mut wm = manager(5);
    for i in 0..5 {
        assert!(wm.buffer_op(WalOp::Noop).is_ok(), "op {} should succeed", i);
    }
    assert_eq!(wm.op_count, 5);
    assert_eq!(wm.pending_ops.len(), 5);

    let result = wm.buffer_op(WalOp::Noop);
    assert!(result.is_err());
    match result {
        Err(WalError::BufferFull(n)) => assert_eq!(n, 5),
        _ => panic!("expected BufferFull, got {:?}", result),
    }
    assert_eq!(wm.op_count, 5);
    assert_eq!(wm.pending_ops.len(), 5);
}

#[test]
fn test_flush_resets_op_count_and_can_buffer_again() {
    let mut wm = manager(5);
    for _ in 0..5 {
        wm.buffer_op(WalOp::Noop).unwrap();
    }
    assert_eq!(wm.op_count, 5);

    let file = wm.begin_flush().unwrap();
    assert_eq!(file.ops.len(), 5);
    wm.finish_flush(Ok(())).unwrap();
    assert_eq!(wm.op_count, 0);
    assert!(wm.pending_ops.is_empty());

    assert!(wm.buffer_op(WalOp::Noop).is_ok());
    assert_eq!(wm.op_count, 1);
    assert_eq!(wm.pending_ops.len(), 1);
    assert_eq!(wm.pending_ops_count(), 1);
}

#[test]
fn test_flush_empty_buffer_returns_empty_vec() {
    let mut wm = manager(100);
    assert!(wm.begin_flush().is_none());
    assert_eq!(wm.current_sequence(), 1);
}

#[test]
fn test_apply_write_batch_creates_table_in_buffer() {
    let mut buffer = Buffer::new();
    let batch = batch(0, &["cpu"], &["host"], vec![row(100, &["srv01"], vec![float(0.5)])]);

    apply_write_batch(&mut buffer, &batch, 1);

    assert!(buffer.get_table("testdb", "cpu").is_some());
    let table = buffer.get_table("testdb", "cpu").unwrap();
    assert_eq!(table.name, "cpu");
}

#[test]
fn test_apply_write_batch_inserts_rows_into_correct_chunk() {
    let mut buffer = Buffer::new();
    let batch = batch(
        42,
        &["cpu"],
        &["host"],
        vec![row(100, &["srv01"], vec![float(0.5)]), row(200, &["srv02"], vec![float(0.8)])],
    );

    apply_write_batch(&mut buffer, &batch, 5);

    let table = buffer.get_table("testdb", "cpu").unwrap();
    assert_eq!(table.chunks.len(), 1);
    assert_eq!(table.chunks[0].chunk_time, 42);
    assert_eq!(table.chunks[0].row_count(), 2);
    assert_eq!(table.chunks[0].rows[0].time, 100);
    assert_eq!(table.chunks[0].rows[1].time, 200);

    assert_eq!(table.chunks[0].min_wal_seq, 5);
    assert_eq!(table.chunks[0].max_wal_seq, 5);
}

#[test]
fn test_apply_write_batch_evolves_schema_from_row_fields() {
    let mut buffer = Buffer::new();
    let batch = batch(
        0,
        &["cpu", "count", "online"],
        &["host", "region"],
        vec![row(
            100,
            &["srv01", "us-east"],
            vec![float(0.5), Some(FieldValue::I64(100)), Some(FieldValue::Bool(true))],
        )],
    );

    apply_write_batch(&mut buffer, &batch, 1);

    let table = buffer.get_table("testdb", "cpu").unwrap();
    assert_eq!(table.schema.field_defs.len(), 3);
    assert_eq!(table.schema.field_defs[0].name, "cpu");
    assert_eq!(table.schema.field_defs[0].value_type, FieldType::F64);
    assert_eq!(table.schema.field_defs[1].name, "count");
    assert_eq!(table.schema.field_defs[1].value_type, FieldType::I64);
    assert_eq!(table.schema.field_defs[2].name, "online");
    assert_eq!(table.schema.field_defs[2].value_type, FieldType::Bool);

    assert_eq!(table.schema.tag_keys.len(), 2);
    assert_eq!(table.schema.tag_keys, vec!["host", "region"]);
}

#[test]
fn test_apply_write_batch_builds_tag_index() {
    let mut buffer = Buffer::new();
    let batch = batch(
        0,
        &[],
        &["host"],
        vec![
            row(100, &["srv01"], vec![]),
            row(200, &["srv02"], vec![]),
            row(300, &["srv01"], vec![]),
        ],
    );

    apply_write_batch(&mut buffer, &batch, 1);

    let table = buffer.get_table("testdb", "cpu").unwrap();
    let chunk = &table.chunks[0];
    assert_eq!(chunk.tag_index.get("host", "srv01").unwrap(), &vec![0, 2]);
    assert_eq!(chunk.tag_index.get("host", "srv02").unwrap(), &vec![1]);
    assert!(chunk.tag_index.get("host", "srv03").is_none());
}

#[test]
fn test_apply_write_batch_multiple_batches_same_table() {
    let mut buffer = Buffer::new();
    let batch1 = batch(0, &["usage"], &["host"], vec![row(100, &["srv01"], vec![float(0.5)])]);
    let batch2 = batch(10, &["usage"], &["host"], vec![row(200, &["srv02"], vec![float(0.8)])]);

    apply_write_batch(&mut buffer, &batch1, 1);
    apply_write_batch(&mut buffer, &batch2, 2);

    let table = buffer.get_table("testdb", "cpu").unwrap();
    assert_eq!(table.chunks.len(), 2);
    assert_eq!(table.chunks[0].chunk_time, 0);
    assert_eq!(table.chunks[1].chunk_time, 10);
    assert_eq!(table.chunks[0].row_count(), 1);
    assert_eq!(table.chunks[1].row_count(), 1);
}

#[test]
fn test_apply_write_batch_tag_index_chunk_absolute_indices() {
    let mut buffer = Buffer::new();
    let batch1 = batch(
        0,
        &["usage"],
        &["host"],
        vec![
            row(100, &["srv01"], vec![float(0.5)]),
            row(200, &["srv02"], vec![float(0.6)]),
            row(300, &["srv01"], vec![float(0.7)]),
        ],
    );
    apply_write_batch(&mut buffer, &batch1, 1);

    let batch2 = batch(
        0,
        &["usage"],
        &["host"],
        vec![row(400, &["srv03"], vec![float(0.8)]), row(500, &["srv01"], vec![float(0.9)])],
    );
    apply_write_batch(&mut buffer, &batch2, 2);

    let table = buffer.get_table("testdb", "cpu").unwrap();
    assert_eq!(table.chunks.len(), 1);
    let chunk = &table.chunks[0];
    assert_eq!(chunk.row_count(), 5);

    assert_eq!(chunk.tag_index.get("host", "srv01").unwrap(), &vec![0, 2, 4]);
    assert_eq!(chunk.tag_index.get("host", "srv02").unwrap(), &vec![1]);
    assert_eq!(chunk.tag_index.get("host", "srv03").unwrap(), &vec![3]);
}

#[test]
fn failed_flush_keeps_the_number() {
    let mut wal = manager(100);
    let mut buffer = Buffer::new();
    wal.buffer_op(WalOp::Write(batch(0, &[], &[], vec![row(1, &[], vec![])]))).unwrap();
    let file = wal.begin_flush().unwrap();
    assert_eq!(file.path, "/data/wal/00000000000000000001.wal");
    let err = flush_and_apply(&mut wal, &mut buffer, &file, Err("disk full".to_string()));
    assert_eq!(err.unwrap_err().message(), "WAL write error: write WAL 1: disk full");
    assert_eq!(wal.current_sequence(), 1);
    assert!(buffer.get_table("testdb", "cpu").is_none());
    assert_eq!(WalError::BufferFull(7).message(), "WAL buffer full with 7 ops");
}

#[test]
fn log_files_by_their_names() {
    let names = texts(&[
        "00000000000000000007.wal",
        "3.wal",
        "x.wal",
        "00000000000000000005.tmp",
        "00000000000000000004.wal",
    ]);
    assert_eq!(log_file_seq("00000000000000000007.wal"), Some(7));
    assert_eq!(log_file_seq("7.log"), None);
    assert_eq!(max_wal_seq(&names), Some(7));
    assert_eq!(max_wal_seq(&vec![]), None);
    assert_eq!(
        replay_files(&names, 3),
        vec![
            (4, "00000000000000000004.wal".to_string()),
            (7, "00000000000000000007.wal".to_string()),
        ]
    );
    assert_eq!(cleanup_files(&names, 4), texts(&["3.wal", "00000000000000000004.wal"]));
}

#[test]
fn replay_gives_the_buffer_of_the_run() {
    let mut wal = manager(100);
    let mut buffer = Buffer::new();
    let mut files: Vec<(u64, Vec<WalOp>)> = vec![];
    for i in 0..3 {
        let op = batch(i, &["v"], &["host"], vec![row(i, &["a"], vec![float(0.5)])]);
        wal.buffer_op(WalOp::Write(op.clone())).unwrap();
        wal.buffer_op(WalOp::Noop).unwrap();
        let file = wal.begin_flush().unwrap();
        flush_and_apply(&mut wal, &mut buffer, &file, Ok(())).unwrap();
        files.push((file.seq, vec![WalOp::Write(op), WalOp::Noop]));
    }
    let mut again = Buffer::new();
    replay(&mut again, &files);
    assert_eq!(format!("{:?}", again), format!("{:?}", buffer));
}

#[test]
fn rows_in_memory_survive_a_crash() {
    let mut wal = manager(100);
    let mut buffer = Buffer::new();
    let mut files: Vec<(u64, Vec<WalOp>)> = vec![];
    for (i, chunk) in [0, 60, 0, 60].into_iter().enumerate() {
        let time = chunk + i as i64;
        let op = batch(chunk, &["v"], &[], vec![row(time, &[], vec![float(0.5)])]);
        wal.buffer_op(WalOp::Write(op.clone())).unwrap();
        let file = wal.begin_flush().unwrap();
        flush_and_apply(&mut wal, &mut buffer, &file, Ok(())).unwrap();
        files.push((file.seq, vec![WalOp::Write(op)]));
    }

    let through = hand_off(&mut buffer, "testdb", "cpu", &vec![0], wal.current_sequence());
    assert_eq!(through, 1, "the second file holds a row that stays in memory");
    files.retain(|f| f.0 > through);

    let mut again = Buffer::new();
    replay(&mut again, &files);
    let chunks = &again.get_table("testdb", "cpu").unwrap().chunks;
    let stayed = chunks.iter().find(|c| c.chunk_time == 60).unwrap();
    let times: Vec<i64> = stayed.rows.iter().map(|r| r.time).collect();
    assert_eq!(times, vec![61, 63]);

    let through = hand_off(&mut buffer, "testdb", "cpu", &vec![60], wal.current_sequence());
    assert_eq!(through, 4, "nothing stays in memory, so every file may go");
}

#[test]
fn log_over_many_calls() {
    let mut wal = manager(2);
    let mut buffer = Buffer::new();
    let mut written: Vec<(String, Vec<WalOp>)> = vec![];
    let mut flushes = 0;
    for (i, outcome) in [Ok(()), Err("disk full".to_string()), Ok(())].into_iter().enumerate() {
        assert!(wal.begin_flush().is_none(), "nothing waits");
        assert_eq!(wal.current_sequence(), 1 + flushes);
        let op = batch(60, &["v"], &["host"], vec![row(i as i64, &["a"], vec![float(0.5)])]);
        assert!(wal.buffer_op(WalOp::Noop).is_ok());
        assert!(wal.buffer_op(WalOp::Write(op.clone())).is_ok());
        assert!(wal.buffer_op(WalOp::Noop).is_err());
        assert_eq!(wal.pending_ops_count(), 2);
        let file = wal.begin_flush().unwrap();
        assert_eq!(wal.pending_ops_count(), 0);
        if flush_and_apply(&mut wal, &mut buffer, &file, outcome).is_ok() {
            flushes += 1;
            let name = file.path.rsplit('/').next().unwrap().to_string();
            written.insert(0, (name, vec![WalOp::Noop, WalOp::Write(op)]));
        }
        assert_eq!(wal.current_sequence(), 1 + flushes);
    }
    assert_eq!(flushes, 2);

    let mut names: Vec<String> = written.iter().map(|f| f.0.clone()).collect();
    names.push("notes.txt".to_string());
    let mut files: Vec<(u64, Vec<WalOp>)> = vec![];
    for (seq, name) in replay_files(&names, 0) {
        let found = written.iter().find(|f| f.0 == name).unwrap();
        files.push((seq, found.1.clone()));
    }
    let mut again = Buffer::new();
    replay(&mut again, &files);
    assert_eq!(format!("{:?}", again), format!("{:?}", buffer));
}
