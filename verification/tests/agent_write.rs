use iedb::agent::buffer::chunk::FieldValue;
use iedb::agent::buffer::Buffer;
use iedb::agent::federation_query::{FederationQueryHandler, QueryStep};
use iedb::agent::status::StatusHandler;
use iedb::agent::flush::scheduler::SnapshotScheduler;
use iedb::agent::wal::wal_core::WalManager;
use iedb::agent::wal::{WalOp, WriteBatch};
use iedb::agent::write::{
    chunk_time_of, count_points, make_batches, write_database, Point, WriteHandler, WriteStep,
};
use iedb::config;
use iedb::config::{Config, DataConfig, FlushConfig, ServerConfig, WalConfig};
use iedb::http::Reply;

fn make_handler(max_body_bytes: usize, max_write_buffer_ops: usize) -> WriteHandler {
    let config = Config {
        server: ServerConfig { host: config::default_host(), port: 0, max_body_bytes },
        data: DataConfig { dir: "/data".to_string() },
        wal: WalConfig { flush_interval_secs: 1, max_write_buffer_ops },
        flush: FlushConfig {
            snapshot_interval: "1s".to_string(),
            backend: config::default_backend(),
            memory_limit: config::default_memory_limit(),
        },
        s3: None,
        agent: None,
        query: None,
        compaction: None,
        agents: None,
        metadata: None,
    };
    let wal = WalManager::new("/data", &config.wal, &vec![], 0);
    WriteHandler { buffer: Buffer::new(), wal, config }
}

const NOW: i64 = 1_700_000_123_000_000_000;

fn post(handler: &mut WriteHandler, query: Option<&str>, body: &[u8]) -> Reply {
    match handler.handle(query, &body.to_vec(), NOW) {
        WriteStep::Reply(reply) => reply,
        WriteStep::Persist { file, rows } => handler.finish(&file, rows, Ok(())),
    }
}

#[test]
fn test_write_applies_rows_with_real_wal_seq() {
    let mut handler = make_handler(1024, 100);
    let resp = post(&mut handler, Some("db=mydb"), b"cpu,host=a usage=1.5");
    assert_eq!(resp.status, 204);

    let table = handler.buffer.get_table("mydb", "cpu").unwrap();
    let min_seq = table.chunks.iter().map(|c| c.min_wal_seq).min().unwrap_or(0);
    assert_eq!(
        min_seq, 1,
        "chunk min_wal_seq must carry the real WAL file seq (first file = 1), got {}",
        min_seq
    );
    assert_eq!(table.chunks[0].rows[0].time, NOW);
    assert_eq!(table.chunks[0].chunk_time, NOW);
}

#[test]
fn test_non_post_returns_405() {
    let handler = make_handler(1024, 100);
    let resp = handler.check_request(false, None).unwrap();
    assert_eq!(resp.status, 405);
    assert_eq!(resp.body, "POST only");
}

#[test]
fn test_content_length_overflow_returns_413() {
    let handler = make_handler(64, 100);
    let resp = handler.check_request(true, Some("1024")).unwrap();
    assert_eq!(resp.status, 413);
    assert!(resp.body.contains("bytes limit"));
    assert_eq!(resp.body, "body exceeds 64 bytes limit");
    assert!(handler.check_request(true, Some("64")).is_none());
    assert!(handler.check_request(true, Some("nonsense")).is_none());
}

#[test]
fn test_actual_body_overflow_returns_413() {
    let mut handler = make_handler(64, 100);
    let big_body = vec![b'a'; 100];
    let resp = post(&mut handler, None, &big_body);
    assert_eq!(resp.status, 413);
}

#[test]
fn test_invalid_utf8_returns_400() {
    let mut handler = make_handler(1024, 100);
    let resp = post(&mut handler, None, &[0xFF, 0xFE, 0x00, 0x00]);
    assert_eq!(resp.status, 400);
    assert_eq!(resp.body, "invalid utf-8");
}

#[test]
fn test_empty_body_returns_204() {
    let mut handler = make_handler(1024, 100);
    let resp = post(&mut handler, Some("db=mydb"), b"");
    assert_eq!(resp.status, 204);
    assert_eq!(resp.body, "0 rows");

    let resp = post(&mut handler, Some("db=mydb"), b"not valid line protocol");
    assert_eq!(resp.status, 204);
    assert_eq!(resp.body, "0 rows");
}

#[test]
fn test_valid_write_stores_rows_and_wal() {
    let mut handler = make_handler(1024, 100);
    let lp = "cpu,host=srv01 cpu=75.5,mem=62.3 1700000000000000000\n";
    let (file, rows) = match handler.handle(Some("db=mydb"), &lp.as_bytes().to_vec(), NOW) {
        WriteStep::Persist { file, rows } => (file, rows),
        WriteStep::Reply(r) => panic!("expected a log file, got {:?}", r),
    };
    assert_eq!(file.path, "/data/wal/00000000000000000001.wal");
    assert_eq!(file.ops.len(), 1);
    assert!(handler.buffer.get_table("mydb", "cpu").is_none(), "the log goes first");
    let resp = handler.finish(&file, rows, Ok(()));
    assert_eq!(resp.status, 204);
    assert_eq!(resp.body, "1 rows");

    let table = handler.buffer.get_table("mydb", "cpu").unwrap();
    assert_eq!(table.schema.tag_keys, vec!["host".to_string()]);
    let fields: Vec<String> = table.schema.field_defs.iter().map(|f| f.name.clone()).collect();
    assert_eq!(fields, vec!["cpu".to_string(), "mem".to_string()]);
    assert_eq!(table.chunks.len(), 1);
    assert_eq!(table.chunks[0].rows.len(), 1);
    assert_eq!(table.chunks[0].rows[0].time, 1700000000000000000);
    assert_eq!(table.chunks[0].rows[0].tag_values, vec!["srv01".to_string()]);
    match &table.chunks[0].rows[0].field_values[0] {
        Some(FieldValue::F64(bits)) => assert!((f64::from_bits(*bits) - 75.5).abs() < 1e-9),
        other => panic!("expected F64(75.5), got {:?}", other),
    }
}

#[test]
fn test_wal_buffer_full_returns_503() {
    let mut handler = make_handler(1024, 1);
    let lp = "cpu,host=srv01 cpu=75.5 1700000000000000000\n\
              cpu,host=srv01 cpu=30.0 1700000001000000000\n";
    let resp = post(&mut handler, Some("db=mydb"), lp.as_bytes());
    assert_eq!(resp.status, 503);
    assert!(resp.body.contains("WAL buffer error"));
    assert!(handler.buffer.get_table("mydb", "cpu").is_none());
}

#[test]
fn time_that_cannot_be_divided() {
    let mut handler = make_handler(64, 100);
    handler.config.flush.snapshot_interval = "0s".to_string();
    assert!(handler.try_handle(Some("db=mydb"), &b"cpu v=1i 5".to_vec(), NOW).is_none());
    assert!(handler.buffer.get_table("mydb", "cpu").is_none());

    let resp = post(&mut handler, None, &[b'a'; 100]);
    assert_eq!(resp.status, 413);
    let resp = post(&mut handler, None, &[0xFF, 0xFE]);
    assert_eq!(resp.status, 400);
    let resp = post(&mut handler, None, b"not valid line protocol");
    assert_eq!((resp.status, resp.body.as_str()), (204, "0 rows"));

    handler.config.flush.snapshot_interval = "1s".to_string();
    assert!(matches!(
        handler.try_handle(Some("db=mydb"), &b"cpu v=1i 5".to_vec(), NOW),
        Some(WriteStep::Persist { rows: 1, .. })
    ));
}

#[test]
fn failed_log_is_told() {
    let mut handler = make_handler(1024, 100);
    match handler.handle(None, &b"cpu v=1i 5".to_vec(), NOW) {
        WriteStep::Persist { file, rows } => {
            let resp = handler.finish(&file, rows, Err("disk full".to_string()));
            assert_eq!(resp.status, 503);
            assert_eq!(
                resp.body,
                "WAL flush error: WAL write error: write WAL 1: disk full"
            );
        }
        WriteStep::Reply(r) => panic!("expected a log file, got {:?}", r),
    }
    assert!(handler.buffer.get_table("default", "cpu").is_none());
}

#[test]
fn lines_of_every_type() {
    let mut handler = make_handler(1024, 100);
    let lp = "m,b=2,a=1 i=-3i,u=4u,t=true,s=\"x y\" 1000000001\nbroken\nm i=5i 1500000000\n";
    let resp = post(&mut handler, Some("db=my%20db"), lp.as_bytes());
    assert_eq!(resp.body, "2 rows");
    let table = handler.buffer.get_table("my db", "m").unwrap();
    let names: Vec<&str> = table.schema.field_defs.iter().map(|f| f.name.as_str()).collect();
    assert!(names.contains(&"i") && names.contains(&"u") && names.contains(&"t"));
    assert_eq!(table.chunks.len(), 1);
    assert_eq!(table.chunks[0].chunk_time, 1_000_000_000);
    let kinds: Vec<String> =
        table.schema.field_defs.iter().map(|f| f.value_type.name().to_string()).collect();
    assert_eq!(kinds, vec!["I64", "U64", "Bool", "String"]);
    let row = &table.chunks[0].rows[0];
    assert!(matches!(row.field_values[0], Some(FieldValue::I64(-3))));
    assert!(matches!(row.field_values[1], Some(FieldValue::U64(4))));
    assert!(matches!(row.field_values[2], Some(FieldValue::Bool(true))));
    match &row.field_values[3] {
        Some(FieldValue::String(s)) => assert_eq!(s, "x y"),
        other => panic!("expected a text, got {:?}", other),
    }
}

#[test]
fn batches_of_given_points() {
    let point = |time: i64| {
        Some(Point {
            measurement: "cpu".to_string(),
            tags: vec![("host".to_string(), "a".to_string())],
            fields: vec![("v".to_string(), FieldValue::I64(1))],
            timestamp: Some(time),
        })
    };
    let lines = vec![point(5), None, point(12), point(7)];
    assert_eq!(count_points(&lines), 3);
    let batches = make_batches(&lines, "db", 10, 99);
    assert_eq!(batches.len(), 2);
    assert_eq!(batches[0].chunk_time, 0);
    assert_eq!(batches[0].rows.len(), 2);
    assert_eq!(batches[1].chunk_time, 10);
    assert_eq!(batches[1].rows.len(), 1);
    assert_eq!(batches[0].tag_keys, vec!["host".to_string()]);
    assert_eq!(chunk_time_of(-5, 10), 0);
    assert_eq!(chunk_time_of(25, 10), 20);
}

#[test]
fn database_of_a_write() {
    assert_eq!(write_database(None), "default");
    assert_eq!(write_database(Some("x=1")), "default");
    assert_eq!(write_database(Some("db=a%2Fb&db=c")), "a/b");
}

#[test]
fn rows_in_memory_for_the_server() {
    let mut handler = make_handler(1024, 100);
    post(&mut handler, Some("db=mydb"), b"cpu v=1i 100\ncpu v=2i 200\n");
    let ask = |query: &str| match FederationQueryHandler::handle(&handler.buffer, query) {
        QueryStep::Reply(r) => (r.status, r.body, None),
        QueryStep::Encode(q) => (200, q.table.clone(), Some((q.db, q.start_ns, q.end_ns))),
    };
    assert_eq!(ask("db=mydb").0, 400);
    assert_eq!(ask("db=mydb").1, "{\"error\":\"missing table param\"}");
    assert_eq!(ask("db=mydb&table=mem").0, 404);
    assert_eq!(ask("table=cpu").0, 404);
    assert_eq!(ask("db=mydb&table=cpu&start=201").0, 204);
    assert_eq!(ask("db=mydb&table=cpu&start=101&end=199").0, 204);
    assert_eq!(
        ask("db=mydb&table=cpu&start=150&end=x"),
        (200, "cpu".to_string(), Some(("mydb".to_string(), Some(150), None)))
    );
    let failed = FederationQueryHandler::encoding_failed("boom");
    assert_eq!(failed.status, 500);
    assert_eq!(failed.body, "{\"error\":\"boom\"}");
}

#[test]
fn status_of_an_agent() {
    let mut handler = make_handler(1024, 100);
    post(&mut handler, Some("db=mydb"), b"cpu,host=a v=1i 1000\ncpu,host=a v=2i 2000\n");
    handler
        .wal
        .buffer_op(WalOp::Write(WriteBatch {
            db_name: "d".to_string(),
            table_name: "t".to_string(),
            chunk_time: 0,
            field_names: vec![],
            tag_keys: vec![],
            rows: vec![],
        }))
        .unwrap();
    let scheduler = SnapshotScheduler::new(handler.config.clone());
    let snapshot = scheduler.last_snapshot_status(0, 0);
    let report = StatusHandler::handle(
        &handler.config,
        &handler.buffer,
        &handler.wal,
        &snapshot,
        None,
    );
    assert_eq!(report.agent_id, "unknown");
    assert_eq!(report.buffer.database_count, 1);
    assert_eq!(report.buffer.total_rows, 2);
    let table = &report.buffer.databases[0].tables[0];
    assert_eq!(table.name, "cpu");
    assert_eq!(table.row_count, 2);
    assert_eq!(table.tag_keys, vec!["host".to_string()]);
    assert_eq!(table.field_defs, vec![("v".to_string(), "I64".to_string())]);
    assert_eq!(report.wal.current_sequence, 2);
    assert_eq!(report.wal.pending_ops, 1);
    assert!(report.snapshot.last_snapshot_at.is_none());
    assert_eq!(report.snapshot.last_upload_status, "ok");
    assert_eq!(report.snapshot.next_snapshot_in_secs, 1);
    assert!(!report.connection.registered);
}
