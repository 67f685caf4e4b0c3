use iedb::agent::buffer::chunk::{Chunk, FieldType, FieldValue, Row};
use iedb::agent::buffer::Buffer;
use iedb::agent::service::{agent_route, listen_address, AgentService, AgentServiceRoute};
use iedb::agent::wal::{WalOp, WriteBatch};
use iedb::agent::{compute_schema_changes, register_sent, AgentClient, SchemaState};
use iedb::config;
use iedb::config::{AgentClientConfig, Config, DataConfig, ServerConfig};

fn plain_config() -> Config {
    Config {
        server: ServerConfig {
            host: config::default_host(),
            port: config::default_port(),
            max_body_bytes: config::default_max_body_bytes(),
        },
        data: DataConfig { dir: "/tmp/iedb".to_string() },
        wal: config::default_wal(),
        flush: config::default_flush(),
        s3: None,
        agent: None,
        query: None,
        compaction: None,
        agents: None,
        metadata: None,
    }
}

fn buffer_with_schema() -> Buffer {
    let mut buffer = Buffer::new();
    let table = buffer.get_or_create_table("mydb", "cpu");
    table.schema.ensure_tag_key("host");
    let _ = table.schema.ensure_field("cpu", FieldType::F64);
    let _ = table.schema.ensure_field("mem", FieldType::F64);

    let mut chunk = Chunk::new(0);
    chunk.rows.push(Row {
        time: 100,
        tag_values: vec!["srv01".to_string()],
        field_values: vec![
            Some(FieldValue::F64(75.5f64.to_bits())),
            Some(FieldValue::F64(62.3f64.to_bits())),
        ],
    });
    table.chunks.push(chunk);
    buffer
}

#[test]
fn test_first_call_reports_all_tables() {
    let buffer = buffer_with_schema();
    let mut last_schema = SchemaState::new();

    let changes = compute_schema_changes(&buffer, &mut last_schema);
    assert_eq!(changes.len(), 1);
    assert_eq!(changes[0].db, "mydb");
    assert_eq!(changes[0].table, "cpu");
    assert_eq!(changes[0].tag_keys, vec!["host".to_string()]);
    assert_eq!(changes[0].field_defs.len(), 2);
    assert!(changes[0].field_defs.iter().any(|(n, t)| n == "cpu" && t == "F64"));
}

#[test]
fn test_unchanged_schema_yields_no_changes() {
    let buffer = buffer_with_schema();
    let mut last_schema = SchemaState::new();

    let _ = compute_schema_changes(&buffer, &mut last_schema);
    let changes2 = compute_schema_changes(&buffer, &mut last_schema);
    assert!(changes2.is_empty(), "unchanged schema should produce no changes");
}

#[test]
fn dots_in_names_mix_no_tables_up() {
    let mut buffer = Buffer::new();
    let _ = buffer.get_or_create_table("a.b", "c");
    let _ = buffer.get_or_create_table("a", "b.c");
    let mut last_schema = SchemaState::new();
    let changes = compute_schema_changes(&buffer, &mut last_schema);
    assert_eq!(changes.len(), 2);
    assert_eq!((changes[0].db.as_str(), changes[0].table.as_str()), ("a.b", "c"));
    assert_eq!((changes[1].db.as_str(), changes[1].table.as_str()), ("a", "b.c"));
    assert!(compute_schema_changes(&buffer, &mut last_schema).is_empty());

    buffer.get_table_mut("a.b", "c").unwrap().schema.ensure_tag_key("host");
    let changes = compute_schema_changes(&buffer, &mut last_schema);
    assert_eq!(changes.len(), 1);
    assert_eq!(changes[0].db, "a.b");
    assert!(compute_schema_changes(&buffer, &mut last_schema).is_empty());
}

#[test]
fn test_detects_new_field() {
    let mut buffer = buffer_with_schema();
    let mut last_schema = SchemaState::new();
    let _ = compute_schema_changes(&buffer, &mut last_schema);

    let _ = buffer
        .get_table_mut("mydb", "cpu")
        .unwrap()
        .schema
        .ensure_field("temp", FieldType::F64);

    let changes = compute_schema_changes(&buffer, &mut last_schema);
    assert_eq!(changes.len(), 1);
    assert!(
        changes[0].field_defs.iter().any(|(n, _)| n == "temp"),
        "should detect new field, got: {:?}",
        changes[0].field_defs
    );
}

#[test]
fn test_detects_new_tag() {
    let mut buffer = buffer_with_schema();
    let mut last_schema = SchemaState::new();
    let _ = compute_schema_changes(&buffer, &mut last_schema);

    buffer.get_table_mut("mydb", "cpu").unwrap().schema.ensure_tag_key("region");

    let changes = compute_schema_changes(&buffer, &mut last_schema);
    assert!(changes.iter().any(|c| c.tag_keys.contains(&"region".to_string())));
}

#[test]
fn test_detects_new_table() {
    let mut buffer = buffer_with_schema();
    let mut last_schema = SchemaState::new();
    let _ = compute_schema_changes(&buffer, &mut last_schema);

    let table = buffer.get_or_create_table("mydb", "mem");
    let _ = table.schema.ensure_field("used", FieldType::F64);

    let changes = compute_schema_changes(&buffer, &mut last_schema);
    assert_eq!(changes.len(), 1);
    assert_eq!(changes[0].table, "mem");
    assert!(changes[0].field_defs.iter().any(|(n, _)| n == "used"));
}

#[test]
fn test_register_requires_agent_config() {
    let client = AgentClient::new(plain_config(), "127.0.0.1:8080".to_string());

    let err = client.register("0.1.0", "host", "x86_64");
    assert!(err.is_err(), "register without [agent] config should fail");
    assert!(err.unwrap_err().contains("missing [agent] config"));

    let err = client.heartbeat(1, Vec::new());
    assert!(err.is_err(), "heartbeat without [agent] config should fail");
}

#[test]
fn requests_name_the_agent() {
    let mut config = plain_config();
    config.agent = Some(AgentClientConfig {
        id: "a1".to_string(),
        server_url: "http://server:8080".to_string(),
    });
    let mut client = AgentClient::new(config, "10.0.0.1:8080".to_string());
    let (url, request) = client.register("0.1.0", "host", "armv7").unwrap();
    assert_eq!(url, "http://server:8080/api/v1/agents/register");
    assert_eq!(request.id, "a1");
    assert_eq!(request.listen_addr, "10.0.0.1:8080");
    let (url, request) = client.heartbeat(3, Vec::new()).unwrap();
    assert_eq!(url, "http://server:8080/api/v1/agents/heartbeat");
    assert_eq!(request.config_version, 3);

    assert!(client.heartbeat_sent(&Ok((503, "503 Service Unavailable".to_string()))).is_err());
    assert_eq!(client.heartbeat_failures, 1);
    assert_eq!(
        client.heartbeat_sent(&Err("refused".to_string())).unwrap_err(),
        "heartbeat request: refused"
    );
    assert_eq!(client.heartbeat_failures, 1);
    assert!(client.heartbeat_sent(&Ok((200, "200 OK".to_string()))).is_ok());
    assert_eq!(client.heartbeat_failures, 0);

    assert!(register_sent(&Ok((200, "200 OK".to_string()))).is_ok());
    assert_eq!(
        register_sent(&Ok((404, "404 Not Found".to_string()))).unwrap_err(),
        "register failed: 404 Not Found"
    );
    assert_eq!(register_sent(&Err("x".to_string())).unwrap_err(), "register request: x");
}

#[test]
fn routes_of_an_agent() {
    assert!(matches!(agent_route("POST", "/write"), AgentServiceRoute::Write));
    assert!(matches!(agent_route("GET", "/query"), AgentServiceRoute::Query));
    assert!(matches!(agent_route("GET", "/api/v1/query/parquet"), AgentServiceRoute::Rows));
    assert!(matches!(agent_route("GET", "/api/v1/status"), AgentServiceRoute::Status));
    assert!(matches!(agent_route("GET", "/"), AgentServiceRoute::Page));
    match agent_route("GET", "/health") {
        AgentServiceRoute::Reply(r) => {
            assert_eq!(r.status, 200);
            assert_eq!(r.body, "ok");
        }
        _ => panic!("health is answered at once"),
    }
    match agent_route("DELETE", "/write") {
        AgentServiceRoute::Reply(r) => {
            assert_eq!(r.status, 404);
            assert_eq!(r.body, "not found");
        }
        _ => panic!("there is nothing to delete"),
    }
    assert_eq!(listen_address(8081), "0.0.0.0:8081");
}

fn agent_config() -> Config {
    let mut config = plain_config();
    config.agent = Some(AgentClientConfig {
        id: "a1".to_string(),
        server_url: "http://server:8080".to_string(),
    });
    config
}

fn one_row(time: i64) -> WalOp {
    WalOp::Write(WriteBatch {
        db_name: "mydb".to_string(),
        table_name: "cpu".to_string(),
        chunk_time: 0,
        rows: vec![Row {
            time,
            tag_values: vec![],
            field_values: vec![Some(FieldValue::I64(time))],
        }],
        field_names: vec!["v".to_string()],
        tag_keys: vec![],
    })
}

fn rows_of(service: &AgentService) -> usize {
    match service.write.buffer.get_table("mydb", "cpu") {
        Some(t) => t.chunks.iter().map(|c| c.rows.len()).sum(),
        None => 0,
    }
}

#[test]
fn agent_reads_its_log_and_goes_on_behind_it() {
    let names = vec!["0000000007.wal".to_string(), "0000000004.wal".to_string()];
    let files = vec![(4, vec![one_row(1), WalOp::Noop]), (7, vec![one_row(2)])];
    let mut service = AgentService::start(plain_config(), &names, 3, &files, None);
    assert_eq!(rows_of(&service), 2);
    assert_eq!(service.write.wal.current_sequence(), 8);
    assert!(service.beat().is_none(), "there is no server to tell");

    assert!(service.begin_flush().is_none());
    service.write.wal.buffer_op(one_row(3)).unwrap();
    let file = service.begin_flush().unwrap();
    assert_eq!((file.seq, file.ops.len()), (8, 1));
    assert_eq!(rows_of(&service), 2, "rows come with their log file");
    assert_eq!(service.finish_flush(&file, Ok(())).unwrap(), 1);
    assert_eq!(rows_of(&service), 3);
    assert_eq!(service.write.wal.current_sequence(), 9);

    service.write.wal.buffer_op(one_row(4)).unwrap();
    let file = service.begin_flush().unwrap();
    assert!(service.finish_flush(&file, Err("disk full".to_string())).is_err());
    assert_eq!(rows_of(&service), 3);
    assert_eq!(service.write.wal.current_sequence(), 9);
}

#[test]
fn agent_tells_its_schemas_once() {
    let config = agent_config();
    let client = AgentClient::new(agent_config(), "10.0.0.1:8080".to_string());
    let files = vec![(1, vec![one_row(1)])];
    let mut service = AgentService::start(config, &vec![], 0, &files, Some(client));
    let (url, request) = service.beat().unwrap().unwrap();
    assert_eq!(url, "http://server:8080/api/v1/agents/heartbeat");
    assert_eq!(request.config_version, 0);
    assert_eq!(request.schema_changes.len(), 1);
    assert_eq!(request.schema_changes[0].field_defs, vec![("v".to_string(), "I64".to_string())]);

    assert!(service.beat_sent(&Ok((200, "200 OK".to_string())), true).is_ok());
    assert_eq!(service.config_version, 1);
    let (_, request) = service.beat().unwrap().unwrap();
    assert_eq!(request.config_version, 1);
    assert!(request.schema_changes.is_empty());

    assert!(service.beat_sent(&Ok((500, "500".to_string())), true).is_err());
    assert_eq!(service.config_version, 1);
    assert_eq!(service.client.as_ref().unwrap().heartbeat_failures, 1);
    assert!(service.beat_sent(&Ok((200, "200 OK".to_string())), false).is_ok());
    assert_eq!(service.config_version, 1);
    assert_eq!(service.client.as_ref().unwrap().heartbeat_failures, 0);
}

#[test]
fn heartbeat_needs_a_name() {
    let client = AgentClient::new(plain_config(), "10.0.0.1:8080".to_string());
    let mut service = AgentService::start(plain_config(), &vec![], 0, &vec![], Some(client));
    assert_eq!(service.beat().unwrap().unwrap_err(), "missing [agent] config");
}
