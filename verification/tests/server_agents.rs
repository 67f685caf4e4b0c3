use iedb::agent::buffer::chunk::{Chunk, FieldType, Row, Table};
use iedb::mix::{agent_port, note_local_flush, parse_run_mode, RunMode};
use iedb::server::agent_api::{AgentApiHandler, AgentReply};
use iedb::server::agent_store::AgentStore;
use iedb::server::metadata_store::MetadataStore;

fn request(
    store: &mut AgentStore,
    metadata: &mut MetadataStore,
    method: &str,
    path: &str,
    body: &str,
    now_ms: i64,
) -> AgentReply {
    AgentApiHandler::handle(store, metadata, method, path, &body.as_bytes().to_vec(), now_ms)
}

fn status(reply: &AgentReply) -> u16 {
    match reply {
        AgentReply::Text(r) => r.status,
        _ => 200,
    }
}

#[test]
fn test_register_and_get() {
    let mut store = AgentStore::new();
    let mut meta = MetadataStore::new();

    let resp = request(
        &mut store,
        &mut meta,
        "POST",
        "/api/v1/agents/register",
        r#"{"id":"agent-01","hostname":"edge-01","arch":"armv7","version":"0.1.0","listen_addr":"192.168.0.230:18080"}"#,
        1000,
    );
    match &resp {
        AgentReply::Registered { agent_id, config_version, .. } => {
            assert_eq!(agent_id, "agent-01");
            assert_eq!(*config_version, 1);
        }
        _ => panic!("the agent is registered"),
    }

    let resp = request(
        &mut store,
        &mut meta,
        "POST",
        "/api/v1/agents/register",
        r#"{"hostname":"x"}"#,
        1000,
    );
    assert_eq!(status(&resp), 400);

    match request(&mut store, &mut meta, "GET", "/api/v1/agents/agent-01", "", 1000) {
        AgentReply::Agent(a) => {
            assert_eq!(a.id, "agent-01");
            assert_eq!(a.hostname, "edge-01");
        }
        _ => panic!("the agent is known"),
    }

    match request(&mut store, &mut meta, "GET", "/api/v1/agents/nope", "", 1000) {
        AgentReply::Text(r) => {
            assert_eq!(r.status, 404);
            assert!(r.body.contains("NOT_FOUND"));
        }
        _ => panic!("the agent is not known"),
    }
}

#[test]
fn test_list_and_heartbeat() {
    let mut store = AgentStore::new();
    let mut meta = MetadataStore::new();
    for body in [
        r#"{"id":"a1","hostname":"h1","listen_addr":"10.0.0.1:8080"}"#,
        r#"{"id":"a2","hostname":"h2","listen_addr":"10.0.0.2:8080"}"#,
    ] {
        request(&mut store, &mut meta, "POST", "/api/v1/agents/register", body, 1000);
    }

    match request(&mut store, &mut meta, "GET", "/api/v1/agents", "", 2000) {
        AgentReply::Agents(agents) => {
            assert_eq!(agents.len(), 2);
            assert!(agents.iter().all(|a| a.status == "online" || a.status == "unknown"));
            assert_eq!(agents[0].last_seen.as_deref(), Some("1970-01-01T00:00:01+00:00"));
        }
        _ => panic!("the agents are listed"),
    }
    match request(&mut store, &mut meta, "GET", "/api/v1/agents", "", 31_001) {
        AgentReply::Agents(agents) => assert!(agents.iter().all(|a| a.status == "offline")),
        _ => panic!("the agents are listed"),
    }

    let resp = request(
        &mut store,
        &mut meta,
        "POST",
        "/api/v1/agents/heartbeat",
        r#"{"id":"a1","config_version":1}"#,
        3000,
    );
    assert!(matches!(resp, AgentReply::Beat { config_update: None }));

    let resp = request(
        &mut store,
        &mut meta,
        "POST",
        "/api/v1/agents/heartbeat",
        r#"{"id":"ghost"}"#,
        3000,
    );
    assert_eq!(status(&resp), 404);
}

#[test]
fn test_update_config_then_heartbeat_picks_it_up() {
    let mut store = AgentStore::new();
    let mut meta = MetadataStore::new();
    request(
        &mut store,
        &mut meta,
        "POST",
        "/api/v1/agents/register",
        r#"{"id":"a1","hostname":"h1","listen_addr":"10.0.0.1:8080"}"#,
        1000,
    );

    let resp = request(
        &mut store,
        &mut meta,
        "PUT",
        "/api/v1/agents/a1/config",
        r#"{"batch":1024}"#,
        1000,
    );
    assert!(matches!(resp, AgentReply::ConfigSet { target_version: 2 }));

    let beat = |store: &mut AgentStore, meta: &mut MetadataStore, body: &str| {
        match request(store, meta, "POST", "/api/v1/agents/heartbeat", body, 2000) {
            AgentReply::Beat { config_update } => config_update,
            _ => panic!("the heartbeat is taken"),
        }
    };
    let update = beat(&mut store, &mut meta, r#"{"id":"a1","config_version":1}"#);
    let expected: serde_json::Value = serde_json::from_str(r#"{"batch":1024}"#).unwrap();
    assert_eq!(update, Some(expected));

    let update = beat(&mut store, &mut meta, r#"{"id":"a1","config_version":2}"#);
    assert_eq!(update, None);

    let resp = request(&mut store, &mut meta, "DELETE", "/api/v1/agents/a1", "", 1000);
    assert_eq!(status(&resp), 200);
    let resp = request(&mut store, &mut meta, "GET", "/api/v1/agents/a1", "", 1000);
    assert_eq!(status(&resp), 404);
}

#[test]
fn heartbeat_merges_the_schema() {
    let mut store = AgentStore::new();
    let mut meta = MetadataStore::new();
    store.register("a1", "h1", "x86", "1.0", "10.0.0.1:8080", 1000);
    request(
        &mut store,
        &mut meta,
        "POST",
        "/api/v1/agents/heartbeat",
        r#"{"id":"a1","config_version":1,"schema_changes":[{"db":"m","table":"cpu",
            "tag_keys":["host"],"field_defs":[["usage","F64"],["broken"]]}]}"#,
        2000,
    );
    let detail = meta.get_table("m", "cpu").unwrap();
    assert_eq!(detail.tag_keys, vec!["host".to_string()]);
    assert_eq!(detail.fields.len(), 1);
    assert_eq!(detail.fields[0].name, "usage");
    assert_eq!(detail.fields[0].value_type, "F64");
    assert_eq!(detail.sources, vec!["a1".to_string()]);
    assert_eq!(meta.list_table_agents("m", "cpu"), vec!["a1".to_string()]);
    assert!(meta.list_table_agents("m", "mem").is_empty());

    request(&mut store, &mut meta, "DELETE", "/api/v1/agents/a1", "", 1000);
    assert!(meta.get_table("m", "cpu").unwrap().sources.is_empty());
}

#[test]
fn test_register_and_heartbeat() {
    let mut store = AgentStore::new();
    let agent = store.register("agent-01", "edge-01", "armv7", "0.1.0", "192.168.0.230:18080", 10);
    assert_eq!(agent.id, "agent-01");
    assert_eq!(agent.hostname, "edge-01");
    assert!(agent.last_seen_at.is_some());

    assert!(store.heartbeat("agent-01", 1, 20));
    let agent2 = store.get("agent-01").unwrap();
    assert!(agent2.last_seen_at.unwrap() >= agent.last_seen_at.unwrap());
    assert!(!store.heartbeat("nobody", 1, 20));

    let agent3 =
        store.register("agent-01", "edge-01-v2", "armv7", "0.1.1", "192.168.0.230:18080", 30);
    assert_eq!(agent3.version.as_deref(), Some("0.1.1"));
    assert_eq!(agent3.registered_at, 30);
}

#[test]
fn test_list_and_delete() {
    let mut store = AgentStore::new();
    store.register("a1", "h1", "x86", "1.0", "10.0.0.1:8080", 1);
    store.register("a2", "h2", "arm", "1.0", "10.0.0.2:8080", 1);

    let list = store.list();
    assert_eq!(list.len(), 2);

    store.delete("a1");
    let list2 = store.list();
    assert_eq!(list2.len(), 1);
}

#[test]
fn test_config_versions() {
    let mut store = AgentStore::new();
    store.register("a1", "h1", "x86", "1.0", "10.0.0.1:8080", 1);
    assert!(store.should_update_config("a1", 0).unwrap());
    assert!(!store.should_update_config("a1", 1).unwrap());

    let v = store.update_config("a1", "{\"batch\": 1024}").unwrap();
    assert_eq!(v, 2);
    assert!(store.should_update_config("a1", 1).unwrap());
    assert!(!store.should_update_config("a1", 2).unwrap());

    let agent = store.get("a1").unwrap();
    assert_eq!(agent.config_json.as_deref(), Some("{\"batch\": 1024}"));
    assert!(store.update_config("nobody", "{}").is_err());
    assert!(store.should_update_config("nobody", 0).is_err());
    assert_eq!(store.get("nobody").unwrap_err(), "get agent: Query returned no rows");
}

#[test]
fn local_flush_reaches_the_metadata() {
    let mut table = Table::new("cpu");
    table.schema.ensure_tag_key("host");
    let _ = table.schema.ensure_field("usage", FieldType::F64);
    let mut chunk = Chunk::new(0);
    for time in [300, 100, 200] {
        chunk.insert(Row { time, tag_values: vec![], field_values: vec![] }, 1);
    }
    table.chunks.push(chunk);
    let mut meta = MetadataStore::new();
    assert!(note_local_flush(&mut meta, "m", "cpu", &table.schema, &table.chunks, 77));
    let flushed = table.chunks.clone();
    table.chunks.push(Chunk::new(600));
    table.chunks[1].insert(Row { time: 700, tag_values: vec![], field_values: vec![] }, 1);
    assert!(note_local_flush(&mut meta, "m", "cpu", &table.schema, &flushed, 78));
    let detail = meta.get_table("m", "cpu").unwrap();
    assert_eq!(detail.row_count, 6);
    assert_eq!(detail.time_min, Some(100));
    assert_eq!(detail.time_max, Some(300));
    assert_eq!(detail.updated_at, Some(78));
    assert_eq!(detail.tag_keys, vec!["host".to_string()]);
    assert_eq!(detail.fields[0].value_type, "F64");

    let empty = Table::new("none");
    assert!(note_local_flush(&mut meta, "m", "none", &empty.schema, &empty.chunks, 79));
    let detail = meta.get_table("m", "none").unwrap();
    assert_eq!((detail.time_min, detail.time_max, detail.row_count), (Some(0), Some(0), 0));
}

#[test]
fn modes_of_a_process() {
    assert_eq!(parse_run_mode("agent"), Ok(RunMode::Agent));
    assert_eq!(parse_run_mode("server"), Ok(RunMode::Server));
    assert_eq!(parse_run_mode("mix"), Ok(RunMode::Mix));
    assert_eq!(
        parse_run_mode("x"),
        Err("Unsupported mode: x. Available modes depend on compiled features.".to_string())
    );
    assert_eq!(agent_port(8080), 8081);
}
