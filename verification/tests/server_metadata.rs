use iedb::server::agent_store::AgentStore;
use iedb::server::metadata_api::{parse_query_param, MetadataApiHandler, MetadataReply};
use iedb::server::metadata_store::{FileRange, MetadataStore};

fn field(name: &str, kind: &str) -> (String, String) {
    (name.to_string(), kind.to_string())
}

fn seed() -> MetadataStore {
    let mut store = MetadataStore::new();
    store.update_stats(
        "metrics",
        "cpu",
        1000,
        3000,
        10,
        &vec![field("usage", "Float")],
        &vec!["host".to_string()],
        7,
    );
    store.update_stats("metrics", "mem", 500, 2000, 8, &vec![field("used", "Int64")], &vec![], 7);
    store.update_stats("logs", "events", 0, 100, 5, &vec![field("level", "String")], &vec![], 7);
    store
}

fn get(store: &MetadataStore, path: &str, query: Option<&str>) -> MetadataReply {
    MetadataApiHandler::handle(store, "GET", path, query)
}

#[test]
fn test_list_databases() {
    let store = seed();
    match get(&store, "/api/v1/metadata/databases", None) {
        MetadataReply::Databases(names) => assert_eq!(names, vec!["logs", "metrics"]),
        other => panic!("expected the databases, got {:?}", other),
    }
}

#[test]
fn test_list_tables() {
    let store = seed();
    match get(&store, "/api/v1/metadata/tables", Some("db=metrics")) {
        MetadataReply::Tables { database, tables } => {
            assert_eq!(database, "metrics");
            assert_eq!(tables.len(), 2);
            assert_eq!(tables[0].name, "cpu");
            assert_eq!(tables[0].row_count, 10);
            assert_eq!(tables[0].time_min, Some(1000));
            assert_eq!(tables[0].time_max, Some(3000));
            assert_eq!(tables[0].tag_keys, vec!["host".to_string()]);
            assert_eq!(tables[0].field_count, 1);
        }
        other => panic!("expected the tables, got {:?}", other),
    }
    match get(&store, "/api/v1/metadata/tables", Some("db=nope")) {
        MetadataReply::Tables { tables, .. } => assert_eq!(tables.len(), 0),
        other => panic!("expected no tables, got {:?}", other),
    }
}

#[test]
fn test_get_table() {
    let store = seed();
    match get(&store, "/api/v1/metadata/table", Some("db=metrics&table=cpu")) {
        MetadataReply::Table(t) => {
            assert_eq!(t.database, "metrics");
            assert_eq!(t.table, "cpu");
            assert_eq!(t.row_count, 10);
            assert_eq!(t.tag_keys, vec!["host".to_string()]);
            assert_eq!(t.fields[0].name, "usage");
            assert_eq!(t.fields[0].value_type, "Float");
        }
        other => panic!("expected the table, got {:?}", other),
    }
    match get(&store, "/api/v1/metadata/table", Some("db=metrics&table=nope")) {
        MetadataReply::Text(r) => {
            assert_eq!(r.status, 404);
            assert!(r.body.contains("NOT_FOUND"));
        }
        other => panic!("expected nothing, got {:?}", other),
    }
    match get(&store, "/api/v1/metadata/whatever", None) {
        MetadataReply::Text(r) => assert_eq!(r.status, 404),
        other => panic!("expected nothing, got {:?}", other),
    }
}

#[test]
fn test_update_stats_and_list() {
    let mut store = MetadataStore::new();
    store.update_stats(
        "metrics",
        "cpu",
        1000,
        2000,
        10,
        &vec![field("usage", "Float"), field("hostname", "String")],
        &vec!["host".to_string()],
        1,
    );

    let dbs = store.list_databases();
    assert_eq!(dbs, vec!["metrics".to_string()]);

    let tables = store.list_tables("metrics");
    assert_eq!(tables.len(), 1);
    assert_eq!(tables[0].name, "cpu");
    assert_eq!(tables[0].row_count, 10);
    assert_eq!(tables[0].time_min, Some(1000));
    assert_eq!(tables[0].time_max, Some(2000));
    assert_eq!(tables[0].tag_keys, vec!["host".to_string()]);
    assert_eq!(tables[0].field_count, 2);

    store.update_stats(
        "metrics",
        "cpu",
        1500,
        3000,
        5,
        &vec![field("usage", "Float")],
        &vec!["host".to_string()],
        2,
    );

    let detail = store.get_table("metrics", "cpu").unwrap();
    assert_eq!(detail.database, "metrics");
    assert_eq!(detail.table, "cpu");
    assert_eq!(detail.row_count, 15);
    assert_eq!(detail.time_min, Some(1000));
    assert_eq!(detail.time_max, Some(3000));
    assert_eq!(detail.tag_keys, vec!["host".to_string()]);
    assert_eq!(detail.fields.len(), 2);
    assert_eq!(detail.fields[0].name, "hostname");
    assert_eq!(detail.fields[0].value_type, "String");
    assert_eq!(detail.sources, Vec::<String>::new());
    assert!(detail.updated_at.is_some());
}

#[test]
fn test_merge_schema_sources() {
    let mut agents = AgentStore::new();
    agents.register("agent-1", "h1", "x86", "1.0", "unknown", 1);
    agents.register("agent-2", "h2", "arm", "1.0", "unknown", 1);

    let mut store = MetadataStore::new();
    for id in ["agent-1", "agent-2"] {
        let known = agents.get(id).is_ok();
        store.merge_schema(
            "metrics",
            "cpu",
            id,
            known,
            &vec!["host".to_string()],
            &vec![field("usage", "Float")],
        );
    }

    let detail = store.get_table("metrics", "cpu").unwrap();
    assert_eq!(detail.tag_keys, vec!["host".to_string()]);
    assert_eq!(detail.fields.len(), 1);
    assert_eq!(detail.fields[0].name, "usage");
    assert_eq!(detail.fields[0].value_type, "Float");
    assert_eq!(detail.sources, vec!["agent-1".to_string(), "agent-2".to_string()]);

    store.merge_schema("metrics", "cpu", "ghost", false, &vec![], &vec![]);
    store.remove_agent("agent-1");
    assert_eq!(store.get_table("metrics", "cpu").unwrap().sources, vec!["agent-2".to_string()]);
}

#[test]
fn test_get_table_missing() {
    let store = MetadataStore::new();
    assert!(store.get_table("nope", "nope").is_none());
}

#[test]
fn recount_replaces_the_statistics() {
    let mut store = seed();
    let files = vec![
        FileRange { time_min: 5, time_max: 9, row_count: 2 },
        FileRange { time_min: 3, time_max: 7, row_count: 4 },
    ];
    store.recount_table("metrics", "cpu", &files, 8);
    let detail = store.get_table("metrics", "cpu").unwrap();
    assert_eq!((detail.time_min, detail.time_max, detail.row_count), (Some(3), Some(9), 6));
    assert_eq!(detail.fields.len(), 1);
    store.recount_table("metrics", "cpu", &vec![], 9);
    let detail = store.get_table("metrics", "cpu").unwrap();
    assert_eq!((detail.time_min, detail.time_max, detail.row_count), (None, None, 0));
}

#[test]
fn rows_that_fit() {
    let store = seed();
    assert!(store.can_count("metrics", "cpu", 5));
    assert!(!store.can_count("metrics", "cpu", i64::MAX as usize));
    assert!(store.can_count("metrics", "new", i64::MAX as usize));
}

#[test]
fn parameters_of_a_query() {
    assert_eq!(parse_query_param(Some("a=1&b=x+y%21&b=z"), "b").as_deref(), Some("x y!"));
    assert_eq!(parse_query_param(Some("a"), "a").as_deref(), Some(""));
    assert_eq!(parse_query_param(None, "a"), None);
}
