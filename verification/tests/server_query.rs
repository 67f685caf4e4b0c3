use iedb::config;
use iedb::config::{Config, DataConfig, MetadataConfig, QueryConfig, ServerConfig};
use iedb::frontend::{page_reply, serve};
use iedb::mix::metadata_path;
use iedb::server::federation::{parse_query_mode, FederationOutcome, QueryMode};
use iedb::server::query_engine::{cell_to_json, Cell, CellJson, QueryEngine};
use iedb::server::sql_api::{json_err, status_code_to_str, SqlApiHandler, SqlStep};
use iedb::server::table_provider::TableProvider;
use iedb::server::{bind_address, check_sections, route, ServerRoute};

fn names(list: &[&str]) -> Vec<String> {
    list.iter().map(|n| n.to_string()).collect()
}

#[test]
fn test_query_truncates_at_max_rows() {
    let engine = QueryEngine::new(2, 10);
    let report = engine.report(2, QueryMode::History, None);
    assert_eq!(report.returned_rows, 2);
    assert!(report.truncated);
    assert!(report.message.contains("truncated at 2 rows"));
    assert_eq!(report.message, "result truncated at 2 rows");
}

#[test]
fn test_query_history_default_mode_works_without_federator() {
    let engine = QueryEngine::new(100, 10);
    assert!(!QueryEngine::federates(QueryMode::History, true));
    assert!(!QueryEngine::federates(QueryMode::All, false));
    assert!(QueryEngine::federates(QueryMode::Buffer, true));
    let report = engine.report(3, QueryMode::History, None);
    assert_eq!(report.returned_rows, 3);
    assert!(!report.truncated);
    assert_eq!(report.message, "");
    assert!(report.federation.is_none(), "history mode must not federate");
}

#[test]
fn test_query_times_out() {
    let engine = QueryEngine::new(100, 0);
    assert!(engine.timeout_error().contains("timed out"));
    assert_eq!(QueryEngine::new(1, 30).timeout_error(), "Query timed out after 30s");
}

#[test]
fn test_query_sql_error() {
    assert!(QueryEngine::sql_error("x").contains("SQL error"));
    assert_eq!(QueryEngine::sql_error("x"), "SQL error: x");
    assert_eq!(QueryEngine::execution_error("x"), "Query execution error: x");
}

#[test]
fn agents_that_did_not_answer_are_told() {
    let engine = QueryEngine::new(3, 10);
    let outcome = FederationOutcome { agents_queried: 1, agents_skipped: 2 };
    let report = engine.report(3, QueryMode::All, Some(outcome));
    assert!(report.truncated);
    assert_eq!(report.message, "2 agent(s) unreachable; result may be incomplete");
    let federation = report.federation.unwrap();
    assert_eq!(federation.mode, "all");
    assert_eq!((federation.agents_queried, federation.agents_skipped), (1, 2));
}

#[test]
fn cells_in_a_document() {
    assert!(matches!(cell_to_json(Cell::Null), CellJson::Null));
    assert!(matches!(cell_to_json(Cell::Flag(true)), CellJson::Flag(true)));
    assert!(matches!(cell_to_json(Cell::Int(-5)), CellJson::Int(-5)));
    assert!(matches!(cell_to_json(Cell::UInt(7)), CellJson::UInt(7)));
    assert!(matches!(cell_to_json(Cell::Shown(None)), CellJson::Null));
    let text = |cell: Cell| match cell_to_json(cell) {
        CellJson::Text(s) => s,
        other => panic!("expected a text, got {:?}", other),
    };
    assert_eq!(text(Cell::Text("a".to_string())), "a");
    assert_eq!(text(Cell::Shown(Some("b".to_string()))), "b");
    for v in [f64::INFINITY, f64::NEG_INFINITY, f64::NAN, -f64::NAN] {
        assert_eq!(text(Cell::Float(v.to_bits())), v.to_string());
    }
    for v in [0.0, -0.0, 1.5, f64::MAX, f64::MIN_POSITIVE, 5e-324] {
        match cell_to_json(Cell::Float(v.to_bits())) {
            CellJson::Float(bits) => assert_eq!(bits, v.to_bits()),
            other => panic!("expected a number, got {:?}", other),
        }
    }
}

#[test]
fn test_query_ok() {
    let body = br#"{"sql":"SELECT * FROM metrics.cpu"}"#.to_vec();
    match SqlApiHandler::take_body(&body) {
        SqlStep::Run { sql, mode } => {
            assert_eq!(sql, "SELECT * FROM metrics.cpu");
            assert_eq!(mode, QueryMode::History);
        }
        other => panic!("expected a query, got {:?}", other),
    }
    match SqlApiHandler::finish(QueryMode::History, true, Ok("{\"rows\":[]}".to_string())) {
        SqlStep::Reply(r) => {
            assert_eq!(r.status, 200);
            assert_eq!(r.body, "{\"rows\":[]}");
        }
        other => panic!("expected a reply, got {:?}", other),
    }
}

#[test]
fn test_method_not_allowed() {
    let resp = SqlApiHandler::check_method(false).unwrap();
    assert_eq!(resp.status, 405);
    assert!(resp.body.contains("METHOD_NOT_ALLOWED"));
    assert!(SqlApiHandler::check_method(true).is_none());
}

#[test]
fn test_empty_sql_bad_request() {
    for body in ["{}", "", "no document", "{\"sql\":5}"] {
        match SqlApiHandler::take_body(&body.as_bytes().to_vec()) {
            SqlStep::Reply(r) => {
                assert_eq!(r.status, 400);
                assert!(r.body.contains("BAD_REQUEST"));
            }
            other => panic!("expected a refusal, got {:?}", other),
        }
    }
}

#[test]
fn test_sql_error_422() {
    let result = Err("SQL error: SELEC".to_string());
    match SqlApiHandler::finish(QueryMode::History, true, result) {
        SqlStep::Reply(r) => {
            assert_eq!(r.status, 422);
            assert!(r.body.contains("SQL error"));
            assert_eq!(r.body, "{\"error\":\"SQL error: SELEC\",\"code\":\"UNPROCESSABLE\"}");
        }
        other => panic!("expected a reply, got {:?}", other),
    }
}

#[test]
fn test_mode_param_parsed() {
    assert_eq!(parse_query_mode("buffer"), QueryMode::Buffer);
    assert_eq!(parse_query_mode("all"), QueryMode::All);
    assert_eq!(parse_query_mode("bogus"), QueryMode::History);
    assert_eq!(parse_query_mode(""), QueryMode::History);
    match SqlApiHandler::take_body(&br#"{"sql":"x","mode":"buffer"}"#.to_vec()) {
        SqlStep::Run { mode, .. } => assert_eq!(mode, QueryMode::Buffer),
        other => panic!("expected a query, got {:?}", other),
    }
}

#[test]
fn missing_table_is_looked_for_once() {
    let missing = || Err("SQL error: table 'a.b' not found".to_string());
    assert!(matches!(
        SqlApiHandler::finish(QueryMode::All, true, missing()),
        SqlStep::Retry
    ));
    for (mode, first) in [(QueryMode::All, false), (QueryMode::Buffer, true)] {
        match SqlApiHandler::finish(mode, first, missing()) {
            SqlStep::Reply(r) => assert_eq!(r.status, 422),
            other => panic!("expected a reply, got {:?}", other),
        }
    }
    assert_eq!(status_code_to_str(500), "INTERNAL");
    assert_eq!(json_err(500, "x").body, "{\"error\":\"x\",\"code\":\"INTERNAL\"}");
}

#[test]
fn test_register_all_discovers_tables_and_is_idempotent() {
    let found = vec![("metrics".to_string(), "cpu".to_string())];
    let pending = TableProvider::register_all(&found, &vec![]);
    assert_eq!(pending, found);
    let registered = names(&["metrics.cpu"]);
    assert!(TableProvider::register_all(&found, &registered).is_empty());
}

#[test]
fn test_register_all_missing_dir_is_ok() {
    assert!(TableProvider::register_all(&vec![], &vec![]).is_empty());
}

#[test]
fn test_add_file_registers_parent_table() {
    assert!(TableProvider::add_file("metrics", "cpu", &vec![]));
    assert!(!TableProvider::add_file("metrics", "cpu", &names(&["metrics.cpu"])));
    assert_eq!(TableProvider::qualified("metrics", "cpu"), "metrics.cpu");
    assert_eq!(TableProvider::directory_url("/data/metrics/cpu"), "file:///data/metrics/cpu/");
}

#[test]
fn swaps_of_a_table() {
    let plan = TableProvider::plan_swap("fed3.test", false, &names(&["public"])).unwrap();
    assert!(!plan.remove);
    assert_eq!(plan.new_database.as_deref(), Some("fed3"));
    let plan = TableProvider::plan_swap("fed3.a.b", true, &names(&["fed3"])).unwrap();
    assert!(plan.remove);
    assert!(plan.new_database.is_none());
    assert_eq!(
        TableProvider::plan_swap("plain", true, &vec![]).unwrap_err(),
        "unqualified table name: plain"
    );
}

#[test]
fn routes_of_the_server() {
    assert!(matches!(route(true, "/api/v1/agents/x", true), ServerRoute::Agents));
    match route(false, "/api/v1/agents/x", false) {
        ServerRoute::Reply(r) => {
            assert_eq!(r.status, 404);
            assert_eq!(r.body, "{\"error\":\"not found\",\"code\":\"NOT_FOUND\"}");
        }
        other => panic!("expected nothing, got {:?}", other),
    }
    assert!(matches!(route(false, "/api/v1/ingest/parquet", true), ServerRoute::Ingest));
    assert!(matches!(route(false, "/api/v1/query", true), ServerRoute::Sql));
    assert!(matches!(route(true, "/api/v1/metadata/tables", true), ServerRoute::Metadata));
    match route(true, "/health", true) {
        ServerRoute::Reply(r) => assert_eq!((r.status, r.body.as_str()), (200, "ok")),
        other => panic!("expected a reply, got {:?}", other),
    }
    assert!(matches!(route(true, "/nope", true), ServerRoute::Page));
    match route(false, "/nope", true) {
        ServerRoute::Reply(r) => assert_eq!((r.status, r.body.as_str()), (404, "not found")),
        other => panic!("expected nothing, got {:?}", other),
    }
}

#[test]
fn sections_of_a_server() {
    let mut config = Config {
        server: ServerConfig {
            host: "127.0.0.1".to_string(),
            port: 9000,
            max_body_bytes: config::default_max_body_bytes(),
        },
        data: DataConfig { dir: "/data".to_string() },
        wal: config::default_wal(),
        flush: config::default_flush(),
        s3: None,
        agent: None,
        query: None,
        compaction: None,
        agents: None,
        metadata: None,
    };
    assert_eq!(check_sections(&config).unwrap_err(), "missing [metadata] config section");
    assert_eq!(metadata_path(&config), "/var/lib/iedb/iedb.db");
    config.metadata = Some(MetadataConfig { db_path: "/db".to_string() });
    assert_eq!(check_sections(&config).unwrap_err(), "missing [query] config section");
    assert_eq!(metadata_path(&config), "/db");
    config.query = Some(QueryConfig {
        data_dir: "/data".to_string(),
        query_timeout_secs: config::default_query_timeout(),
        max_rows: config::default_max_rows(),
        max_concurrent_queries: config::default_max_concurrent_queries(),
    });
    assert!(check_sections(&config).is_ok());
    assert_eq!(bind_address(&config.server.host, config.server.port), "127.0.0.1:9000");
}

#[test]
fn pages() {
    let assets = vec![
        ("index.html".to_string(), b"<p>hi</p>".to_vec()),
        ("app.js".to_string(), vec![0x61, 0xff]),
        ("a.css".to_string(), vec![]),
        ("logo.png".to_string(), vec![]),
    ];
    assert_eq!(
        serve("index.html", "/", &assets),
        Some(("<p>hi</p>".to_string(), "text/html; charset=utf-8"))
    );
    assert_eq!(
        serve("index.html", "//app.js", &assets),
        Some(("a\u{fffd}".to_string(), "application/javascript"))
    );
    assert_eq!(serve("index.html", "a.css", &assets).unwrap().1, "text/css");
    assert_eq!(serve("index.html", "/logo.png", &assets).unwrap().1, "application/octet-stream");
    assert_eq!(serve("agent.html", "", &assets), None);
    let (reply, kind) = page_reply(serve("index.html", "/nope", &assets));
    assert_eq!((reply.status, reply.body.as_str(), kind), (404, "not found", None));
}
