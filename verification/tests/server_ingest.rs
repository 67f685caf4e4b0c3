use iedb::agent::flush::http_upload::build_ingest_url;
use iedb::http::Reply;
use iedb::server::ingest_api::{
    is_safe_segment, json_err, sanitize_filename_part, FileStats, IngestApiHandler, IngestStart,
    IngestStep, IngestTarget, StoreOutcome,
};
use iedb::server::metadata_store::MetadataStore;

const PATH: &str = "/api/v1/ingest/parquet";

fn handler() -> IngestApiHandler {
    IngestApiHandler { data_dir: "/data".to_string(), max_body_bytes: 10 * 1024 * 1024 }
}

/// What the end of a file with three rows tells.
fn stats() -> Option<FileStats> {
    Some(FileStats {
        time_min: 1000,
        time_max: 3000,
        row_count: 3,
        field_defs: vec![("usage".to_string(), "DOUBLE".to_string())],
    })
}

fn accept(h: &IngestApiHandler, query: Option<&str>, agent: &str) -> IngestTarget {
    match h.start("POST", PATH, query, Some(agent), None) {
        IngestStart::Accept(target) => target,
        IngestStart::Reply(r) => panic!("the upload is in order, got {:?}", r),
    }
}

fn path_of(h: &IngestApiHandler, metadata: &MetadataStore, target: &IngestTarget) -> String {
    match h.place(metadata, target, 100, Some(77)) {
        IngestStep::Store { dir, path } => {
            assert!(path.starts_with(&dir));
            path
        }
        IngestStep::Reply(r) => panic!("the upload is stored, got {:?}", r),
    }
}

fn written(metadata: &mut MetadataStore, target: &IngestTarget, outcome: StoreOutcome) -> Reply {
    IngestApiHandler::finish(metadata, target, outcome, &stats(), false, 5)
}

#[test]
fn test_upload_writes_file_and_metadata() {
    let h = handler();
    let mut metadata = MetadataStore::new();
    let target = accept(&h, Some("db=metrics&measurement=cpu"), "agent-1");
    let path = path_of(&h, &metadata, &target);
    assert!(path.starts_with("/data/metrics/cpu/agent-1_") && path.ends_with(".parquet"));

    let resp = written(&mut metadata, &target, StoreOutcome::Written);
    assert_eq!(resp.status, 200);
    assert_eq!(resp.body, "ok");

    let detail = metadata.get_table("metrics", "cpu").unwrap();
    assert_eq!(detail.row_count, 3);
    assert_eq!(detail.time_min, Some(1000));
    assert_eq!(detail.time_max, Some(3000));
    assert_eq!(detail.fields.len(), 1);
    assert_eq!(detail.fields[0].name, "usage");
    assert_eq!(detail.fields[0].value_type, "DOUBLE");
}

#[test]
fn test_upload_uses_chunk_time_in_filename() {
    let h = handler();
    let target = accept(
        &h,
        Some("db=metrics&measurement=cpu&chunk_time=1700000000000000000"),
        "agent-1",
    );
    assert_eq!(
        path_of(&h, &MetadataStore::new(), &target),
        "/data/metrics/cpu/agent-1_1700000000000000000.parquet",
        "filename must use the agent-provided chunk_time"
    );
}

#[test]
fn test_duplicate_upload_is_idempotent() {
    let h = handler();
    let mut metadata = MetadataStore::new();
    let query = Some("db=metrics&measurement=cpu&chunk_time=1700000000000000000");
    let target = accept(&h, query, "agent-1");
    let first_path = path_of(&h, &metadata, &target);
    assert_eq!(written(&mut metadata, &target, StoreOutcome::Written).status, 200);

    let again = accept(&h, query, "agent-1");
    assert_eq!(path_of(&h, &metadata, &again), first_path);
    assert_eq!(written(&mut metadata, &again, StoreOutcome::AlreadyThere).status, 200);

    let detail = metadata.get_table("metrics", "cpu").unwrap();
    assert_eq!(detail.row_count, 3, "duplicate upload must not double-count stats");
}

#[test]
fn test_upload_defaults_db_and_table() {
    let h = handler();
    let mut metadata = MetadataStore::new();
    let target = accept(&h, None, "agent-1");
    let path = path_of(&h, &metadata, &target);
    assert!(path.starts_with("/data/default/unknown/agent-1_") && path.ends_with(".parquet"));
    assert_eq!(written(&mut metadata, &target, StoreOutcome::Written).status, 200);
    let detail = metadata.get_table("default", "unknown").unwrap();
    assert_eq!(detail.row_count, 3);
}

#[test]
fn test_upload_validation() {
    let h = handler();
    let refused = |method: &str, path: &str, query: Option<&str>, length: Option<&str>| {
        match h.start(method, path, query, Some("a1"), length) {
            IngestStart::Reply(r) => r.status,
            IngestStart::Accept(_) => 200,
        }
    };
    assert_eq!(refused("GET", PATH, None, None), 405);
    assert_eq!(refused("POST", "/api/v1/ingest/other", None, None), 404);
    assert_eq!(
        refused("POST", PATH, Some("db=metrics&measurement=..%2F..%2Fevil"), None),
        400
    );
    assert_eq!(refused("POST", PATH, None, Some("10485761")), 413);
    assert_eq!(refused("POST", PATH, None, Some("10485760")), 200);
}

#[test]
fn test_sanitize_filename_part() {
    assert_eq!(sanitize_filename_part("agent-1"), "agent-1");
    assert_eq!(sanitize_filename_part("a/b"), "a_b");
    assert_eq!(sanitize_filename_part("a b"), "a_b");
}

#[test]
fn parts_of_a_path() {
    assert!(is_safe_segment("cpu"));
    for bad in ["", ".", "..", "a/b", "a\\b", "a..b"] {
        assert!(!is_safe_segment(bad), "{:?}", bad);
    }
}

#[test]
fn failures_while_storing() {
    let h = handler();
    let mut metadata = MetadataStore::new();
    let target = accept(&h, Some("db=d&measurement=t"), "a1");
    let resp = written(&mut metadata, &target, StoreOutcome::DirFailed("Read-Only".to_string()));
    assert_eq!(resp.status, 500);
    assert_eq!(resp.body, "{\"error\":\"mkdir: read-only\",\"code\":\"mkdir: Read-Only\"}");
    let resp = written(&mut metadata, &target, StoreOutcome::WriteFailed("x".to_string()));
    assert_eq!(resp.status, 500);
    assert!(metadata.get_table("d", "t").is_none());
    match h.place(&metadata, &target, 10 * 1024 * 1024 + 1, None) {
        IngestStep::Reply(r) => assert_eq!(r.status, 413),
        IngestStep::Store { .. } => panic!("the body is too long"),
    }
    assert_eq!(
        json_err(404, "NOT_FOUND").body,
        "{\"error\":\"not_found\",\"code\":\"NOT_FOUND\"}"
    );
}

#[test]
fn registered_agent_is_a_source() {
    let h = handler();
    let mut metadata = MetadataStore::new();
    let target = accept(&h, Some("db=d&measurement=t&chunk_time=1"), "a1");
    IngestApiHandler::finish(&mut metadata, &target, StoreOutcome::Written, &None, true, 5);
    let detail = metadata.get_table("d", "t").unwrap();
    assert_eq!(detail.sources, vec!["a1".to_string()]);
    assert_eq!(detail.row_count, 0);
}

#[test]
fn upload_is_read_back_by_the_server() {
    let url = build_ingest_url("http://server", "my db", "caf\u{e9}", Some(-12));
    let query = url.split_once('?').unwrap().1;
    let target = accept(&handler(), Some(query), "x");
    assert_eq!(target.db, "my db");
    assert_eq!(target.table, "caf\u{e9}");
    assert_eq!(target.chunk_time, Some(-12));
}
