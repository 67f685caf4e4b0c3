use iedb::agent::buffer::chunk::{Chunk, Row};
use iedb::agent::buffer::Buffer;
use iedb::agent::federation_query::{FederationQueryHandler, QueryStep};
use iedb::server::agent_store::AgentStore;
use iedb::server::federation::pass::{FederationPass, PassAction, PassEvent, PassPhase};
use iedb::server::federation::sql::{
    can_parse, parse_statements, tokens_may_panic, Condition, Operator, SetTree, SqlToken,
    StatementTree,
};
use iedb::server::federation::{
    align_columns, build_fetch_url, engine_time_range, extract_table_names, parse_query_mode,
    FederationOutcome, FederationStart, Federator, FetchReply, ProviderStep, QueryMode, TableStep,
};
use iedb::server::metadata_store::MetadataStore;
use std::collections::BTreeMap;

fn pair(db: &str, table: &str) -> (String, String) {
    (db.to_string(), table.to_string())
}

#[test]
fn test_simple_qualified() {
    let t = extract_table_names("SELECT * FROM mydb.cpu").unwrap();
    assert_eq!(t, vec![("mydb".to_string(), "cpu".to_string())]);
}

#[test]
fn test_join_two_tables() {
    let t = extract_table_names("SELECT * FROM a.t1 JOIN b.t2 ON t1.x = t2.x").unwrap();
    assert_eq!(t.len(), 2);
    assert!(t.contains(&("a".to_string(), "t1".to_string())));
    assert!(t.contains(&("b".to_string(), "t2".to_string())));
}

#[test]
fn test_unqualified_skipped() {
    let t = extract_table_names("SELECT * FROM cpu").unwrap();
    assert!(t.is_empty());
}

#[test]
fn test_cte_shadowed_skipped() {
    let sql = "WITH cpu AS (SELECT * FROM otherdb.src) SELECT * FROM cpu JOIN mydb.real ON 1=1";
    let t = extract_table_names(sql).unwrap();
    assert!(
        !t.contains(&("mydb".to_string(), "cpu".to_string())),
        "CTE named cpu must not be mistaken for mydb.cpu; got {:?}",
        t
    );
    assert!(t.contains(&("otherdb".to_string(), "src".to_string())));
    assert!(t.contains(&("mydb".to_string(), "real".to_string())));
}

#[test]
fn test_cte_shadowed_qualified_main_body() {
    let t = extract_table_names("WITH cpu AS (SELECT * FROM otherdb.src) SELECT * FROM mydb.cpu")
        .unwrap();
    assert!(t.contains(&("otherdb".to_string(), "src".to_string())));
    assert!(
        !t.contains(&("mydb".to_string(), "cpu".to_string())),
        "qualified mydb.cpu must not be collected while cpu is CTE-shadowed; got {:?}",
        t
    );
}

#[test]
fn test_cte_shadowed_multiple_ctes() {
    let t = extract_table_names("WITH a AS (SELECT 1), b AS (SELECT 1) SELECT * FROM mydb.b")
        .unwrap();
    assert!(
        !t.contains(&("mydb".to_string(), "b".to_string())),
        "CTE-shadowed mydb.b must not be collected; got {:?}",
        t
    );
}

#[test]
fn test_subquery_tables_found() {
    let t = extract_table_names("SELECT * FROM (SELECT * FROM mydb.cpu) x").unwrap();
    assert_eq!(t, vec![("mydb".to_string(), "cpu".to_string())]);
}

#[test]
fn test_parse_query_mode_defaults() {
    assert_eq!(parse_query_mode("buffer"), QueryMode::Buffer);
    assert_eq!(parse_query_mode("all"), QueryMode::All);
    assert_eq!(parse_query_mode("history"), QueryMode::History);
    assert_eq!(parse_query_mode("bogus"), QueryMode::History);
    assert_eq!(parse_query_mode(""), QueryMode::History);
}

#[test]
fn test_engine_time_range() {
    assert_eq!(
        engine_time_range("SELECT * FROM metrics.cpu WHERE time >= 100 AND time <= 200"),
        (Some(100), Some(200))
    );
    assert_eq!(
        engine_time_range("SELECT * FROM metrics.cpu WHERE time >= 100"),
        (Some(100), None)
    );
    assert_eq!(
        engine_time_range("SELECT * FROM metrics.cpu WHERE time >= 200 AND time <= 100"),
        (None, None)
    );
    assert_eq!(engine_time_range("SELECT * FROM metrics.cpu"), (None, None));
    assert_eq!(engine_time_range("not sql at all"), (None, None));
}

#[test]
fn tables_in_every_part_of_a_query() {
    let sql = "SELECT * FROM (a.t1 JOIN a.t2 ON 1=1), a.t1 \
               UNION (SELECT * FROM b.t3 WHERE x IN (SELECT y FROM c.hidden)); \
               INSERT INTO d.t4 VALUES (1); SELECT * FROM e.f.g, \"x y\".\"T\"";
    assert_eq!(
        extract_table_names(sql).unwrap(),
        vec![pair("a", "t1"), pair("a", "t2"), pair("b", "t3"), pair("x y", "T")]
    );
    let err = extract_table_names("SELEC broken").unwrap_err();
    assert!(err.starts_with("parse: sql parser error: "), "{}", err);
}

#[test]
fn named_query_sees_its_own_name() {
    let sql = "WITH a AS (SELECT * FROM db.a), b AS (SELECT * FROM db.a, db.b, db.c) SELECT 1";
    assert_eq!(extract_table_names(sql).unwrap(), vec![pair("db", "c")]);
}

#[test]
fn texts_on_which_the_parser_would_panic() {
    assert!(can_parse("SELECT TOP 5 * FROM a.t"));
    assert!(!can_parse("SELECT TOP 1.5 * FROM a.t"));
    assert!(!can_parse("GRANT SELECT ON t TO u GRANTED BY 1"));
    assert!(!can_parse("REVOKE SELECT ON t FROM u GRANTED BY 1"));
    assert!(!can_parse("FLUSH RELAY LOGS FOR CHANNEL 1"));
    assert!(!can_parse("CREATE TABLE t (a INT) AUTO_INCREMENT 99999999999"));
    assert!(!can_parse("SELECT * FROM t MATCH_RECOGNIZE (PATTERN (a{99999999999}) DEFINE a AS 1)"));
    assert!(!can_parse("GRANT SELECT ON t TO u GRANTED BY"));
    assert!(!can_parse("FLUSH LOCAL RELAY LOGS FOR CHANNEL a."));
    assert!(!can_parse("FLUSH RELAY LOGS FOR CHANNEL"));
    assert!(!can_parse("CREATE TABLE t (a INT) AUTO_INCREMENT = 4294967296"));
    for range in ["{99999999999,}", "{,99999999999}", "{1,99999999999}", "{ 1.5 , 2 }"] {
        let sql = format!("SELECT * FROM t MATCH_RECOGNIZE (PATTERN (a{}) DEFINE a AS 1)", range);
        assert!(!can_parse(&sql), "{}", sql);
    }
    assert!(!can_parse("CREATE TABLE t (a INT DEFAULT (SELECT 1)) ENGINE = x AUTO_INCREMENT 1.5"));
    assert!(!can_parse("CREATE OR REPLACE TEMP TABLE create AUTO_INCREMENT 4294967296"));
    assert!(!can_parse("CREATE TABLE a.select AUTO_INCREMENT 4294967296"));
    for sql in [
        "CREATE TABLE x LIKE ) AUTO_INCREMENT = 1.5",
        "CREATE TABLE x LIKE ; AUTO_INCREMENT 1.5",
        "CREATE TABLE x LIKE a.( (b INT) AUTO_INCREMENT 1.5",
        "CREATE TABLE x ON CLUSTER 'c' ILIKE ; CLONE ( ENGINE = y AUTO_INCREMENT 1.5",
        "CREATE TABLE x CLONE like.select AUTO_INCREMENT 1.5",
        "CREATE TABLE x (a INT CHECK (a LIKE (1))) AUTO_INCREMENT 1.5",
        "CREATE TABLE x ROW FORMAT DELIMITED NULL DEFINED AS select AUTO_INCREMENT 1.5",
        "CREATE TABLE x STORED AS INPUTFORMAT a OUTPUTFORMAT (SELECT 1) AUTO_INCREMENT 1.5",
    ] {
        assert!(!can_parse(sql), "{}", sql);
    }
    assert!(!can_parse("SELECT DISTINCT TOP 1.5 * FROM a.t"));
    assert!(!can_parse("SELECT DISTINCT ON (f(a), b) TOP 1.5 * FROM a.t"));
    assert!(can_parse("SELECT 'TOP 1.5' FROM a.t WHERE granted = 'GRANT'"));
    assert!(can_parse("SELECT 'unterminated"));
    assert!(matches!(
        Federator::prepare("SELECT TOP 1.5 * FROM a.t", QueryMode::All),
        FederationStart::Unparseable
    ));
    assert!(tokens_may_panic(&vec![
        SqlToken::Word("SELECT".to_string()),
        SqlToken::Space,
        SqlToken::Word("TOP".to_string()),
        SqlToken::Space,
        SqlToken::Number("18446744073709551616".to_string()),
    ]));
    assert!(!tokens_may_panic(&vec![
        SqlToken::Word("SELECT".to_string()),
        SqlToken::Word("TOP".to_string()),
        SqlToken::Symbol(",".to_string()),
        SqlToken::Number("1.5".to_string()),
    ]));
}

#[test]
fn texts_that_only_name_the_words() {
    let tables = |sql: &str| {
        assert!(can_parse(sql), "{}", sql);
        extract_table_names(sql).unwrap()
    };
    assert_eq!(tables("SELECT channel, flush FROM mydb.valves"), vec![pair("mydb", "valves")]);
    assert_eq!(tables("SELECT grant, granted FROM mydb.t"), vec![pair("mydb", "t")]);
    assert_eq!(tables("SELECT granted by, x FROM mydb.t"), vec![pair("mydb", "t")]);
    assert_eq!(
        tables("SELECT * FROM mydb.t WHERE auto_increment = 1700000000000000000"),
        vec![pair("mydb", "t")]
    );
    assert_eq!(
        tables("CREATE TABLE t (a INT); SELECT * FROM mydb.t WHERE auto_increment = 5000000000"),
        vec![pair("mydb", "t")]
    );
    for sql in [
        "CREATE TABLE x AS SELECT y FROM z WHERE auto_increment = 1.5",
        "CREATE TABLE x AS (SELECT y FROM z WHERE auto_increment = 1.5)",
        "CREATE TABLE x AS WITH c AS (SELECT 1) SELECT y FROM c WHERE auto_increment = 1.5",
        "CREATE TABLE x AS (SELECT 1) UNION ALL SELECT y FROM z WHERE auto_increment = 1.5",
        "CREATE TABLE x AS INSERT INTO w SELECT y FROM z WHERE auto_increment = 1.5",
        "CREATE VIEW v AS SELECT y FROM z WHERE auto_increment = 5000000000",
    ] {
        assert!(tables(sql).is_empty(), "{}", sql);
    }
    let err = extract_table_names("SELECT a FROM t WHERE top 1.5").unwrap_err();
    assert!(err.starts_with("parse: "), "{}", err);
    let text = "CREATE TABLE x LIKE ; SELECT y FROM z WHERE auto_increment = 1.5";
    assert!(extract_table_names(text).unwrap_err().starts_with("parse: "));
    let recognize = "SELECT * FROM mydb.t MATCH_RECOGNIZE (PATTERN (a{1,2}) DEFINE a AS 1) \
                     WHERE time IN (1, 1700000000000000000)";
    assert!(tables(recognize).is_empty());
    for sql in [
        "GRANT SELECT ON t TO u GRANTED BY v",
        "GRANT SELECT ON t TO u GRANTED BY 'v'",
        "REVOKE SELECT ON t FROM u GRANTED BY v",
        "FLUSH RELAY LOGS FOR CHANNEL a.b",
        "FLUSH RELAY LOGS",
        "CREATE TABLE t (a INT) AUTO_INCREMENT 4294967295",
    ] {
        assert!(tables(sql).is_empty(), "{}", sql);
    }
    assert!(extract_table_names("FLUSH mydb CHANNEL").is_err());
}

#[test]
fn statements_as_trees() {
    let statements = parse_statements("SELECT * FROM a.t WHERE x.time > 5 OR y = 'z'").unwrap();
    assert_eq!(statements.len(), 1);
    let condition = match &statements[0] {
        StatementTree::Select(q) => match &q.body {
            SetTree::Select(from, Some(c)) => {
                assert_eq!(from.len(), 1);
                c
            }
            _ => panic!("a selection with a condition"),
        },
        StatementTree::Other => panic!("a query"),
    };
    match condition {
        Condition::Binary(left, Operator::Or, right) => {
            assert!(matches!(**left, Condition::Binary(_, Operator::Gt, _)));
            match &**right {
                Condition::Binary(column, Operator::Other, text) => {
                    assert!(matches!(**column, Condition::Column(_)));
                    match &**text {
                        Condition::Quoted(s) => assert_eq!(s, "z"),
                        _ => panic!("a text in quotes"),
                    }
                }
                _ => panic!("a comparison"),
            }
        }
        _ => panic!("two conditions"),
    }
    assert!(parse_statements("SELEC").is_err());
}

fn online_agent() -> (MetadataStore, AgentStore) {
    let mut metadata = MetadataStore::new();
    let mut agents = AgentStore::new();
    agents.register("a1", "mock", "x86", "0.1.0", "127.0.0.1:7001", 1_000);
    metadata.merge_schema(
        "metrics",
        "cpu",
        "a1",
        true,
        &vec!["host".to_string()],
        &vec![("usage".to_string(), "F64".to_string())],
    );
    (metadata, agents)
}

fn federator(sql: &str, mode: QueryMode) -> Federator {
    match Federator::prepare(sql, mode) {
        FederationStart::Federate(f) => f,
        _ => panic!("the query names a table with its database"),
    }
}

/// Runs a pass to its end, with one batch from each agent that is asked, over what stands
/// for each name, which goes by its lower-case letters. Returns what stood there when the
/// query was planned.
fn whole_pass(
    sql: &str,
    mode: QueryMode,
    metadata: &MetadataStore,
    agents: &AgentStore,
    standing: &mut BTreeMap<String, usize>,
) -> (BTreeMap<String, usize>, FederationOutcome) {
    let mut pass = FederationPass::begin(federator(sql, mode));
    let mut planned_with = BTreeMap::new();
    let mut fresh = 1000;
    let mut event = PassEvent::Next;
    loop {
        assert!(pass.waits_for(&event));
        event = match pass.step(metadata, agents, 2_000, event) {
            PassAction::Continue => PassEvent::Next,
            PassAction::Fetch(targets) => PassEvent::Fetched(
                targets
                    .iter()
                    .map(|_| FetchReply::Answer { status: 200, batches: Some(1) })
                    .collect(),
            ),
            PassAction::LookUp { name } => {
                PassEvent::Found(standing.get(&name.to_lowercase()).copied())
            }
            PassAction::SetUp { name, step } => {
                assert_ne!(step, ProviderStep::Keep);
                standing.insert(name.to_lowercase(), fresh);
                fresh += 1;
                PassEvent::SetUp(Ok(()))
            }
            PassAction::Plan => {
                planned_with = standing.clone();
                PassEvent::Planned(Ok(()))
            }
            PassAction::PutBack(list) => {
                for (name, was) in list {
                    match was {
                        Some(p) => standing.insert(name.to_lowercase(), p),
                        None => standing.remove(&name.to_lowercase()),
                    };
                }
                PassEvent::PutBack
            }
            PassAction::Done(outcome) => return (planned_with, outcome),
            PassAction::Failed(e) => panic!("{}", e),
        };
    }
}

#[test]
fn test_buffer_mode_restores_original_provider() {
    let (metadata, agents) = online_agent();
    let mut f = federator("SELECT * FROM metrics.cpu", QueryMode::Buffer);
    match f.table_step(0, &metadata, &agents, 2_000) {
        TableStep::Fetch(targets) => assert_eq!(targets.len(), 1),
        TableStep::NoRows => panic!("the agent is online"),
    }
    assert!(f.take_replies(&vec![FetchReply::Answer { status: 200, batches: Some(1) }]));
    assert_eq!(f.choose_provider(0, true, Some(42)), ProviderStep::Memory);
    assert_eq!(f.outcome, FederationOutcome { agents_queried: 1, agents_skipped: 0 });
    assert_eq!(f.replaced, vec![("metrics.cpu".to_string(), Some(42))]);

    let mut standing = BTreeMap::from([("metrics.cpu".to_string(), 42), ("x.y".to_string(), 7)]);
    let before = standing.clone();
    let (planned_with, outcome) =
        whole_pass("SELECT * FROM metrics.cpu", QueryMode::Buffer, &metadata, &agents, &mut standing);
    assert_eq!(planned_with.get("metrics.cpu"), Some(&1000));
    assert_eq!(standing, before);
    assert_eq!(outcome, FederationOutcome { agents_queried: 1, agents_skipped: 0 });
}

#[test]
fn test_all_mode_unions_buffer_and_parquet() {
    let (metadata, agents) = online_agent();
    let mut f = federator("SELECT * FROM metrics.cpu", QueryMode::All);
    match f.table_step(0, &metadata, &agents, 2_000) {
        TableStep::Fetch(targets) => assert_eq!(targets.len(), 1),
        TableStep::NoRows => panic!("the agent is online"),
    }
    assert!(f.take_replies(&vec![FetchReply::Answer { status: 200, batches: Some(1) }]));
    assert_eq!(f.choose_provider(0, true, Some(3)), ProviderStep::Union);
    assert_eq!(f.outcome.agents_queried, 1);
    assert_eq!(f.outcome.agents_skipped, 0);

    let mut standing = BTreeMap::from([("metrics.cpu".to_string(), 3)]);
    let (planned_with, outcome) =
        whole_pass("SELECT * FROM metrics.cpu", QueryMode::All, &metadata, &agents, &mut standing);
    assert_eq!(planned_with.get("metrics.cpu"), Some(&1000));
    assert_eq!(outcome, FederationOutcome { agents_queried: 1, agents_skipped: 0 });
}

#[test]
fn every_listed_agent_is_accounted_for() {
    let (mut metadata, mut agents) = online_agent();
    agents.register("a2", "mock", "x86", "0.1.0", "127.0.0.1:7002", 1_000);
    agents.register("a3", "mock", "x86", "0.1.0", "127.0.0.1:7003", -60_000);
    for (table, agent) in [("cpu", "a2"), ("cpu", "a3"), ("mem", "a2"), ("mem", "a3")] {
        metadata.merge_schema("metrics", table, agent, true, &vec![], &vec![]);
    }
    let mut pass = FederationPass::begin(federator(
        "SELECT * FROM metrics.cpu, metrics.mem",
        QueryMode::All,
    ));
    let mut empty = 0;
    let mut event = PassEvent::Next;
    let outcome = loop {
        event = match pass.step(&metadata, &agents, 2_000, event) {
            PassAction::Continue => PassEvent::Next,
            PassAction::Fetch(targets) => PassEvent::Fetched(
                targets
                    .iter()
                    .map(|(host, _)| {
                        if host.ends_with("7002") {
                            empty += 1;
                            FetchReply::Answer { status: 204, batches: None }
                        } else {
                            FetchReply::Answer { status: 200, batches: Some(1) }
                        }
                    })
                    .collect(),
            ),
            PassAction::LookUp { .. } => PassEvent::Found(None),
            PassAction::SetUp { .. } => PassEvent::SetUp(Ok(())),
            PassAction::Plan => PassEvent::Planned(Ok(())),
            PassAction::PutBack(_) => PassEvent::PutBack,
            PassAction::Done(outcome) => break outcome,
            PassAction::Failed(e) => panic!("{}", e),
        };
    };
    assert_eq!(outcome, FederationOutcome { agents_queried: 1, agents_skipped: 2 });
    assert_eq!(empty, 2);
    assert_eq!(outcome.agents_queried + outcome.agents_skipped + empty, 5);
}

#[test]
fn test_buffer_mode_fresh_table_no_listing() {
    let mut f = federator("SELECT COUNT(*) AS c FROM metrics.fresh", QueryMode::Buffer);
    assert_eq!(f.choose_provider(0, true, None), ProviderStep::Memory);
    assert_eq!(f.replaced, vec![("metrics.fresh".to_string(), None)]);

    let (mut metadata, agents) = online_agent();
    metadata.merge_schema("metrics", "fresh", "a1", true, &vec![], &vec![]);
    let mut standing = BTreeMap::new();
    let (planned_with, _) = whole_pass(
        "SELECT COUNT(*) AS c FROM metrics.fresh",
        QueryMode::Buffer,
        &metadata,
        &agents,
        &mut standing,
    );
    assert_eq!(planned_with.get("metrics.fresh"), Some(&1000));
    assert!(standing.is_empty());
}

#[test]
fn tables_of_one_name_are_put_back() {
    let (mut metadata, agents) = online_agent();
    metadata.merge_schema("a.b", "c", "a1", true, &vec![], &vec![]);
    metadata.merge_schema("a", "b.c", "a1", true, &vec![], &vec![]);
    let mut standing = BTreeMap::from([("a.b.c".to_string(), 5)]);
    whole_pass(
        "SELECT * FROM \"a.b\".c, a.\"b.c\"",
        QueryMode::All,
        &metadata,
        &agents,
        &mut standing,
    );
    assert_eq!(standing, BTreeMap::from([("a.b.c".to_string(), 5)]));

    let mut standing = BTreeMap::from([("mydb.cpu".to_string(), 5)]);
    let (planned_with, _) = whole_pass(
        "SELECT * FROM mydb.cpu a, MYDB.CPU b",
        QueryMode::Buffer,
        &metadata,
        &agents,
        &mut standing,
    );
    assert_eq!(planned_with, BTreeMap::from([("mydb.cpu".to_string(), 1001)]));
    assert_eq!(standing, BTreeMap::from([("mydb.cpu".to_string(), 5)]));
}

#[test]
fn test_offline_agent_skipped() {
    let (metadata, agents) = online_agent();
    let mut f = federator("SELECT * FROM metrics.cpu", QueryMode::All);
    assert!(matches!(f.table_step(0, &metadata, &agents, 31_001), TableStep::NoRows));
    assert_eq!(f.choose_provider(0, false, Some(1)), ProviderStep::Keep);
    assert_eq!(f.outcome, FederationOutcome { agents_queried: 0, agents_skipped: 1 });
    assert!(f.replaced.is_empty());

    let mut f = federator("SELECT * FROM metrics.cpu", QueryMode::All);
    assert!(matches!(f.table_step(0, &metadata, &AgentStore::new(), 2_000), TableStep::NoRows));
    assert_eq!(f.outcome.agents_skipped, 1);
}

#[test]
fn test_buffer_mode_offline_agent_returns_empty() {
    let (metadata, _) = online_agent();
    let mut f = federator("SELECT * FROM metrics.cpu", QueryMode::Buffer);
    assert!(matches!(f.table_step(0, &metadata, &AgentStore::new(), 2_000), TableStep::NoRows));
    assert_eq!(f.choose_provider(0, false, Some(1)), ProviderStep::Empty);
    assert_eq!(f.outcome.agents_skipped, 1);
    assert_eq!(f.replaced, vec![("metrics.cpu".to_string(), Some(1))]);
}

#[test]
fn test_buffer_mode_empty_buffer_returns_empty() {
    let mut f = federator("SELECT * FROM metrics.cpu", QueryMode::Buffer);
    assert!(!f.take_replies(&vec![FetchReply::Answer { status: 204, batches: None }]));
    assert_eq!(f.choose_provider(0, false, Some(1)), ProviderStep::Empty);
    assert_eq!(f.outcome, FederationOutcome { agents_queried: 0, agents_skipped: 0 });
}

#[test]
fn test_time_pushdown_passed_to_agent() {
    let (metadata, agents) = online_agent();
    let mut f = federator(
        "SELECT COUNT(*) AS cnt FROM metrics.cpu WHERE time <= 1500",
        QueryMode::All,
    );
    match f.table_step(0, &metadata, &agents, 2_000) {
        TableStep::Fetch(targets) => assert_eq!(
            targets,
            vec![(
                "127.0.0.1:7001".to_string(),
                "http://127.0.0.1:7001/api/v1/query/parquet?db=metrics&table=cpu&end=1500"
                    .to_string()
            )]
        ),
        TableStep::NoRows => panic!("the agent is online"),
    }
}

#[test]
fn starts_that_ask_nobody() {
    assert!(matches!(Federator::prepare("SELECT 1", QueryMode::All), FederationStart::Plain));
    assert!(matches!(
        Federator::prepare("SELEC broken", QueryMode::All),
        FederationStart::Failed(_)
    ));
}

#[test]
fn replies_are_counted() {
    let mut f = federator("SELECT * FROM metrics.cpu", QueryMode::All);
    let replies = vec![
        FetchReply::Failed,
        FetchReply::Answer { status: 200, batches: None },
        FetchReply::Answer { status: 200, batches: Some(0) },
        FetchReply::Answer { status: 404, batches: None },
        FetchReply::Answer { status: 204, batches: None },
    ];
    assert!(!f.take_replies(&replies));
    assert_eq!(f.outcome, FederationOutcome { agents_queried: 1, agents_skipped: 3 });
    assert!(f.take_replies(&vec![FetchReply::Answer { status: 201, batches: Some(2) }]));
    assert_eq!(f.outcome, FederationOutcome { agents_queried: 2, agents_skipped: 3 });
}

#[test]
fn fetch_is_read_back_by_the_agent() {
    let url = build_fetch_url("h:1", "my db", "a/b", Some(-7), Some(9));
    assert_eq!(url, "http://h:1/api/v1/query/parquet?db=my+db&table=a%2Fb&start=-7&end=9");
    let query = url.split_once('?').unwrap().1;
    let mut buffer = Buffer::new();
    let table = buffer.get_or_create_table("my db", "a/b");
    let mut chunk = Chunk::new(0);
    chunk.insert(Row { time: 3, tag_values: vec![], field_values: vec![] }, 1);
    table.chunks.push(chunk);
    match FederationQueryHandler::handle(&buffer, query) {
        QueryStep::Encode(q) => {
            assert_eq!((q.db.as_str(), q.table.as_str()), ("my db", "a/b"));
            assert_eq!((q.start_ns, q.end_ns), (Some(-7), Some(9)));
            assert!(q.keeps(-7) && q.keeps(9) && !q.keeps(-8) && !q.keeps(10));
        }
        QueryStep::Reply(r) => panic!("the rows are there, got {:?}", r),
    }
}

#[test]
fn columns_by_their_names() {
    let names = |n: &[&str]| n.iter().map(|s| s.to_string()).collect::<Vec<String>>();
    assert_eq!(
        align_columns(&names(&["time", "usage", "idle"]), &names(&["usage", "host", "time", "usage"])),
        vec![Some(2), Some(0), None]
    );
}

fn ready(pass: &mut FederationPass, m: &MetadataStore, a: &AgentStore) -> PassAction {
    assert!(pass.waits_for(&PassEvent::Next));
    assert!(pass.can_count(m, &PassEvent::Next));
    pass.step(m, a, 2_000, PassEvent::Next)
}

#[test]
fn pass_puts_back_what_it_replaced() {
    let (m, a) = online_agent();
    let mut pass =
        FederationPass::begin(federator("SELECT * FROM metrics.cpu, x.y", QueryMode::Buffer));
    match ready(&mut pass, &m, &a) {
        PassAction::Fetch(targets) => assert_eq!(targets.len(), 1),
        other => panic!("the agent is asked, got {:?}", other),
    }
    let event = PassEvent::Fetched(vec![FetchReply::Answer { status: 200, batches: Some(1) }]);
    assert!(pass.can_count(&m, &event));
    match pass.step(&m, &a, 2_000, event) {
        PassAction::LookUp { name } => assert_eq!(name, "metrics.cpu"),
        other => panic!("the table is looked up, got {:?}", other),
    }
    match pass.step(&m, &a, 2_000, PassEvent::Found(Some(11))) {
        PassAction::SetUp { name, step } => {
            assert_eq!((name.as_str(), step), ("metrics.cpu", ProviderStep::Memory))
        }
        other => panic!("the rows stand for the table, got {:?}", other),
    }
    assert!(matches!(pass.step(&m, &a, 2_000, PassEvent::SetUp(Ok(()))), PassAction::Continue));

    match ready(&mut pass, &m, &a) {
        PassAction::LookUp { name } => assert_eq!(name, "x.y"),
        other => panic!("no agent has rows of it, got {:?}", other),
    }
    match pass.step(&m, &a, 2_000, PassEvent::Found(Some(12))) {
        PassAction::SetUp { name, step } => {
            assert_eq!((name.as_str(), step), ("x.y", ProviderStep::Empty))
        }
        other => panic!("memory holds nothing of it, got {:?}", other),
    }
    match pass.step(&m, &a, 2_000, PassEvent::SetUp(Err("no schema".to_string()))) {
        PassAction::PutBack(list) => assert_eq!(
            list,
            vec![("x.y".to_string(), Some(12)), ("metrics.cpu".to_string(), Some(11))]
        ),
        other => panic!("both are put back, got {:?}", other),
    }
    match pass.step(&m, &a, 2_000, PassEvent::PutBack) {
        PassAction::Failed(e) => assert_eq!(e, "no schema"),
        other => panic!("the query failed, got {:?}", other),
    }
    assert!(matches!(pass.phase, PassPhase::Ended));
}

#[test]
fn pass_over_tables_that_stay_as_they_are() {
    let (m, a) = online_agent();
    let mut pass =
        FederationPass::begin(federator("SELECT * FROM x.y, metrics.cpu", QueryMode::All));
    assert!(matches!(ready(&mut pass, &m, &a), PassAction::Continue));
    assert!(matches!(ready(&mut pass, &m, &a), PassAction::Fetch(_)));
    let event = PassEvent::Fetched(vec![FetchReply::Failed]);
    assert!(!pass.waits_for(&PassEvent::Next));
    assert!(pass.waits_for(&event));
    assert!(matches!(pass.step(&m, &a, 2_000, event), PassAction::Continue));
    assert!(matches!(ready(&mut pass, &m, &a), PassAction::Plan));
    match pass.step(&m, &a, 2_000, PassEvent::Planned(Ok(()))) {
        PassAction::PutBack(list) => assert!(list.is_empty()),
        other => panic!("nothing was replaced, got {:?}", other),
    }
    match pass.step(&m, &a, 2_000, PassEvent::PutBack) {
        PassAction::Done(outcome) => {
            assert_eq!(outcome, FederationOutcome { agents_queried: 0, agents_skipped: 1 })
        }
        other => panic!("the query is planned, got {:?}", other),
    }
}

#[test]
fn pass_reports_a_plan_that_fails() {
    let (m, a) = (MetadataStore::new(), AgentStore::new());
    let mut pass = FederationPass::begin(federator("SELECT z FROM x.y", QueryMode::Buffer));
    assert!(matches!(ready(&mut pass, &m, &a), PassAction::LookUp { .. }));
    assert!(matches!(pass.step(&m, &a, 2_000, PassEvent::Found(None)), PassAction::Continue));
    assert!(matches!(ready(&mut pass, &m, &a), PassAction::Plan));
    pass.step(&m, &a, 2_000, PassEvent::Planned(Err("no field z".to_string())));
    match pass.step(&m, &a, 2_000, PassEvent::PutBack) {
        PassAction::Failed(e) => assert_eq!(e, "SQL error: no field z"),
        other => panic!("the query failed, got {:?}", other),
    }
}
