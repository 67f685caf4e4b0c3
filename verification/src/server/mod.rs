//! The server: its agents, its tables, its files and its queries.

pub mod agent_api;
pub mod agent_store;
pub mod answers;
pub mod compaction;
pub mod federation;
pub mod fingerprint;
pub mod ingest_api;
pub mod knowledge;
pub mod merging;
pub mod metadata_api;
pub mod metadata_store;
pub mod query_engine;
pub mod requests;
pub mod sql_api;
pub mod table_provider;
pub mod telling;

pub use agent_api::AgentApiHandler;
pub use ingest_api::IngestApiHandler;
pub use metadata_api::MetadataApiHandler;

use crate::config::Config;
use crate::decimal;
use crate::http::Reply;
use crate::text;
use vstd::prelude::*;

verus! {

/// Who answers a request.
#[derive(Debug)]
pub enum ServerRoute {
    Agents,
    Ingest,
    Sql,
    Metadata,
    Page,
    Reply(Reply),
}

pub open spec fn is_agents_path(path: Seq<char>) -> bool {
    "/api/v1/agents"@.is_prefix_of(path)
}

pub open spec fn is_metadata_path(path: Seq<char>) -> bool {
    "/api/v1/metadata"@.is_prefix_of(path)
}

/// Whether `r` is who answers a request for a path. A server without agents of its own
/// answers as if there were nothing at their paths; a `GET` of none of the known paths may
/// be for a page.
pub open spec fn route_right(
    is_get: bool,
    path: Seq<char>,
    with_agents: bool,
    r: ServerRoute,
) -> bool {
    if is_agents_path(path) {
        if with_agents {
            r is Agents
        } else {
            r is Reply && r->Reply_0.is(404, "{\"error\":\"not found\",\"code\":\"NOT_FOUND\"}"@)
        }
    } else if path == "/api/v1/ingest/parquet"@ {
        r is Ingest
    } else if path == "/api/v1/query"@ {
        r is Sql
    } else if is_metadata_path(path) {
        r is Metadata
    } else if path == "/health"@ {
        r is Reply && r->Reply_0.is(200, "ok"@)
    } else if is_get {
        r is Page
    } else {
        r is Reply && r->Reply_0.is(404, "not found"@)
    }
}

/// Who answers a request for a path.
pub fn route(is_get: bool, path: &str, with_agents: bool) -> (r: ServerRoute)
    ensures
        route_right(is_get, path@, with_agents, r),
{
    if text::starts_with(path, "/api/v1/agents") {
        if with_agents {
            ServerRoute::Agents
        } else {
            ServerRoute::Reply(
                Reply::new(404, "{\"error\":\"not found\",\"code\":\"NOT_FOUND\"}"),
            )
        }
    } else if text::same(path, "/api/v1/ingest/parquet") {
        ServerRoute::Ingest
    } else if text::same(path, "/api/v1/query") {
        ServerRoute::Sql
    } else if text::starts_with(path, "/api/v1/metadata") {
        ServerRoute::Metadata
    } else if text::same(path, "/health") {
        ServerRoute::Reply(Reply::new(200, "ok"))
    } else if is_get {
        ServerRoute::Page
    } else {
        ServerRoute::Reply(Reply::new(404, "not found"))
    }
}

/// What a server needs in its configuration: where it keeps its metadata, and how it runs
/// queries.
pub fn check_sections(config: &Config) -> (r: Result<(), String>)
    ensures
        r is Ok == (config.metadata is Some && config.query is Some),
        config.metadata is None ==> r is Err && r->Err_0@ == "missing [metadata] config section"@,
        config.metadata is Some && config.query is None ==> r is Err && r->Err_0@
            == "missing [query] config section"@,
{
    if config.metadata.is_none() {
        return Err("missing [metadata] config section".to_owned());
    }
    if config.query.is_none() {
        return Err("missing [query] config section".to_owned());
    }
    Ok(())
}

/// Where a server listens.
pub fn bind_address(host: &str, port: u16) -> (r: String)
    ensures
        r@ == host@ + ":"@ + decimal::numeral(port as nat),
{
    text::join3(host, ":", decimal::format_u64(port as u64).as_str())
}

} // verus!
