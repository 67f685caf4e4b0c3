//! How an agent listens, answers and keeps its configuration up to date.

use crate::agent;
use crate::agent::buffer::Buffer;
use crate::agent::wal;
use crate::agent::wal::wal_core;
use crate::agent::wal::wal_core::{LogFile, WalManager};
use crate::agent::wal::WalOp;
use crate::agent::write::WriteHandler;
use crate::agent::{compute_schema_changes, AgentClient, HeartbeatRequest, SchemaState};
use crate::config::Config;
use crate::decimal;
use crate::http::Reply;
use crate::text;
use vstd::prelude::*;

verus! {

/// Who answers a request to an agent.
#[derive(Debug)]
pub enum AgentServiceRoute {
    Write,
    Query,
    /// The rows in memory, for the server.
    Rows,
    Status,
    Page,
    Reply(Reply),
}

/// Whether `r` is who answers a request. What is asked for and is none of the known paths
/// may be a page.
pub open spec fn agent_route_right(
    method: Seq<char>,
    path: Seq<char>,
    r: AgentServiceRoute,
) -> bool {
    if method == "POST"@ && path == "/write"@ {
        r is Write
    } else if method == "GET"@ && path == "/query"@ {
        r is Query
    } else if method == "GET"@ && path == "/api/v1/query/parquet"@ {
        r is Rows
    } else if method == "GET"@ && path == "/api/v1/status"@ {
        r is Status
    } else if method == "GET"@ && path == "/health"@ {
        r is Reply && r->Reply_0.is(200, "ok"@)
    } else if method == "GET"@ {
        r is Page
    } else {
        r is Reply && r->Reply_0.is(404, "not found"@)
    }
}

/// Who answers a request to an agent.
pub fn agent_route(method: &str, path: &str) -> (r: AgentServiceRoute)
    ensures
        agent_route_right(method@, path@, r),
{
    let get = text::same(method, "GET");
    if text::same(method, "POST") && text::same(path, "/write") {
        AgentServiceRoute::Write
    } else if get && text::same(path, "/query") {
        AgentServiceRoute::Query
    } else if get && text::same(path, "/api/v1/query/parquet") {
        AgentServiceRoute::Rows
    } else if get && text::same(path, "/api/v1/status") {
        AgentServiceRoute::Status
    } else if get && text::same(path, "/health") {
        AgentServiceRoute::Reply(Reply::new(200, "ok"))
    } else if get {
        AgentServiceRoute::Page
    } else {
        AgentServiceRoute::Reply(Reply::new(404, "not found"))
    }
}

/// Where an agent listens.
pub fn listen_address(port: u16) -> (r: String)
    ensures
        r@ == "0.0.0.0:"@ + decimal::numeral(port as nat),
{
    text::join2("0.0.0.0:", decimal::format_u64(port as u64).as_str())
}

/// An agent that runs: what it holds in memory and in its log, and what it has told the
/// server.
pub struct AgentService {
    pub write: WriteHandler,
    pub schema: SchemaState,
    /// The connection to the server; there is none beside a server in one process.
    pub client: Option<AgentClient>,
    pub config_version: u64,
}

pub open spec fn file_models(files: Seq<(u64, Vec<WalOp>)>) -> Seq<(u64, Seq<wal::OpModel>)> {
    files.map_values(|f: (u64, Vec<WalOp>)| (f.0, wal::op_models(f.1@)))
}

impl AgentService {
    pub open spec fn wf(&self) -> bool {
        &&& self.write.wf()
        &&& self.schema.wf()
    }

    /// Starts an agent: its log goes on behind the files that are there, and what could be
    /// read of those that are not safe elsewhere is in memory again.
    pub fn start(
        config: Config,
        names: &Vec<String>,
        flushed_seq: u64,
        files: &Vec<(u64, Vec<WalOp>)>,
        client: Option<AgentClient>,
    ) -> (r: AgentService)
        requires
            wal_core::next_seq(text::views(names@), flushed_seq) <= u64::MAX,
        ensures
            r.wf(),
            r.write.config == config,
            r.write.buffer@ == wal_core::after_files(Seq::empty(), file_models(files@)),
            r.write.wal.current_seq == wal_core::next_seq(text::views(names@), flushed_seq),
            r.write.wal.wal_dir@ == text::path_in(config.data.dir@, "wal"@),
            r.write.wal.op_limit == config.wal.max_write_buffer_ops,
            r.write.wal.pending_ops@.len() == 0,
            r.write.wal.hot is None,
            r.schema@ == Map::<(Seq<char>, Seq<char>), agent::Reported>::empty(),
            r.client == client,
            r.config_version == 0,
    {
        let mut buffer = Buffer::new();
        let wal = WalManager::new(config.data.dir.as_str(), &config.wal, names, flushed_seq);
        wal_core::replay(&mut buffer, files);
        AgentService {
            write: WriteHandler { buffer, wal, config },
            schema: SchemaState::new(),
            client,
            config_version: 0,
        }
    }

    /// Starts a heartbeat: where to send it, and what it tells, the schemas that are news
    /// among it. Nothing without a connection.
    pub fn beat(&mut self) -> (r: Option<Result<(String, HeartbeatRequest), String>>)
        requires
            old(self).wf(),
        ensures
            final(self).wf(),
            final(self).write == old(self).write,
            final(self).client == old(self).client,
            final(self).config_version == old(self).config_version,
            match old(self).client {
                None => r is None && final(self).schema == old(self).schema,
                Some(client) => {
                    let reports = agent::all_reports(old(self).write.buffer@);
                    &&& r is Some
                    &&& final(self).schema@ == agent::state_after(old(self).schema@, reports)
                    &&& match client.config.agent {
                        Some(a) => {
                            &&& r->0 matches Ok((url, req))
                            &&& url@ == a.server_url@ + "/api/v1/agents/heartbeat"@
                            &&& req.id@ == a.id@
                            &&& req.config_version == old(self).config_version
                            &&& agent::change_models(req.schema_changes@) == agent::changes_in(
                                old(self).schema@,
                                reports,
                            )
                        },
                        None => r->0 matches Err(e) && e@ == "missing [agent] config"@,
                    }
                },
            },
    {
        match &self.client {
            Some(client) => {
                let changes = compute_schema_changes(&self.write.buffer, &mut self.schema);
                Some(client.heartbeat(self.config_version, changes))
            },
            None => None,
        }
    }

    /// Takes what came of a heartbeat, and whether the server sent a configuration: its
    /// version is one more then.
    pub fn beat_sent(&mut self, sent: &Result<(u16, String), String>, updated: bool) -> (r: Result<
        (),
        String,
    >)
        requires
            old(self).wf(),
            old(self).client is Some,
            old(self).config_version < u64::MAX,
        ensures
            final(self).wf(),
            final(self).write == old(self).write,
            final(self).schema == old(self).schema,
            final(self).client is Some,
            agent::beat_taken(
                *sent,
                old(self).client->0.heartbeat_failures,
                final(self).client->0.heartbeat_failures,
                r,
            ),
            final(self).client->0.config == old(self).client->0.config,
            final(self).client->0.listen_addr == old(self).client->0.listen_addr,
            final(self).config_version == (if r is Ok && updated {
                old(self).config_version + 1
            } else {
                old(self).config_version as int
            }),
    {
        let result = match &mut self.client {
            Some(client) => client.heartbeat_sent(sent),
            None => Ok(()),
        };
        if result.is_ok() && updated {
            self.config_version = self.config_version + 1;
        }
        result
    }

    /// Takes the operations that wait in the log for its next file; nothing where none
    /// waits.
    pub fn begin_flush(&mut self) -> (r: Option<LogFile>)
        requires
            old(self).wf(),
        ensures
            final(self).wf(),
            final(self).write.buffer == old(self).write.buffer,
            final(self).write.config == old(self).write.config,
            final(self).write.wal.current_seq == old(self).write.wal.current_seq,
            final(self).write.wal.wal_dir == old(self).write.wal.wal_dir,
            final(self).write.wal.op_limit == old(self).write.wal.op_limit,
            final(self).write.wal.hot == old(self).write.wal.hot,
            final(self).write.wal.pending_ops@.len() == 0,
            final(self).schema == old(self).schema,
            final(self).client == old(self).client,
            final(self).config_version == old(self).config_version,
            r is Some == (old(self).write.wal.pending_ops@.len() > 0),
            r is Some ==> r->0.seq == old(self).write.wal.current_seq && r->0.path@
                == text::path_in(
                old(self).write.wal.wal_dir@,
                wal_core::name_of_seq(old(self).write.wal.current_seq as nat),
            ) && r->0.ops@ == old(self).write.wal.pending_ops@,
    {
        self.write.wal.begin_flush()
    }

    /// Takes the outcome of writing a log file: on success its operations are applied to
    /// what is in memory, under the number of that file.
    pub fn finish_flush(&mut self, file: &LogFile, outcome: Result<(), String>) -> (r: Result<
        usize,
        wal_core::WalError,
    >)
        requires
            old(self).wf(),
            old(self).write.wal.current_seq == file.seq,
            file.seq < u64::MAX,
        ensures
            final(self).wf(),
            final(self).write.config == old(self).write.config,
            final(self).schema == old(self).schema,
            final(self).client == old(self).client,
            final(self).config_version == old(self).config_version,
            r is Ok == outcome is Ok,
            r is Ok ==> r->Ok_0 == file.ops@.len() && final(self).write.wal == (WalManager {
                current_seq: (file.seq + 1) as u64,
                ..old(self).write.wal
            }) && final(self).write.buffer@ == wal_core::after_ops(
                old(self).write.buffer@,
                wal::op_models(file.ops@),
                file.seq,
            ),
            r is Err ==> final(self).write == old(self).write && r->Err_0 is WriteError
                && r->Err_0->WriteError_0@ == "write WAL "@ + decimal::numeral(file.seq as nat)
                + ": "@ + outcome->Err_0@,
    {
        wal_core::flush_and_apply(&mut self.write.wal, &mut self.write.buffer, file, outcome)
    }
}

} // verus!
