//! Requests about agents: registration, heartbeats, listing, configuration, removal.

use crate::http;
use crate::http::Reply;
use crate::json;
use crate::server::agent_store;
use crate::server::agent_store::{AgentRecord, AgentStore};
use crate::server::metadata_store;
use crate::server::metadata_store::MetadataStore;
use crate::text;
use crate::time;
use vstd::prelude::*;

verus! {

/// What a request about agents asks for.
#[derive(Debug)]
pub enum AgentRoute {
    Register,
    Heartbeat,
    List,
    Get(String),
    UpdateConfig(String),
    Delete(String),
    NotFound,
}

pub enum RouteModel {
    Register,
    Heartbeat,
    List,
    Get(Seq<char>),
    UpdateConfig(Seq<char>),
    Delete(Seq<char>),
    NotFound,
}

impl View for AgentRoute {
    type V = RouteModel;

    open spec fn view(&self) -> RouteModel {
        match self {
            AgentRoute::Register => RouteModel::Register,
            AgentRoute::Heartbeat => RouteModel::Heartbeat,
            AgentRoute::List => RouteModel::List,
            AgentRoute::Get(id) => RouteModel::Get(id@),
            AgentRoute::UpdateConfig(id) => RouteModel::UpdateConfig(id@),
            AgentRoute::Delete(id) => RouteModel::Delete(id@),
            AgentRoute::NotFound => RouteModel::NotFound,
        }
    }
}

/// What stands behind the front of a path that names an agent.
pub open spec fn after_front(path: Seq<char>) -> Seq<char> {
    path.skip("/api/v1/agents/"@.len() as int)
}

/// What a method and a path ask for.
pub open spec fn route_of(method: Seq<char>, path: Seq<char>) -> RouteModel {
    if method == "POST"@ && path == "/api/v1/agents/register"@ {
        RouteModel::Register
    } else if method == "POST"@ && path == "/api/v1/agents/heartbeat"@ {
        RouteModel::Heartbeat
    } else if method == "GET"@ && path == "/api/v1/agents"@ {
        RouteModel::List
    } else if !"/api/v1/agents/"@.is_prefix_of(path) {
        RouteModel::NotFound
    } else if method == "GET"@ {
        RouteModel::Get(after_front(path))
    } else if method == "PUT"@ && "/config"@.is_suffix_of(path) {
        RouteModel::UpdateConfig(
            after_front(path).take(after_front(path).len() - "/config"@.len()),
        )
    } else if method == "DELETE"@ {
        RouteModel::Delete(after_front(path))
    } else {
        RouteModel::NotFound
    }
}

/// Whether the path of a new configuration leaves no room for the agent's name.
pub open spec fn overlapping(method: Seq<char>, path: Seq<char>) -> bool {
    method == "PUT"@ && path == "/api/v1/agents/config"@
}

/// What a method and a path ask for.
pub fn route(method: &str, path: &str) -> (r: AgentRoute)
    requires
        !overlapping(method@, path@),
    ensures
        r@ == route_of(method@, path@),
{
    if text::same(method, "POST") && text::same(path, "/api/v1/agents/register") {
        return AgentRoute::Register;
    }
    if text::same(method, "POST") && text::same(path, "/api/v1/agents/heartbeat") {
        return AgentRoute::Heartbeat;
    }
    if text::same(method, "GET") && text::same(path, "/api/v1/agents") {
        return AgentRoute::List;
    }
    if !text::starts_with(path, "/api/v1/agents/") {
        return AgentRoute::NotFound;
    }
    let x = text::chars_of(path);
    proof {
        reveal_strlit("/api/v1/agents/");
        reveal_strlit("/config");
        reveal_strlit("/api/v1/agents/config");
    }
    let id = text::text_of(&x, 15, x.len());
    assert(id@ =~= after_front(path@));
    if text::same(method, "GET") {
        return AgentRoute::Get(id);
    }
    if text::same(method, "PUT") {
        match text::strip_suffix(path, "/config") {
            Some(front) => {
                let n: usize = front.as_str().unicode_len();
                proof {
                    if n < 15 {
                        lemma_overlap(path@, front@);
                    }
                }
                let name = text::text_of(&x, 15, n);
                assert(name@ =~= after_front(path@).take(
                    after_front(path@).len() - "/config"@.len(),
                ));
                return AgentRoute::UpdateConfig(name);
            },
            None => {},
        }
    }
    if text::same(method, "DELETE") {
        return AgentRoute::Delete(id);
    }
    AgentRoute::NotFound
}

/// A path with the front and the ending of a new configuration that is shorter than both
/// together is the one where they share a slash.
proof fn lemma_overlap(path: Seq<char>, front: Seq<char>)
    requires
        "/api/v1/agents/"@.is_prefix_of(path),
        front + "/config"@ == path,
        front.len() < "/api/v1/agents/"@.len(),
    ensures
        path == "/api/v1/agents/config"@,
{
    reveal_strlit("/api/v1/agents/");
    reveal_strlit("/config");
    reveal_strlit("/api/v1/agents/config");
    let p = "/api/v1/agents/"@;
    let n = front.len() as int;
    assert(path.len() == n + 7);
    assert(forall|i: int| 0 <= i < p.len() ==> p[i] == #[trigger] path[i]);
    assert(forall|i: int| 0 <= i < 7 ==> "/config"@[i] == path[n + i]);
    assert(path[n] == '/' && path[n + 1] == 'c');
    assert(n >= 8);
    if n == 8 {
        assert(path[9] == p[9]);
    }
    if n == 9 {
        assert(path[9] == p[9]);
    }
    if n == 10 {
        assert(path[10] == p[10]);
    }
    if n == 11 {
        assert(path[11] == p[11]);
    }
    if n == 12 {
        assert(path[12] == p[12]);
    }
    if n == 13 {
        assert(path[13] == p[13]);
    }
    assert(n == 14);
    assert(path =~= "/api/v1/agents/config"@);
}

/// What the server answers to a request about agents.
pub enum AgentReply {
    Text(Reply),
    Registered { agent_id: String, config_json: Option<String>, config_version: i64 },
    Beat { config_update: Option<serde_json::Value> },
    Agents(Vec<AgentSummary>),
    Agent(AgentRecord),
    ConfigSet { target_version: u64 },
}

/// An agent in a list of agents.
#[derive(Debug)]
pub struct AgentSummary {
    pub id: String,
    pub hostname: String,
    pub status: String,
    pub last_seen: Option<String>,
    pub config_version: i64,
    pub target_config_version: i64,
    pub listen_addr: Option<String>,
}

/// For how many milliseconds after its last sign an agent counts as online.
pub const ONLINE_MS: i64 = 30_000;

/// The state of an agent: online within the time after its last sign.
pub open spec fn status_of(last_seen_at: Option<i64>, now_ms: i64) -> Seq<char> {
    match last_seen_at {
        None => "unknown"@,
        Some(at) => if now_ms - at <= ONLINE_MS {
            "online"@
        } else {
            "offline"@
        },
    }
}

/// Whether `r` is the entry of an agent in the list.
pub open spec fn summary_right(
    a: agent_store::AgentModel,
    now_ms: i64,
    r: AgentSummary,
) -> bool {
    &&& r.id@ == a.id
    &&& r.hostname@ == a.hostname
    &&& r.status@ == status_of(a.last_seen_at, now_ms)
    &&& agent_store::optional_text(r.last_seen) == (match a.last_seen_at {
        Some(at) => Some(time::iso8601_of(at)),
        None => None,
    })
    &&& r.config_version == a.config_version
    &&& r.target_config_version == a.target_config_version
    &&& agent_store::optional_text(r.listen_addr) == a.listen_addr
}

/// The document of a body; nothing where it is none.
pub open spec fn document_of(body: Seq<u8>) -> Option<json::Json> {
    json::parsed_json(body)
}

/// The store after a schema that a heartbeat tells of; one without a database or a table
/// is left out.
pub open spec fn after_change(
    s: metadata_store::StoreModel,
    entry: json::Json,
    agent_id: Seq<char>,
) -> metadata_store::StoreModel {
    let db = json::text_member(Some(entry), "db"@, Seq::empty());
    let table = json::text_member(Some(entry), "table"@, Seq::empty());
    if db.len() > 0 && table.len() > 0 {
        metadata_store::with_row(
            s,
            metadata_store::merged(
                metadata_store::row_or_new(s, db, table),
                agent_id,
                true,
                json::texts(json::items_of(entry, "tag_keys"@)),
                json::text_pairs(json::items_of(entry, "field_defs"@)),
            ),
        )
    } else {
        s
    }
}

/// The store after all schemas that a heartbeat tells of.
pub open spec fn after_changes(
    s: metadata_store::StoreModel,
    entries: Seq<json::Json>,
    agent_id: Seq<char>,
) -> metadata_store::StoreModel
    decreases entries.len(),
{
    if entries.len() == 0 {
        s
    } else {
        after_change(after_changes(s, entries.drop_last(), agent_id), entries.last(), agent_id)
    }
}

/// The schemas that a heartbeat tells of.
pub open spec fn changes_of(doc: Option<json::Json>) -> Seq<json::Json> {
    match doc {
        Some(d) => json::items_of(d, "schema_changes"@),
        None => Seq::empty(),
    }
}

/// The configuration that a heartbeat is answered with: the agent's, where a version above
/// the one that it has is due and the text is a document.
pub open spec fn due_config(a: agent_store::AgentModel, client_version: u64) -> Option<
    json::Json,
> {
    if a.target_config_version as u64 > client_version {
        match a.config_json {
            Some(c) => json::parsed_json(vstd::utf8::encode_utf8(c)),
            None => None,
        }
    } else {
        None
    }
}

/// Merges the schemas that a heartbeat tells of.
fn forward_changes(metadata: &mut MetadataStore, doc: &Option<serde_json::Value>, agent_id: &str)
    ensures
        final(metadata)@ == after_changes(
            old(metadata)@,
            changes_of(json::optional_json(*doc)),
            agent_id@,
        ),
{
    let entries = match doc {
        Some(d) => match json::get(d, "schema_changes") {
            Some(m) => match json::as_items(m) {
                Some(items) => items,
                None => {
                    return;
                },
            },
            None => {
                return;
            },
        },
        None => {
            return;
        },
    };
    let ghost all = entries@.map_values(|v: serde_json::Value| json::json_of(v));
    let ghost before = metadata@;
    let mut i: usize = 0;
    assert(all.take(0) =~= Seq::<json::Json>::empty());
    while i < entries.len()
        invariant
            i <= entries@.len(),
            all == entries@.map_values(|v: serde_json::Value| json::json_of(v)),
            metadata@ == after_changes(before, all.take(i as int), agent_id@),
        decreases entries@.len() - i,
    {
        assert(all.take(i + 1).drop_last() =~= all.take(i as int));
        assert(all.take(i + 1).last() == json::json_of(entries@[i as int]));
        forward_change(metadata, &entries[i], agent_id);
        i += 1;
    }
    assert(all.take(i as int) =~= all);
}

/// The text of a member, empty where it is no text.
fn entry_text(entry: &serde_json::Value, key: &str) -> (r: String)
    ensures
        r@ == json::text_member(Some(json::json_of(*entry)), key@, Seq::empty()),
{
    match json::get(entry, key) {
        Some(m) => match json::as_text(m) {
            Some(s) => s.to_owned(),
            None => String::new(),
        },
        None => String::new(),
    }
}

/// Merges one schema that a heartbeat tells of.
fn forward_change(metadata: &mut MetadataStore, entry: &serde_json::Value, agent_id: &str)
    ensures
        final(metadata)@ == after_change(old(metadata)@, json::json_of(*entry), agent_id@),
{
    let db = entry_text(entry, "db");
    let table = entry_text(entry, "table");
    let tag_keys = json::member_texts(entry, "tag_keys");
    let field_defs = json::member_pairs(entry, "field_defs");
    if !db.as_str().is_empty() && !table.as_str().is_empty() {
        metadata.merge_schema(
            db.as_str(),
            table.as_str(),
            agent_id,
            true,
            &tag_keys,
            &field_defs,
        );
    }
}

/// What a registration comes to.
pub open spec fn register_done(
    before: Seq<agent_store::AgentModel>,
    body: Seq<u8>,
    now_ms: i64,
    after: Seq<agent_store::AgentModel>,
    r: AgentReply,
) -> bool {
    let doc = document_of(body);
    let id = json::text_member(doc, "id"@, Seq::empty());
    if id.len() == 0 {
        &&& after == before
        &&& r is Text
        &&& r->Text_0.is(400, "{\"error\":\"agent id required\",\"code\":\"BAD_REQUEST\"}"@)
    } else {
        let agent = agent_store::registered(
            agent_store::agent_of(before, id),
            id,
            json::text_member(doc, "hostname"@, "unknown"@),
            json::text_member(doc, "arch"@, "unknown"@),
            json::text_member(doc, "version"@, "0.1.0"@),
            json::text_member(doc, "listen_addr"@, "unknown"@),
            now_ms,
        );
        &&& after == agent_store::with_agent(before, agent)
        &&& r is Registered
        &&& r->agent_id@ == id
        &&& agent_store::optional_text(r->config_json) == agent.config_json
        &&& r->config_version == agent.config_version
    }
}

/// What a heartbeat comes to.
pub open spec fn heartbeat_done(
    before: Seq<agent_store::AgentModel>,
    tables_before: metadata_store::StoreModel,
    body: Seq<u8>,
    now_ms: i64,
    after: Seq<agent_store::AgentModel>,
    tables_after: metadata_store::StoreModel,
    r: AgentReply,
) -> bool {
    let doc = document_of(body);
    let id = json::text_member(doc, "id"@, Seq::empty());
    let version = json::natural_member(doc, "config_version"@);
    match agent_store::agent_of(before, id) {
        None => {
            &&& after == before
            &&& tables_after == tables_before
            &&& r is Text
            &&& r->Text_0.is(
                404,
                "{\"error\":\"agent "@ + id + " not found\",\"code\":\"NOT_FOUND\"}"@,
            )
        },
        Some(a) => {
            &&& after == before.update(
                agent_store::agent_position(before, id),
                agent_store::seen(a, version as i64, now_ms),
            )
            &&& tables_after == after_changes(tables_before, changes_of(doc), id)
            &&& r is Beat
            &&& json::optional_json(r->config_update) == due_config(a, version)
        },
    }
}

/// What a list of the agents is.
pub open spec fn list_done(
    agents: Seq<agent_store::AgentModel>,
    now_ms: i64,
    r: AgentReply,
) -> bool {
    &&& r is Agents
    &&& r->Agents_0@.len() == agents.len()
    &&& forall|i: int|
        0 <= i < agents.len() ==> summary_right(agents[i], now_ms, #[trigger] r->Agents_0@[i])
}

/// What is told of one agent.
pub open spec fn get_done(
    agents: Seq<agent_store::AgentModel>,
    id: Seq<char>,
    r: AgentReply,
) -> bool {
    match agent_store::agent_of(agents, id) {
        Some(a) => r is Agent && r->Agent_0@ == a,
        None => r is Text && r->Text_0.is(
            404,
            "{\"error\":\"agent not found\",\"code\":\"NOT_FOUND\"}"@,
        ),
    }
}

/// What a new configuration comes to.
pub open spec fn config_done(
    before: Seq<agent_store::AgentModel>,
    id: Seq<char>,
    body: Seq<u8>,
    after: Seq<agent_store::AgentModel>,
    r: AgentReply,
) -> bool {
    match agent_store::agent_of(before, id) {
        Some(a) => {
            let configured = agent_store::configured(a, http::lossy_text(body));
            &&& after == before.update(agent_store::agent_position(before, id), configured)
            &&& r is ConfigSet
            &&& r->target_version == configured.target_config_version as u64
        },
        None => {
            &&& after == before
            &&& r is Text
            &&& r->Text_0.is(
                404,
                "{\"error\":\"get target version: Query returned no rows\",\"code\":\"NOT_FOUND\"}"@,
            )
        },
    }
}

/// The tables without an agent as their source.
pub open spec fn without_source(
    s: metadata_store::StoreModel,
    id: Seq<char>,
) -> metadata_store::StoreModel {
    metadata_store::StoreModel {
        tables: s.tables.map_values(
            |t: metadata_store::TableRow|
                metadata_store::TableRow {
                    sources: metadata_store::without_name(t.sources, id),
                    ..t
                },
        ),
        ..s
    }
}

pub struct AgentApiHandler;

impl AgentApiHandler {
    /// Registers the agent that a body tells of; it needs a name.
    pub fn handle_register(store: &mut AgentStore, body: &Vec<u8>, now_ms: i64) -> (r: AgentReply)
        requires
            old(store).wf(),
        ensures
            final(store).wf(),
            register_done(old(store)@, body@, now_ms, final(store)@, r),
    {
        let doc = json::parse(body.as_slice());
        let id = json::text_or(&doc, "id", "");
        proof {
            reveal_strlit("");
            assert(""@ =~= Seq::<char>::empty());
        }
        if id.as_str().is_empty() {
            return AgentReply::Text(
                Reply::new(400, "{\"error\":\"agent id required\",\"code\":\"BAD_REQUEST\"}"),
            );
        }
        let hostname = json::text_or(&doc, "hostname", "unknown");
        let arch = json::text_or(&doc, "arch", "unknown");
        let version = json::text_or(&doc, "version", "0.1.0");
        let listen_addr = json::text_or(&doc, "listen_addr", "unknown");
        let agent = store.register(
            id.as_str(),
            hostname.as_str(),
            arch.as_str(),
            version.as_str(),
            listen_addr.as_str(),
            now_ms,
        );
        AgentReply::Registered {
            agent_id: agent.id,
            config_json: agent.config_json,
            config_version: agent.config_version,
        }
    }

    /// Takes the heartbeat that a body tells of: notes it, merges the schemas, and answers
    /// with the configuration where one is due.
    pub fn handle_heartbeat(
        store: &mut AgentStore,
        metadata: &mut MetadataStore,
        body: &Vec<u8>,
        now_ms: i64,
    ) -> (r: AgentReply)
        requires
            old(store).wf(),
        ensures
            final(store).wf(),
            heartbeat_done(
                old(store)@,
                old(metadata)@,
                body@,
                now_ms,
                final(store)@,
                final(metadata)@,
                r,
            ),
    {
        let doc = json::parse(body.as_slice());
        let id = json::text_or(&doc, "id", "");
        proof {
            reveal_strlit("");
            assert(""@ =~= Seq::<char>::empty());
            agent_store::lemma_agent_position(store@, id@);
        }
        let version = json::natural_or_zero(&doc, "config_version");
        let ghost before = store@;
        if !store.heartbeat(id.as_str(), version, now_ms) {
            let body = text::join3(
                "{\"error\":\"agent ",
                id.as_str(),
                " not found\",\"code\":\"NOT_FOUND\"}",
            );
            return AgentReply::Text(Reply { status: 404, body });
        }
        forward_changes(metadata, &doc, id.as_str());
        proof {
            let a = agent_store::agent_of(before, id@)->0;
            lemma_update_found(before, id@, agent_store::seen(a, version as i64, now_ms));
        }
        let due = match store.should_update_config(id.as_str(), version) {
            Ok(b) => b,
            Err(_) => false,
        };
        let mut config_update: Option<serde_json::Value> = None;
        if due {
            match store.get(id.as_str()) {
                Ok(agent) => match agent.config_json {
                    Some(c) => {
                        config_update = json::parse(c.as_str().as_bytes());
                    },
                    None => {},
                },
                Err(_) => {},
            }
        }
        AgentReply::Beat { config_update }
    }

    /// Lists the agents.
    pub fn handle_list(store: &AgentStore, now_ms: i64) -> (r: AgentReply)
        ensures
            list_done(store@, now_ms, r),
    {
        let agents = store.list();
        let ghost models = agents@.map_values(|a: AgentRecord| a@);
        let mut list: Vec<AgentSummary> = Vec::new();
        let mut i: usize = 0;
        while i < agents.len()
            invariant
                i <= agents@.len(),
                models == agents@.map_values(|a: AgentRecord| a@),
                models == store@,
                list@.len() == i,
                forall|k: int|
                    0 <= k < i ==> summary_right(models[k], now_ms, #[trigger] list@[k]),
            decreases agents@.len() - i,
        {
            assert(models[i as int] == agents@[i as int]@);
            let a = agents[i].clone();
            let status = match a.last_seen_at {
                None => "unknown",
                Some(at) => if now_ms as i128 - at as i128 <= ONLINE_MS as i128 {
                    "online"
                } else {
                    "offline"
                },
            };
            let last_seen = match a.last_seen_at {
                Some(at) => Some(time::ms_to_iso8601(at)),
                None => None,
            };
            list.push(
                AgentSummary {
                    id: a.id,
                    hostname: a.hostname,
                    status: status.to_owned(),
                    last_seen,
                    config_version: a.config_version,
                    target_config_version: a.target_config_version,
                    listen_addr: a.listen_addr,
                },
            );
            i += 1;
        }
        assert(models.len() == agents@.len());
        AgentReply::Agents(list)
    }

    /// Tells of one agent.
    pub fn handle_get(store: &AgentStore, id: &str) -> (r: AgentReply)
        ensures
            get_done(store@, id@, r),
    {
        match store.get(id) {
            Ok(agent) => AgentReply::Agent(agent),
            Err(_) => AgentReply::Text(
                Reply::new(404, "{\"error\":\"agent not found\",\"code\":\"NOT_FOUND\"}"),
            ),
        }
    }

    /// Gives an agent the configuration that is the body.
    pub fn handle_update_config(store: &mut AgentStore, id: &str, body: &Vec<u8>) -> (r: AgentReply)
        requires
            old(store).wf(),
            agent_store::agent_of(old(store)@, id@) is Some ==> agent_store::agent_of(
                old(store)@,
                id@,
            )->0.target_config_version < i64::MAX,
        ensures
            final(store).wf(),
            config_done(old(store)@, id@, body@, final(store)@, r),
    {
        let config_json = http::utf8_lossy(body);
        match store.update_config(id, config_json.as_str()) {
            Ok(target_version) => AgentReply::ConfigSet { target_version },
            Err(e) => {
                let body = text::join3("{\"error\":\"", e.as_str(), "\",\"code\":\"NOT_FOUND\"}");
                proof {
                    reveal_strlit("{\"error\":\"");
                    reveal_strlit("get target version: Query returned no rows");
                    reveal_strlit("\",\"code\":\"NOT_FOUND\"}");
                    reveal_strlit(
                        "{\"error\":\"get target version: Query returned no rows\",\"code\":\"NOT_FOUND\"}",
                    );
                    assert(body@
                        =~= "{\"error\":\"get target version: Query returned no rows\",\"code\":\"NOT_FOUND\"}"@);
                }
                AgentReply::Text(Reply { status: 404, body })
            },
        }
    }

    /// Forgets an agent, also as a source of tables.
    pub fn handle_delete(store: &mut AgentStore, metadata: &mut MetadataStore, id: &str) -> (r:
        AgentReply)
        requires
            old(store).wf(),
        ensures
            final(store).wf(),
            final(store)@ == agent_store::without_agent(old(store)@, id@),
            final(metadata)@ == without_source(old(metadata)@, id@),
            r is Text,
            r->Text_0.is(200, "{\"message\":\"deleted\"}"@),
    {
        metadata.remove_agent(id);
        store.delete(id);
        AgentReply::Text(Reply::new(200, "{\"message\":\"deleted\"}"))
    }

    /// Takes a request about agents.
    pub fn handle(
        store: &mut AgentStore,
        metadata: &mut MetadataStore,
        method: &str,
        path: &str,
        body: &Vec<u8>,
        now_ms: i64,
    ) -> (r: AgentReply)
        requires
            old(store).wf(),
            !overlapping(method@, path@),
            route_of(method@, path@) matches RouteModel::UpdateConfig(id) ==> (
            agent_store::agent_of(old(store)@, id) matches Some(a) ==> a.target_config_version
                < i64::MAX),
        ensures
            final(store).wf(),
            match route_of(method@, path@) {
                RouteModel::Register => register_done(
                    old(store)@,
                    body@,
                    now_ms,
                    final(store)@,
                    r,
                ) && *final(metadata) == *old(metadata),
                RouteModel::Heartbeat => heartbeat_done(
                    old(store)@,
                    old(metadata)@,
                    body@,
                    now_ms,
                    final(store)@,
                    final(metadata)@,
                    r,
                ),
                RouteModel::List => {
                    &&& list_done(old(store)@, now_ms, r)
                    &&& *final(store) == *old(store)
                    &&& *final(metadata) == *old(metadata)
                },
                RouteModel::Get(id) => get_done(old(store)@, id, r) && *final(store) == *old(store)
                    && *final(metadata) == *old(metadata),
                RouteModel::UpdateConfig(id) => config_done(
                    old(store)@,
                    id,
                    body@,
                    final(store)@,
                    r,
                ) && *final(metadata) == *old(metadata),
                RouteModel::Delete(id) => {
                    &&& final(store)@ == agent_store::without_agent(old(store)@, id)
                    &&& final(metadata)@ == without_source(old(metadata)@, id)
                    &&& r is Text
                    &&& r->Text_0.is(200, "{\"message\":\"deleted\"}"@)
                },
                RouteModel::NotFound => {
                    &&& *final(store) == *old(store)
                    &&& *final(metadata) == *old(metadata)
                    &&& r is Text
                    &&& r->Text_0.is(404, "{\"error\":\"not found\",\"code\":\"NOT_FOUND\"}"@)
                },
            },
    {
        match route(method, path) {
            AgentRoute::Register => Self::handle_register(store, body, now_ms),
            AgentRoute::Heartbeat => Self::handle_heartbeat(store, metadata, body, now_ms),
            AgentRoute::List => Self::handle_list(store, now_ms),
            AgentRoute::Get(id) => Self::handle_get(store, id.as_str()),
            AgentRoute::UpdateConfig(id) => Self::handle_update_config(store, id.as_str(), body),
            AgentRoute::Delete(id) => Self::handle_delete(store, metadata, id.as_str()),
            AgentRoute::NotFound => Self::not_found(),
        }
    }

    /// The answer to a request that asks for nothing that is there.
    pub fn not_found() -> (r: AgentReply)
        ensures
            r is Text,
            r->Text_0.is(404, "{\"error\":\"not found\",\"code\":\"NOT_FOUND\"}"@),
    {
        AgentReply::Text(Reply::new(404, "{\"error\":\"not found\",\"code\":\"NOT_FOUND\"}"))
    }
}

proof fn lemma_update_found(
    agents: Seq<agent_store::AgentModel>,
    id: Seq<char>,
    agent: agent_store::AgentModel,
)
    requires
        agent_store::agent_of(agents, id) is Some,
        agent.id == id,
    ensures
        agent_store::agent_of(
            agents.update(agent_store::agent_position(agents, id), agent),
            id,
        ) == Some(agent),
{
    agent_store::lemma_agent_position(agents, id);
    assert(agents.update(agent_store::agent_position(agents, id), agent)
        == agent_store::with_agent(agents, agent));
    agent_store::register_then_get(agents, agent, id);
}

} // verus!
