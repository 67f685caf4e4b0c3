//! What requests about agents come to: who is asked for, what is noted, what is answered.

use crate::http;
use crate::json;
use crate::server::agent_api;
use crate::server::agent_api::{AgentReply, RouteModel};
use crate::server::agent_store;
use crate::server::agent_store::AgentModel;
use crate::server::knowledge;
use crate::server::metadata_store;
use crate::server::metadata_store::{StoreModel, TableRow};
use crate::server::ServerRoute;
use crate::time;
use vstd::prelude::*;

verus! {

/// A path that names an agent asks for it, for its removal or for a new configuration of it,
/// by the method.
pub proof fn paths_name_their_agent(id: Seq<char>, method: Seq<char>)
    ensures
        agent_api::route_of("GET"@, "/api/v1/agents/"@ + id) == RouteModel::Get(id),
        agent_api::route_of("DELETE"@, "/api/v1/agents/"@ + id) == RouteModel::Delete(id),
        agent_api::route_of("PUT"@, "/api/v1/agents/"@ + id + "/config"@)
            == RouteModel::UpdateConfig(id),
        method != "GET"@ && method != "DELETE"@ && method != "PUT"@ && method != "POST"@
            ==> agent_api::route_of(method, "/api/v1/agents/"@ + id) is NotFound,
        !agent_api::overlapping("PUT"@, "/api/v1/agents/"@ + id + "/config"@),
{
    reveal_strlit("/api/v1/agents/");
    reveal_strlit("/api/v1/agents");
    reveal_strlit("/api/v1/agents/config");
    reveal_strlit("/config");
    reveal_strlit("GET");
    reveal_strlit("PUT");
    reveal_strlit("POST");
    reveal_strlit("DELETE");
    assert("GET"@[0] == 'G' && "PUT"@[0] == 'P' && "POST"@.len() == 4 && "PUT"@.len() == 3
        && "GET"@.len() == 3 && "DELETE"@.len() == 6);
    let front = "/api/v1/agents/"@;
    let path = front + id;
    assert(front.is_prefix_of(path)) by {
        assert(path.subrange(0, front.len() as int) =~= front);
    }
    assert(agent_api::after_front(path) =~= id);
    assert(path.len() > "/api/v1/agents"@.len());
    let long = path + "/config"@;
    assert(front.is_prefix_of(long)) by {
        assert(long.subrange(0, front.len() as int) =~= front);
    }
    assert("/config"@.is_suffix_of(long)) by {
        assert(long.subrange(long.len() - "/config"@.len(), long.len() as int) =~= "/config"@);
    }
    let rest = agent_api::after_front(long);
    assert(rest =~= id + "/config"@);
    assert(rest.take(rest.len() - "/config"@.len()) =~= id);
    assert(long.len() > "/api/v1/agents/config"@.len());
}

/// What an agent sends to register and as its heartbeat reaches those that take it, and the
/// list of agents is asked for at the front of their paths.
pub proof fn agents_are_heard(r: ServerRoute, is_get: bool)
    ensures
        agent_api::route_of("POST"@, "/api/v1/agents/register"@) is Register,
        agent_api::route_of("POST"@, "/api/v1/agents/heartbeat"@) is Heartbeat,
        agent_api::route_of("GET"@, "/api/v1/agents"@) is List,
        crate::server::route_right(is_get, "/api/v1/agents/register"@, true, r) ==> r is Agents,
        crate::server::route_right(is_get, "/api/v1/agents/heartbeat"@, true, r) ==> r is Agents,
        crate::server::route_right(is_get, "/api/v1/agents"@, true, r) ==> r is Agents,
{
    reveal_strlit("/api/v1/agents/register");
    reveal_strlit("/api/v1/agents/heartbeat");
    reveal_strlit("/api/v1/agents");
    reveal_strlit("GET");
    reveal_strlit("POST");
    assert("GET"@.len() == 3 && "POST"@.len() == 4);
    let front = "/api/v1/agents"@;
    let a = "/api/v1/agents/register"@;
    let b = "/api/v1/agents/heartbeat"@;
    assert(a.len() == 23 && b.len() == 24 && front.len() == 14);
    assert(a.subrange(0, front.len() as int) =~= front);
    assert(b.subrange(0, front.len() as int) =~= front);
    assert(front.subrange(0, front.len() as int) =~= front);
}

/// A request for the path of an agent goes to those who answer for agents, where there are
/// any, whatever its method.
pub proof fn agent_paths_are_answered(
    rest: Seq<char>,
    is_get: bool,
    with_agents: bool,
    r: ServerRoute,
)
    requires
        crate::server::route_right(is_get, "/api/v1/agents"@ + rest, with_agents, r),
    ensures
        with_agents <==> r is Agents,
        !with_agents ==> r is Reply && r->Reply_0.status == 404,
{
    let front = "/api/v1/agents"@;
    let path = front + rest;
    assert(path.subrange(0, front.len() as int) =~= front);
}

/// An agent is online for half a minute after its last sign, offline later, and neither where
/// it gave none.
pub proof fn agents_are_online_after_a_sign(at: i64, now_ms: i64)
    ensures
        agent_api::status_of(Some(at), now_ms) == "online"@ <==> now_ms <= at + 30 * 1000,
        agent_api::status_of(Some(at), now_ms) == "offline"@ <==> now_ms > at + 30 * 1000,
        agent_api::status_of(None, now_ms) == "unknown"@,
{
    reveal_strlit("online");
    reveal_strlit("offline");
    assert("online"@.len() == 6 && "offline"@.len() == 7);
}

/// A registration is taken where it names the agent: the agent is known by what it told from
/// then on, with what it had of a configuration, and no other agent changes. It is answered
/// with its name, its configuration and its version.
pub proof fn named_agents_are_registered(
    before: Seq<AgentModel>,
    body: Seq<u8>,
    now_ms: i64,
    after: Seq<AgentModel>,
    r: AgentReply,
    other: Seq<char>,
)
    requires
        agent_api::register_done(before, body, now_ms, after, r),
    ensures
        ({
            let doc = json::parsed_json(body);
            let id = json::text_member(doc, "id"@, Seq::empty());
            &&& id.len() == 0 ==> after == before && r is Text && r->Text_0.status == 400
            &&& id.len() > 0 ==> {
                &&& agent_store::agent_of(after, id) matches Some(a)
                &&& a.hostname == json::text_member(doc, "hostname"@, "unknown"@)
                &&& a.arch == Some(json::text_member(doc, "arch"@, "unknown"@))
                &&& a.version == Some(json::text_member(doc, "version"@, "0.1.0"@))
                &&& a.listen_addr == Some(json::text_member(doc, "listen_addr"@, "unknown"@))
                &&& a.last_seen_at == Some(now_ms)
                &&& a.registered_at == now_ms
                &&& agent_store::agent_of(before, id) matches Some(b) ==> a.config_json
                    == b.config_json && a.config_version == b.config_version
                    && a.target_config_version == b.target_config_version
                &&& r is Registered && r->agent_id@ == id && r->config_version
                    == a.config_version && agent_store::optional_text(r->config_json)
                    == a.config_json
            }
            &&& other != id ==> agent_store::agent_of(after, other) == agent_store::agent_of(
                before,
                other,
            )
        }),
{
    let doc = json::parsed_json(body);
    let id = json::text_member(doc, "id"@, Seq::empty());
    if id.len() > 0 {
        let agent = agent_store::registered(
            agent_store::agent_of(before, id),
            id,
            json::text_member(doc, "hostname"@, "unknown"@),
            json::text_member(doc, "arch"@, "unknown"@),
            json::text_member(doc, "version"@, "0.1.0"@),
            json::text_member(doc, "listen_addr"@, "unknown"@),
            now_ms,
        );
        agent_store::register_then_get(before, agent, other);
    }
}

proof fn lemma_update(agents: Seq<AgentModel>, agent: AgentModel, other: Seq<char>)
    requires
        agent_store::agent_of(agents, agent.id) is Some,
    ensures
        ({
            let after = agents.update(agent_store::agent_position(agents, agent.id), agent);
            &&& agent_store::agent_of(after, agent.id) == Some(agent)
            &&& other != agent.id ==> agent_store::agent_of(after, other) == agent_store::agent_of(
                agents,
                other,
            )
        }),
{
    agent_store::register_then_get(agents, agent, other);
    assert(agent_store::with_agent(agents, agent) == agents.update(
        agent_store::agent_position(agents, agent.id),
        agent,
    ));
}

/// A heartbeat of a known agent is noted for it alone, and all schemas that it tells of are
/// merged; it is answered with the configuration where the agent has an older one. One of an
/// agent that is not known changes nothing.
pub proof fn known_agents_beat(
    before: Seq<AgentModel>,
    tables_before: StoreModel,
    body: Seq<u8>,
    now_ms: i64,
    after: Seq<AgentModel>,
    tables_after: StoreModel,
    r: AgentReply,
    other: Seq<char>,
)
    requires
        agent_api::heartbeat_done(
            before,
            tables_before,
            body,
            now_ms,
            after,
            tables_after,
            r,
        ),
    ensures
        ({
            let doc = json::parsed_json(body);
            let id = json::text_member(doc, "id"@, Seq::empty());
            let version = json::natural_member(doc, "config_version"@);
            &&& agent_store::agent_of(before, id) is None ==> after == before && tables_after
                == tables_before && r is Text && r->Text_0.status == 404
            &&& agent_store::agent_of(before, id) matches Some(b) ==> {
                &&& agent_store::agent_of(after, id) matches Some(a)
                &&& a.last_seen_at == Some(now_ms)
                &&& a.config_version == b.config_version || a.config_version == version as i64
                &&& a.config_version >= b.config_version && a.config_version >= version as i64
                &&& a.hostname == b.hostname && a.arch == b.arch && a.version == b.version
                &&& a.config_json == b.config_json && a.target_config_version
                    == b.target_config_version && a.registered_at == b.registered_at
                    && a.listen_addr == b.listen_addr
                &&& doc matches Some(d) ==> tables_after == agent_api::after_changes(
                    tables_before,
                    json::items_of(d, "schema_changes"@),
                    id,
                )
                &&& doc is None ==> tables_after == tables_before
                &&& r is Beat
                &&& b.target_config_version as u64 <= version ==> json::optional_json(
                    r->config_update,
                ) is None
                &&& b.target_config_version as u64 > version ==> match b.config_json {
                    Some(c) => json::optional_json(r->config_update) == json::parsed_json(
                        vstd::utf8::encode_utf8(c),
                    ),
                    None => json::optional_json(r->config_update) is None,
                }
            }
            &&& other != id ==> agent_store::agent_of(after, other) == agent_store::agent_of(
                before,
                other,
            )
        }),
{
    let doc = json::parsed_json(body);
    let id = json::text_member(doc, "id"@, Seq::empty());
    let version = json::natural_member(doc, "config_version"@);
    if agent_store::agent_of(before, id) is Some {
        let b = agent_store::agent_of(before, id)->0;
        agent_store::lemma_agent_position(before, id);
        lemma_update(before, agent_store::seen(b, version as i64, now_ms), other);
    }
}

/// A new configuration is the body, kept for the agent that is named under the next version,
/// which the answer tells; no other agent changes, and nothing does where there is none of the
/// name.
pub proof fn configurations_reach_their_agent(
    before: Seq<AgentModel>,
    id: Seq<char>,
    body: Seq<u8>,
    after: Seq<AgentModel>,
    r: AgentReply,
    other: Seq<char>,
)
    requires
        agent_api::config_done(before, id, body, after, r),
        agent_store::agent_of(before, id) matches Some(b) ==> 0 <= b.target_config_version
            < i64::MAX,
    ensures
        agent_store::agent_of(before, id) matches Some(b) ==> {
            &&& agent_store::agent_of(after, id) matches Some(a)
            &&& a.config_json == Some(http::lossy_text(body))
            &&& a.target_config_version == b.target_config_version + 1
            &&& a.config_version == b.config_version && a.last_seen_at == b.last_seen_at
            &&& r is ConfigSet && r->target_version == b.target_config_version + 1
        },
        agent_store::agent_of(before, id) is None ==> after == before && r is Text
            && r->Text_0.status == 404,
        other != id ==> agent_store::agent_of(after, other) == agent_store::agent_of(before, other),
{
    if agent_store::agent_of(before, id) is Some {
        let b = agent_store::agent_of(before, id)->0;
        agent_store::lemma_agent_position(before, id);
        lemma_update(before, agent_store::configured(b, http::lossy_text(body)), other);
    }
}

/// One agent is told of by what is known of it; one of a name that is not known is not there.
pub proof fn agents_are_told_of(agents: Seq<AgentModel>, id: Seq<char>, r: AgentReply)
    requires
        agent_api::get_done(agents, id, r),
    ensures
        r is Agent <==> exists|i: int| 0 <= i < agents.len() && (#[trigger] agents[i]).id == id,
        r is Agent ==> r->Agent_0@.id == id && agents.contains(r->Agent_0@),
        !(r is Agent) ==> r is Text && r->Text_0.status == 404,
{
    agent_store::lemma_agent_position(agents, id);
    let p = agent_store::agent_position(agents, id);
    if p < agents.len() {
        assert(agents[p].id == id);
        assert(agents.contains(agents[p]));
    }
}

/// All agents are listed in their order, each by its own names, its state, its versions and
/// the time of its last sign.
pub proof fn all_agents_are_listed(agents: Seq<AgentModel>, now_ms: i64, r: AgentReply, i: int)
    requires
        agent_api::list_done(agents, now_ms, r),
        0 <= i < agents.len(),
    ensures
        r is Agents && r->Agents_0@.len() == agents.len(),
        r->Agents_0@[i].id@ == agents[i].id,
        r->Agents_0@[i].hostname@ == agents[i].hostname,
        r->Agents_0@[i].config_version == agents[i].config_version,
        r->Agents_0@[i].target_config_version == agents[i].target_config_version,
        agent_store::optional_text(r->Agents_0@[i].listen_addr) == agents[i].listen_addr,
        agents[i].last_seen_at matches Some(at) ==> (r->Agents_0@[i].status@ == "online"@
            <==> now_ms <= at + 30_000) && agent_store::optional_text(r->Agents_0@[i].last_seen)
            == Some(time::iso8601_of(at)),
        agents[i].last_seen_at is None ==> r->Agents_0@[i].status@ == "unknown"@
            && r->Agents_0@[i].last_seen is None,
{
    if agents[i].last_seen_at is Some {
        agents_are_online_after_a_sign(agents[i].last_seen_at->0, now_ms);
    }
    assert(agent_api::summary_right(agents[i], now_ms, r->Agents_0@[i]));
}

/// A schema that a heartbeat tells of is merged into the table that it names: its fields and
/// tags are known from then on, and the agent is one of its sources. No other table changes,
/// and nothing does where the database or the table is not named.
pub proof fn schemas_reach_their_table(
    s: StoreModel,
    entry: json::Json,
    agent_id: Seq<char>,
    other_db: Seq<char>,
    other_table: Seq<char>,
)
    ensures
        ({
            let after = agent_api::after_change(s, entry, agent_id);
            let db = json::text_member(Some(entry), "db"@, Seq::empty());
            let table = json::text_member(Some(entry), "table"@, Seq::empty());
            let before = metadata_store::row_or_new(s, db, table);
            &&& db.len() == 0 || table.len() == 0 ==> after == s
            &&& db.len() > 0 && table.len() > 0 ==> {
                &&& metadata_store::row_of(after, db, table) matches Some(row)
                &&& row.sources.contains(agent_id)
                &&& before.sources.is_prefix_of(row.sources)
                &&& row.total_rows == before.total_rows && row.time_min == before.time_min
                    && row.time_max == before.time_max && row.updated_at == before.updated_at
                &&& knowledge::learned(
                    before.fields,
                    json::text_pairs(json::items_of(entry, "field_defs"@)),
                    json::texts(json::items_of(entry, "tag_keys"@)),
                    row.fields,
                )
                &&& after.databases.contains(db)
            }
            &&& other_db != db || other_table != table ==> metadata_store::row_of(
                after,
                other_db,
                other_table,
            ) == metadata_store::row_of(s, other_db, other_table)
            &&& after.tombstones == s.tombstones
        }),
{
    let db = json::text_member(Some(entry), "db"@, Seq::empty());
    let table = json::text_member(Some(entry), "table"@, Seq::empty());
    if db.len() > 0 && table.len() > 0 {
        let before = metadata_store::row_or_new(s, db, table);
        metadata_store::lemma_row_position(s.tables, db, table);
        let tags = json::texts(json::items_of(entry, "tag_keys"@));
        let defs = json::text_pairs(json::items_of(entry, "field_defs"@));
        let row = metadata_store::merged(before, agent_id, true, tags, defs);
        knowledge::schema_report_is_merged(before, agent_id, true, tags, defs);
        metadata_store::put_then_read(s, row, other_db, other_table);
        metadata_store::put_then_read(s, row, db, table);
    }
}

/// All schemas that a heartbeat tells of are merged, one after the other.
pub proof fn all_schemas_are_merged(
    s: StoreModel,
    a: Seq<json::Json>,
    b: Seq<json::Json>,
    entry: json::Json,
    agent_id: Seq<char>,
)
    ensures
        agent_api::after_changes(s, Seq::empty(), agent_id) == s,
        agent_api::after_changes(s, seq![entry], agent_id) == agent_api::after_change(
            s,
            entry,
            agent_id,
        ),
        agent_api::after_changes(s, a + b, agent_id) == agent_api::after_changes(
            agent_api::after_changes(s, a, agent_id),
            b,
            agent_id,
        ),
    decreases b.len(),
{
    reveal_with_fuel(agent_api::after_changes, 2);
    assert(seq![entry].drop_last() =~= Seq::empty());
    if b.len() == 0 {
        assert(a + b =~= a);
    } else {
        all_schemas_are_merged(s, a, b.drop_last(), entry, agent_id);
        assert((a + b).drop_last() =~= a + b.drop_last());
    }
}

/// A configuration is due to an agent exactly where it has an older one and the text kept for
/// it is a document.
pub proof fn configurations_are_due(a: AgentModel, client_version: u64)
    ensures
        a.target_config_version as u64 <= client_version ==> agent_api::due_config(
            a,
            client_version,
        ) is None,
        a.target_config_version as u64 > client_version && a.config_json is Some
            ==> agent_api::due_config(a, client_version) == json::parsed_json(
            vstd::utf8::encode_utf8(a.config_json->0),
        ),
        a.config_json is None ==> agent_api::due_config(a, client_version) is None,
{
}

/// Forgetting an agent as a source takes it from every table, and nothing else from any.
pub proof fn source_leaves_every_table(s: StoreModel, id: Seq<char>)
    ensures
        ({
            let after = agent_api::without_source(s, id);
            &&& after.tables.len() == s.tables.len()
            &&& forall|i: int|
                0 <= i < s.tables.len() ==> (#[trigger] after.tables[i]) == (TableRow {
                    sources: s.tables[i].sources.filter(|n: Seq<char>| n != id),
                    ..s.tables[i]
                })
            &&& after.databases == s.databases
            &&& after.tombstones == s.tombstones
        }),
{
    let after = agent_api::without_source(s, id);
    assert forall|i: int| 0 <= i < s.tables.len() implies (#[trigger] after.tables[i]) == (
    TableRow {
        sources: s.tables[i].sources.filter(|n: Seq<char>| n != id),
        ..s.tables[i]
    }) by {
        knowledge::sources_are_forgotten(s.tables[i].sources, id);
    }
}

} // verus!
