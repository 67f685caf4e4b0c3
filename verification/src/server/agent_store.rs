//! The agents that have registered, with the versions of their configuration.

use crate::text;
use vstd::prelude::*;

verus! {

#[derive(Debug)]
pub struct AgentRecord {
    pub id: String,
    pub hostname: String,
    pub arch: Option<String>,
    pub version: Option<String>,
    pub config_json: Option<String>,
    /// The version that the agent has.
    pub config_version: i64,
    /// The version that the agent is to have.
    pub target_config_version: i64,
    pub registered_at: i64,
    pub last_seen_at: Option<i64>,
    pub listen_addr: Option<String>,
}

#[verifier::ext_equal]
pub struct AgentModel {
    pub id: Seq<char>,
    pub hostname: Seq<char>,
    pub arch: Option<Seq<char>>,
    pub version: Option<Seq<char>>,
    pub config_json: Option<Seq<char>>,
    pub config_version: i64,
    pub target_config_version: i64,
    pub registered_at: i64,
    pub last_seen_at: Option<i64>,
    pub listen_addr: Option<Seq<char>>,
}

pub open spec fn optional_text(s: Option<String>) -> Option<Seq<char>> {
    match s {
        Some(t) => Some(t@),
        None => None,
    }
}

impl View for AgentRecord {
    type V = AgentModel;

    open spec fn view(&self) -> AgentModel {
        AgentModel {
            id: self.id@,
            hostname: self.hostname@,
            arch: optional_text(self.arch),
            version: optional_text(self.version),
            config_json: optional_text(self.config_json),
            config_version: self.config_version,
            target_config_version: self.target_config_version,
            registered_at: self.registered_at,
            last_seen_at: self.last_seen_at,
            listen_addr: optional_text(self.listen_addr),
        }
    }
}

fn copy_text(s: &Option<String>) -> (r: Option<String>)
    ensures
        optional_text(r) == optional_text(*s),
{
    match s {
        Some(t) => Some(t.clone()),
        None => None,
    }
}

impl Clone for AgentRecord {
    fn clone(&self) -> (r: Self)
        ensures
            r@ == self@,
    {
        AgentRecord {
            id: self.id.clone(),
            hostname: self.hostname.clone(),
            arch: copy_text(&self.arch),
            version: copy_text(&self.version),
            config_json: copy_text(&self.config_json),
            config_version: self.config_version,
            target_config_version: self.target_config_version,
            registered_at: self.registered_at,
            last_seen_at: self.last_seen_at,
            listen_addr: copy_text(&self.listen_addr),
        }
    }
}

/// The agents, in the order in which they first registered.
#[derive(Debug)]
pub struct AgentStore {
    pub agents: Vec<AgentRecord>,
}

impl View for AgentStore {
    type V = Seq<AgentModel>;

    open spec fn view(&self) -> Seq<AgentModel> {
        self.agents@.map_values(|a: AgentRecord| a@)
    }
}

/// The position of the first agent of a given name, or the number of agents.
pub open spec fn agent_position(agents: Seq<AgentModel>, id: Seq<char>) -> int
    decreases agents.len(),
{
    if agents.len() == 0 || agents[0].id == id {
        0
    } else {
        1 + agent_position(agents.drop_first(), id)
    }
}

/// The agent of a given name.
pub open spec fn agent_of(agents: Seq<AgentModel>, id: Seq<char>) -> Option<AgentModel> {
    let i = agent_position(agents, id);
    if i < agents.len() {
        Some(agents[i])
    } else {
        None
    }
}

pub proof fn lemma_agent_position(agents: Seq<AgentModel>, id: Seq<char>)
    ensures
        0 <= agent_position(agents, id) <= agents.len(),
        forall|i: int| 0 <= i < agent_position(agents, id) ==> (#[trigger] agents[i]).id != id,
        agent_position(agents, id) < agents.len() ==> agents[agent_position(agents, id)].id == id,
    decreases agents.len(),
{
    if agents.len() > 0 && agents[0].id != id {
        let rest = agents.drop_first();
        lemma_agent_position(rest, id);
        assert forall|i: int| 0 <= i < agent_position(agents, id) implies (#[trigger] agents[i]).id
            != id by {
            if i > 0 {
                assert(rest[i - 1] == agents[i]);
            }
        }
    }
}

/// What a registration makes of an agent: a new one begins with version 1, one that
/// registers again keeps its configuration and its versions.
pub open spec fn registered(
    before: Option<AgentModel>,
    id: Seq<char>,
    hostname: Seq<char>,
    arch: Seq<char>,
    version: Seq<char>,
    listen_addr: Seq<char>,
    now_ms: i64,
) -> AgentModel {
    let fresh = AgentModel {
        id,
        hostname,
        arch: Some(arch),
        version: Some(version),
        config_json: None,
        config_version: 1,
        target_config_version: 1,
        registered_at: now_ms,
        last_seen_at: Some(now_ms),
        listen_addr: Some(listen_addr),
    };
    match before {
        Some(a) => AgentModel {
            config_json: a.config_json,
            config_version: a.config_version,
            target_config_version: a.target_config_version,
            ..fresh
        },
        None => fresh,
    }
}

/// The agents with `agent` in the place of the one of its name, or at the end.
pub open spec fn with_agent(agents: Seq<AgentModel>, agent: AgentModel) -> Seq<AgentModel> {
    let i = agent_position(agents, agent.id);
    if i < agents.len() {
        agents.update(i, agent)
    } else {
        agents.push(agent)
    }
}

/// What a heartbeat makes of an agent: its version never goes back.
pub open spec fn seen(a: AgentModel, config_version: i64, now_ms: i64) -> AgentModel {
    AgentModel {
        last_seen_at: Some(now_ms),
        config_version: if config_version > a.config_version {
            config_version
        } else {
            a.config_version
        },
        ..a
    }
}

/// What a new configuration makes of an agent.
pub open spec fn configured(a: AgentModel, config_json: Seq<char>) -> AgentModel {
    AgentModel {
        config_json: Some(config_json),
        target_config_version: (a.target_config_version + 1) as i64,
        ..a
    }
}

/// The agents without the one of a given name.
pub open spec fn without_agent(agents: Seq<AgentModel>, id: Seq<char>) -> Seq<AgentModel> {
    let i = agent_position(agents, id);
    if i < agents.len() {
        agents.remove(i)
    } else {
        agents
    }
}

impl AgentStore {
    /// No name stands twice.
    pub open spec fn wf(&self) -> bool {
        forall|i: int, j: int|
            #![trigger self@[i], self@[j]]
            0 <= i < j < self@.len() ==> self@[i].id != self@[j].id
    }

    pub fn new() -> (r: AgentStore)
        ensures
            r@ == Seq::<AgentModel>::empty(),
            r.wf(),
    {
        let r = AgentStore { agents: Vec::new() };
        assert(r@ =~= Seq::<AgentModel>::empty());
        r
    }

    /// The position of an agent, or the number of agents.
    fn position(&self, id: &str) -> (r: usize)
        ensures
            r == agent_position(self@, id@),
            r <= self.agents@.len(),
    {
        proof {
            lemma_agent_position(self@, id@);
        }
        let mut i: usize = 0;
        while i < self.agents.len()
            invariant
                i <= self.agents@.len(),
                i <= agent_position(self@, id@) <= self@.len(),
                forall|k: int| 0 <= k < agent_position(self@, id@) ==> (#[trigger] self@[k]).id != id@,
                agent_position(self@, id@) < self@.len() ==> self@[agent_position(self@, id@)].id
                    == id@,
            decreases self.agents@.len() - i,
        {
            assert(self@[i as int].id == self.agents@[i as int].id@);
            if text::same(self.agents[i].id.as_str(), id) {
                return i;
            }
            i += 1;
        }
        i
    }

    /// Registers an agent, or registers it again. Returns what is known of it then.
    pub fn register(
        &mut self,
        id: &str,
        hostname: &str,
        arch: &str,
        version: &str,
        listen_addr: &str,
        now_ms: i64,
    ) -> (r: AgentRecord)
        requires
            old(self).wf(),
        ensures
            final(self).wf(),
            r@ == registered(
                agent_of(old(self)@, id@),
                id@,
                hostname@,
                arch@,
                version@,
                listen_addr@,
                now_ms,
            ),
            final(self)@ == with_agent(old(self)@, r@),
    {
        proof {
            lemma_agent_position(self@, id@);
        }
        let ghost before = self@;
        let i = self.position(id);
        let mut record = AgentRecord {
            id: id.to_owned(),
            hostname: hostname.to_owned(),
            arch: Some(arch.to_owned()),
            version: Some(version.to_owned()),
            config_json: None,
            config_version: 1,
            target_config_version: 1,
            registered_at: now_ms,
            last_seen_at: Some(now_ms),
            listen_addr: Some(listen_addr.to_owned()),
        };
        if i < self.agents.len() {
            assert(before[i as int] == self.agents@[i as int]@);
            record.config_json = copy_text(&self.agents[i].config_json);
            record.config_version = self.agents[i].config_version;
            record.target_config_version = self.agents[i].target_config_version;
            let kept = record.clone();
            self.agents.set(i, kept);
            assert(self@ =~= before.update(i as int, record@));
        } else {
            let kept = record.clone();
            self.agents.push(kept);
            assert(self@ =~= before.push(record@));
        }
        assert(self.wf()) by {
            let after = self@;
            assert forall|a: int, b: int|
                #![trigger after[a], after[b]]
                0 <= a < b < after.len() implies after[a].id != after[b].id by {
                if a < before.len() {
                    assert(before[a].id == after[a].id);
                }
                if b < before.len() {
                    assert(before[b].id == after[b].id);
                }
            }
        }
        record
    }

    /// Notes a heartbeat with the version that the agent has; false for an agent that is
    /// not registered.
    pub fn heartbeat(&mut self, id: &str, config_version: u64, now_ms: i64) -> (r: bool)
        requires
            old(self).wf(),
        ensures
            final(self).wf(),
            r == agent_of(old(self)@, id@) is Some,
            !r ==> *final(self) == *old(self),
            r ==> final(self)@ == old(self)@.update(
                agent_position(old(self)@, id@),
                seen(agent_of(old(self)@, id@)->0, config_version as i64, now_ms),
            ),
    {
        proof {
            lemma_agent_position(self@, id@);
        }
        let ghost before = self@;
        let i = self.position(id);
        if i < self.agents.len() {
            assert(before[i as int] == self.agents@[i as int]@);
            let mut record = self.agents[i].clone();
            record.last_seen_at = Some(now_ms);
            let reported: i64 = config_version as i64;
            if reported > record.config_version {
                record.config_version = reported;
            }
            self.agents.set(i, record);
            assert(self@ =~= before.update(i as int, record@));
            assert(record@ =~= seen(before[i as int], config_version as i64, now_ms));
            true
        } else {
            false
        }
    }

    /// What is known of an agent.
    pub fn get(&self, id: &str) -> (r: Result<AgentRecord, String>)
        ensures
            match agent_of(self@, id@) {
                Some(a) => r is Ok && r->Ok_0@ == a,
                None => r is Err && r->Err_0@ == "get agent: Query returned no rows"@,
            },
    {
        proof {
            lemma_agent_position(self@, id@);
        }
        let i = self.position(id);
        if i < self.agents.len() {
            assert(self@[i as int] == self.agents@[i as int]@);
            Ok(self.agents[i].clone())
        } else {
            Err("get agent: Query returned no rows".to_owned())
        }
    }

    /// All agents.
    pub fn list(&self) -> (r: Vec<AgentRecord>)
        ensures
            r@.map_values(|a: AgentRecord| a@) == self@,
    {
        let mut r: Vec<AgentRecord> = Vec::new();
        let mut i: usize = 0;
        while i < self.agents.len()
            invariant
                i <= self.agents@.len(),
                r@.len() == i,
                forall|k: int| 0 <= k < i ==> (#[trigger] r@[k])@ == self.agents@[k]@,
            decreases self.agents@.len() - i,
        {
            r.push(self.agents[i].clone());
            i += 1;
        }
        assert(r@.map_values(|a: AgentRecord| a@) =~= self@);
        r
    }

    /// Gives an agent a new configuration. Returns its version.
    pub fn update_config(&mut self, id: &str, config_json: &str) -> (r: Result<u64, String>)
        requires
            old(self).wf(),
            agent_of(old(self)@, id@) is Some ==> agent_of(
                old(self)@,
                id@,
            )->0.target_config_version < i64::MAX,
        ensures
            final(self).wf(),
            match agent_of(old(self)@, id@) {
                Some(a) => {
                    &&& r is Ok
                    &&& r->Ok_0 == configured(a, config_json@).target_config_version as u64
                    &&& final(self)@ == old(self)@.update(
                        agent_position(old(self)@, id@),
                        configured(a, config_json@),
                    )
                },
                None => {
                    &&& r is Err
                    &&& r->Err_0@ == "get target version: Query returned no rows"@
                    &&& *final(self) == *old(self)
                },
            },
    {
        proof {
            lemma_agent_position(self@, id@);
        }
        let ghost before = self@;
        let i = self.position(id);
        if i < self.agents.len() {
            assert(before[i as int] == self.agents@[i as int]@);
            let mut record = self.agents[i].clone();
            record.config_json = Some(config_json.to_owned());
            record.target_config_version = record.target_config_version + 1;
            let target: i64 = record.target_config_version;
            self.agents.set(i, record);
            assert(self@ =~= before.update(i as int, record@));
            Ok(target as u64)
        } else {
            Err("get target version: Query returned no rows".to_owned())
        }
    }

    /// Forgets an agent.
    pub fn delete(&mut self, id: &str)
        requires
            old(self).wf(),
        ensures
            final(self).wf(),
            final(self)@ == without_agent(old(self)@, id@),
    {
        proof {
            lemma_agent_position(self@, id@);
        }
        let ghost before = self@;
        let i = self.position(id);
        if i < self.agents.len() {
            let _ = self.agents.remove(i);
            assert(self@ =~= before.remove(i as int));
            assert(self.wf()) by {
                let after = self@;
                assert forall|a: int, b: int|
                    #![trigger after[a], after[b]]
                    0 <= a < b < after.len() implies after[a].id != after[b].id by {
                    let x = if a < i {
                        a
                    } else {
                        a + 1
                    };
                    let y = if b < i {
                        b
                    } else {
                        b + 1
                    };
                    assert(after[a] == before[x] && after[b] == before[y]);
                }
            }
        }
    }

    /// Whether an agent is to get its configuration: the version that it is to have is
    /// above the one that it has.
    pub fn should_update_config(&self, id: &str, current_client_version: u64) -> (r: Result<
        bool,
        String,
    >)
        ensures
            match agent_of(self@, id@) {
                Some(a) => r is Ok && r->Ok_0 == (a.target_config_version as u64
                    > current_client_version),
                None => r is Err && r->Err_0@ == "check version: Query returned no rows"@,
            },
    {
        proof {
            lemma_agent_position(self@, id@);
        }
        let i = self.position(id);
        if i < self.agents.len() {
            assert(self@[i as int] == self.agents@[i as int]@);
            Ok((self.agents[i].target_config_version as u64) > current_client_version)
        } else {
            Err("check version: Query returned no rows".to_owned())
        }
    }
}

/// Reading an agent that has registered gives what it registered with, and every other
/// agent stays as it is.
pub proof fn register_then_get(agents: Seq<AgentModel>, agent: AgentModel, other: Seq<char>)
    ensures
        agent_of(with_agent(agents, agent), agent.id) == Some(agent),
        other != agent.id ==> agent_of(with_agent(agents, agent), other) == agent_of(agents, other),
{
    let after = with_agent(agents, agent);
    lemma_agent_position(agents, agent.id);
    lemma_agent_position(agents, other);
    lemma_agent_position(after, agent.id);
    lemma_agent_position(after, other);
    let i = agent_position(agents, agent.id);
    let k = agent_position(after, agent.id);
    assert(forall|n: int| 0 <= n < agents.len() ==> (#[trigger] after[n]).id == agents[n].id);
    assert(after[i].id == agent.id);
    if k < i {
        assert(after[k].id == agents[k].id);
    }
    if other != agent.id {
        let p = agent_position(agents, other);
        let q = agent_position(after, other);
        if q < p && q < agents.len() {
            assert(after[q].id == agents[q].id);
        }
        if p < q && p < agents.len() {
            assert(after[p].id == agents[p].id);
        }
        if q < after.len() && q >= agents.len() {
            assert(after[q].id == agent.id);
        }
    }
}

/// Registering again keeps the configuration and its versions.
pub proof fn registering_again_keeps_the_configuration(
    before: AgentModel,
    hostname: Seq<char>,
    arch: Seq<char>,
    version: Seq<char>,
    listen_addr: Seq<char>,
    now_ms: i64,
)
    ensures
        ({
            let after = registered(
                Some(before),
                before.id,
                hostname,
                arch,
                version,
                listen_addr,
                now_ms,
            );
            &&& after.config_json == before.config_json
            &&& after.config_version == before.config_version
            &&& after.target_config_version == before.target_config_version
        }),
{
}

/// A heartbeat never takes the version of an agent back, and leaves what it is to have.
pub proof fn heartbeat_never_lowers_the_version(a: AgentModel, config_version: i64, now_ms: i64)
    ensures
        seen(a, config_version, now_ms).config_version >= a.config_version,
        seen(a, config_version, now_ms).config_version >= config_version,
        seen(a, config_version, now_ms).target_config_version == a.target_config_version,
        seen(a, config_version, now_ms).config_json == a.config_json,
{
}

/// A new configuration is due to an agent at every version below it, and no more once the
/// agent has it.
pub proof fn new_configuration_is_due_until_taken(
    a: AgentModel,
    config_json: Seq<char>,
    client_version: u64,
)
    requires
        0 <= a.target_config_version < i64::MAX,
    ensures
        ({
            let target = configured(a, config_json).target_config_version as u64;
            &&& target == a.target_config_version + 1
            &&& target > client_version <==> client_version <= a.target_config_version
        }),
{
}

/// An agent that was forgotten is not found, and every other agent stays.
pub proof fn delete_then_get(agents: Seq<AgentModel>, id: Seq<char>, other: Seq<char>)
    requires
        forall|i: int, j: int|
            #![trigger agents[i], agents[j]]
            0 <= i < j < agents.len() ==> agents[i].id != agents[j].id,
    ensures
        agent_of(without_agent(agents, id), id) is None,
        other != id ==> agent_of(without_agent(agents, id), other) == agent_of(agents, other),
{
    let after = without_agent(agents, id);
    lemma_agent_position(agents, id);
    lemma_agent_position(agents, other);
    lemma_agent_position(after, id);
    lemma_agent_position(after, other);
    let i = agent_position(agents, id);
    if i < agents.len() {
        let k = agent_position(after, id);
        if k < after.len() {
            if k < i {
                assert(after[k] == agents[k]);
            } else {
                assert(after[k] == agents[k + 1]);
                assert(agents[i].id != agents[k + 1].id);
            }
        }
        if other != id {
            let p = agent_position(agents, other);
            let q = agent_position(after, other);
            let p2 = if p < i {
                p
            } else {
                p - 1
            };
            if p < agents.len() {
                assert(after[p2] == agents[p]);
                if q < p2 {
                    if q < i {
                        assert(after[q] == agents[q]);
                    } else {
                        assert(after[q] == agents[q + 1]);
                    }
                }
            } else if q < after.len() {
                if q < i {
                    assert(after[q] == agents[q]);
                } else {
                    assert(after[q] == agents[q + 1]);
                }
            }
        }
    }
}

} // verus!
