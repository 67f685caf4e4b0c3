//! A pass over the tables of a query, step by step: what the caller does next, and what it
//! reports.

use crate::server::agent_store;
use crate::server::agent_store::AgentStore;
use crate::server::federation;
use crate::server::federation::{
    FederationOutcome, Federator, FetchReply, ProviderStep, QueryMode, TableStep,
};
use crate::server::metadata_store;
use crate::server::metadata_store::MetadataStore;
use crate::server::query_engine::QueryEngine;
use crate::server::table_provider;
use crate::server::table_provider::TableProvider;
use crate::text;
use vstd::prelude::*;

verus! {

/// Where a pass stands.
#[derive(Debug)]
pub enum PassPhase {
    /// At the start of a table, or behind the last one.
    Ready,
    Fetching,
    LookingUp,
    SettingUp,
    Planning,
    PuttingBack { failure: Option<String> },
    Ended,
}

/// A pass over the tables of a query.
#[derive(Debug)]
pub struct FederationPass {
    pub federator: Federator,
    /// The table that the pass is at.
    pub at: usize,
    /// Whether rows of this table were fetched.
    pub rows: bool,
    pub phase: PassPhase,
}

/// What the caller reports.
#[derive(Debug)]
pub enum PassEvent {
    Next,
    Fetched(Vec<FetchReply>),
    /// What stands for the table, by a number that the caller chooses.
    Found(Option<usize>),
    SetUp(Result<(), String>),
    Planned(Result<(), String>),
    PutBack,
}

/// What the caller does.
#[derive(Debug)]
pub enum PassAction {
    /// Report `Next`.
    Continue,
    /// Ask these agents, at these addresses.
    Fetch(Vec<(String, String)>),
    /// Look up what stands for the table.
    LookUp { name: String },
    /// Set the table up.
    SetUp { name: String, step: ProviderStep },
    /// Plan the query.
    Plan,
    /// Put back what stood for these names before, one after the other.
    PutBack(Vec<(String, Option<usize>)>),
    Done(FederationOutcome),
    Failed(String),
}

impl FederationPass {
    pub open spec fn wf(&self) -> bool {
        &&& self.at <= self.federator.tables@.len()
        &&& self.federator.mode != QueryMode::History
        &&& (self.phase is Fetching || self.phase is LookingUp || self.phase is SettingUp)
            ==> self.at < self.federator.tables@.len()
    }

    /// Whether the pass waits for an event.
    pub open spec fn expects(&self, event: PassEvent) -> bool {
        match event {
            PassEvent::Next => self.phase is Ready,
            PassEvent::Fetched(_) => self.phase is Fetching,
            PassEvent::Found(_) => self.phase is LookingUp,
            PassEvent::SetUp(_) => self.phase is SettingUp,
            PassEvent::Planned(_) => self.phase is Planning,
            PassEvent::PutBack => self.phase is PuttingBack,
        }
    }

    /// The name of the table that the pass is at.
    pub open spec fn name(&self) -> Seq<char> {
        table_provider::qualified_name(
            self.federator.tables@[self.at as int].0@,
            self.federator.tables@[self.at as int].1@,
        )
    }

    /// The agents that the table that the pass is at has rows from.
    pub open spec fn sources(&self, metadata: metadata_store::StoreModel) -> Seq<Seq<char>> {
        metadata_store::table_agents(
            metadata,
            self.federator.tables@[self.at as int].0@,
            self.federator.tables@[self.at as int].1@,
        )
    }

    /// Whether the agents can still be counted after an event.
    pub open spec fn fits(&self, metadata: metadata_store::StoreModel, event: PassEvent) -> bool {
        match event {
            PassEvent::Next => self.at < self.federator.tables@.len()
                ==> self.federator.outcome.agents_skipped + self.sources(metadata).len()
                <= usize::MAX,
            PassEvent::Fetched(replies) => self.federator.outcome.agents_queried + replies@.len()
                <= usize::MAX && self.federator.outcome.agents_skipped + replies@.len()
                <= usize::MAX,
            _ => true,
        }
    }

    /// Whether the pass goes on with a table, after it is known whether there are rows of
    /// it: with the look-up of what stands for it, or, where nothing is to be done for it,
    /// with the next table.
    pub open spec fn goes_on(&self, before: FederationPass, rows: bool, r: PassAction) -> bool {
        if !rows && before.federator.mode != QueryMode::Buffer {
            &&& self.phase is Ready
            &&& self.at == before.at + 1
            &&& r is Continue
        } else {
            &&& self.phase is LookingUp
            &&& self.at == before.at
            &&& self.rows == rows
            &&& r is LookUp
            &&& r->LookUp_name@ == before.name()
        }
    }

    /// Starts a pass.
    pub fn begin(federator: Federator) -> (r: FederationPass)
        requires
            federator.mode != QueryMode::History,
        ensures
            r.wf(),
            r.federator == federator,
            r.at == 0,
            r.phase is Ready,
    {
        FederationPass { federator, at: 0, rows: false, phase: PassPhase::Ready }
    }

    /// Whether the pass waits for an event.
    pub fn waits_for(&self, event: &PassEvent) -> (r: bool)
        ensures
            r == self.expects(*event),
    {
        match event {
            PassEvent::Next => matches!(self.phase, PassPhase::Ready),
            PassEvent::Fetched(_) => matches!(self.phase, PassPhase::Fetching),
            PassEvent::Found(_) => matches!(self.phase, PassPhase::LookingUp),
            PassEvent::SetUp(_) => matches!(self.phase, PassPhase::SettingUp),
            PassEvent::Planned(_) => matches!(self.phase, PassPhase::Planning),
            PassEvent::PutBack => matches!(self.phase, PassPhase::PuttingBack { .. }),
        }
    }

    /// Whether the agents can still be counted after an event.
    pub fn can_count(&self, metadata: &MetadataStore, event: &PassEvent) -> (r: bool)
        requires
            self.wf(),
        ensures
            r == self.fits(metadata@, *event),
    {
        match event {
            PassEvent::Next => {
                if self.at < self.federator.tables.len() {
                    let ids = metadata.list_table_agents(
                        self.federator.tables[self.at].0.as_str(),
                        self.federator.tables[self.at].1.as_str(),
                    );
                    assert(text::views(ids@).len() == ids@.len());
                    self.federator.outcome.agents_skipped.checked_add(ids.len()).is_some()
                } else {
                    true
                }
            },
            PassEvent::Fetched(replies) => self.federator.outcome.agents_queried.checked_add(
                replies.len(),
            ).is_some() && self.federator.outcome.agents_skipped.checked_add(
                replies.len(),
            ).is_some(),
            _ => true,
        }
    }

    fn table_name(&self) -> (r: String)
        requires
            self.at < self.federator.tables@.len(),
        ensures
            r@ == self.name(),
    {
        TableProvider::qualified(
            self.federator.tables[self.at].0.as_str(),
            self.federator.tables[self.at].1.as_str(),
        )
    }

    fn go_on(&mut self, rows: bool) -> (r: PassAction)
        requires
            old(self).wf(),
            old(self).at < old(self).federator.tables@.len(),
        ensures
            final(self).wf(),
            final(self).federator == old(self).federator,
            final(self).goes_on(*old(self), rows, r),
    {
        if !rows && self.federator.mode != QueryMode::Buffer {
            assert(self.at < self.federator.tables.len());
            self.at = self.at + 1;
            self.phase = PassPhase::Ready;
            PassAction::Continue
        } else {
            self.rows = rows;
            self.phase = PassPhase::LookingUp;
            PassAction::LookUp { name: self.table_name() }
        }
    }

    /// Whether the pass is the one after an event, with what the caller does next.
    pub open spec fn stepped(
        &self,
        before: FederationPass,
        metadata: metadata_store::StoreModel,
        agents: Seq<agent_store::AgentModel>,
        now_ms: i64,
        event: PassEvent,
        r: PassAction,
    ) -> bool {
        &&& federation::same_query(self.federator, before.federator)
        &&& match event {
            PassEvent::Next => {
                &&& self.federator.replaced == before.federator.replaced
                &&& self.federator.outcome.agents_queried
                    == before.federator.outcome.agents_queried
                &&& if before.at == before.federator.tables@.len() {
                    &&& self.federator.outcome == before.federator.outcome
                    &&& self.phase is Planning
                    &&& self.at == before.at
                    &&& r is Plan
                } else {
                    let ids = before.sources(metadata);
                    let addrs = federation::online_addresses(agents, ids, now_ms);
                    &&& self.federator.outcome.agents_skipped
                        == before.federator.outcome.agents_skipped + ids.len()
                        - addrs.len()
                    &&& if addrs.len() == 0 {
                        self.goes_on(before, false, r)
                    } else {
                        &&& self.phase is Fetching
                        &&& self.at == before.at
                        &&& r is Fetch
                        &&& text::pair_views(r->Fetch_0@) == addrs.map_values(
                            |a: Seq<char>|
                                (
                                    a,
                                    federation::fetch_url(
                                        a,
                                        before.federator.tables@[before.at as int].0@,
                                        before.federator.tables@[before.at as int].1@,
                                        before.federator.start_ns,
                                        before.federator.end_ns,
                                    ),
                                ),
                        )
                    }
                }
            },
            PassEvent::Fetched(replies) => {
                &&& self.federator.replaced == before.federator.replaced
                &&& self.federator.outcome.agents_queried
                    == before.federator.outcome.agents_queried + federation::count_queried(
                    replies@,
                )
                &&& self.federator.outcome.agents_skipped
                    == before.federator.outcome.agents_skipped + federation::count_skipped(
                    replies@,
                )
                &&& self.goes_on(before, federation::rows_arrived(replies@), r)
            },
            PassEvent::Found(stored) => {
                let choice = federation::provider_choice(
                    before.federator.mode,
                    before.rows,
                    stored is Some,
                );
                &&& self.federator.outcome == before.federator.outcome
                &&& if choice == ProviderStep::Keep {
                    &&& federation::replaced_views(self.federator.replaced@)
                        == federation::replaced_views(before.federator.replaced@)
                    &&& self.phase is Ready
                    &&& self.at == before.at + 1
                    &&& r is Continue
                } else {
                    &&& federation::replaced_views(self.federator.replaced@)
                        == federation::replaced_views(before.federator.replaced@).push(
                        (before.name(), stored),
                    )
                    &&& self.phase is SettingUp
                    &&& self.at == before.at
                    &&& r is SetUp
                    &&& r->SetUp_name@ == before.name()
                    &&& r->step == choice
                }
            },
            PassEvent::SetUp(outcome) => {
                &&& self.federator == before.federator
                &&& match outcome {
                    Ok(()) => {
                        &&& self.phase is Ready
                        &&& self.at == before.at + 1
                        &&& r is Continue
                    },
                    Err(e) => self.puts_back(before, Some(e@), r),
                }
            },
            PassEvent::Planned(outcome) => {
                &&& self.federator == before.federator
                &&& self.puts_back(
                    before,
                    match outcome {
                        Ok(()) => None,
                        Err(e) => Some("SQL error: "@ + e@),
                    },
                    r,
                )
            },
            PassEvent::PutBack => {
                &&& self.federator == before.federator
                &&& self.phase is Ended
                &&& self.at == before.at
                &&& match before.phase->failure {
                    Some(e) => r is Failed && r->Failed_0@ == e@,
                    None => r is Done && r->Done_0 == before.federator.outcome,
                }
            },
        }
    }

    /// Takes what the caller reports, and tells what it does next. Whichever way the pass
    /// goes, all that was replaced is put back before it ends.
    pub fn step(
        &mut self,
        metadata: &MetadataStore,
        agents: &AgentStore,
        now_ms: i64,
        event: PassEvent,
    ) -> (r: PassAction)
        requires
            old(self).wf(),
            old(self).expects(event),
            old(self).fits(metadata@, event),
        ensures
            final(self).wf(),
            final(self).stepped(*old(self), metadata@, agents@, now_ms, event, r),
    {
        match event {
            PassEvent::Next => {
                if self.at == self.federator.tables.len() {
                    self.phase = PassPhase::Planning;
                    return PassAction::Plan;
                }
                match self.federator.table_step(self.at, metadata, agents, now_ms) {
                    TableStep::NoRows => self.go_on(false),
                    TableStep::Fetch(targets) => {
                        self.phase = PassPhase::Fetching;
                        PassAction::Fetch(targets)
                    },
                }
            },
            PassEvent::Fetched(replies) => {
                let rows = self.federator.take_replies(&replies);
                self.go_on(rows)
            },
            PassEvent::Found(stored) => {
                let name = self.table_name();
                let step = self.federator.choose_provider(self.at, self.rows, stored);
                match step {
                    ProviderStep::Keep => {
                        assert(self.at < self.federator.tables.len());
                        self.at = self.at + 1;
                        self.phase = PassPhase::Ready;
                        PassAction::Continue
                    },
                    _ => {
                        self.phase = PassPhase::SettingUp;
                        PassAction::SetUp { name, step }
                    },
                }
            },
            PassEvent::SetUp(outcome) => match outcome {
                Ok(()) => {
                    assert(self.at < self.federator.tables.len());
                    self.at = self.at + 1;
                    self.phase = PassPhase::Ready;
                    PassAction::Continue
                },
                Err(e) => self.put_back(Some(e)),
            },
            PassEvent::Planned(outcome) => match outcome {
                Ok(()) => self.put_back(None),
                Err(e) => self.put_back(Some(QueryEngine::sql_error(e.as_str()))),
            },
            PassEvent::PutBack => {
                let mut phase = PassPhase::Ended;
                std::mem::swap(&mut phase, &mut self.phase);
                match phase {
                    PassPhase::PuttingBack { failure } => match failure {
                        Some(e) => PassAction::Failed(e),
                        None => PassAction::Done(self.federator.outcome),
                    },
                    _ => PassAction::Done(self.federator.outcome),
                }
            },
        }
    }

    /// Whether the pass ends by putting back all that was replaced, what was replaced last
    /// first, with a failure or not.
    pub open spec fn puts_back(
        &self,
        before: FederationPass,
        failure: Option<Seq<char>>,
        r: PassAction,
    ) -> bool {
        &&& self.phase is PuttingBack
        &&& self.at == before.at
        &&& match failure {
            Some(e) => self.phase->failure is Some && self.phase->failure->0@ == e,
            None => self.phase->failure is None,
        }
        &&& r is PutBack
        &&& federation::replaced_views(r->PutBack_0@) == federation::replaced_views(
            before.federator.replaced@,
        ).reverse()
    }

    fn put_back(&mut self, failure: Option<String>) -> (r: PassAction)
        requires
            old(self).wf(),
        ensures
            final(self).wf(),
            final(self).federator == old(self).federator,
            final(self).puts_back(
                *old(self),
                match failure {
                    Some(e) => Some(e@),
                    None => None,
                },
                r,
            ),
    {
        let mut list: Vec<(String, Option<usize>)> = Vec::new();
        let mut left: usize = self.federator.replaced.len();
        while left > 0
            invariant
                left <= self.federator.replaced@.len(),
                *self == *old(self),
                list@.len() == self.federator.replaced@.len() - left,
                forall|k: int|
                    0 <= k < list@.len() ==> (#[trigger] list@[k]).0@
                        == self.federator.replaced@[self.federator.replaced@.len() - 1 - k].0@
                        && list@[k].1
                        == self.federator.replaced@[self.federator.replaced@.len() - 1 - k].1,
            decreases left,
        {
            left -= 1;
            let name = self.federator.replaced[left].0.clone();
            let stood = self.federator.replaced[left].1;
            list.push((name, stood));
        }
        assert(federation::replaced_views(list@) =~= federation::replaced_views(
            self.federator.replaced@,
        ).reverse());
        self.phase = PassPhase::PuttingBack { failure };
        PassAction::PutBack(list)
    }
}

} // verus!
