//! The steps of a pass: no table is passed over, rows that arrive are read, and what was
//! replaced is put back.

use crate::server::agent_store;
use crate::server::federation;
use crate::server::federation::pass::{FederationPass, PassAction, PassEvent};
use crate::server::federation::{ProviderStep, QueryMode};
use crate::server::metadata_store;
use crate::server::table_provider;
use vstd::prelude::*;

verus! {

/// A step goes on by one table at most, and only a pass that is behind the last table plans
/// the query. What the query reads stays the same from step to step.
pub proof fn no_table_is_passed_over(
    before: FederationPass,
    after: FederationPass,
    metadata: metadata_store::StoreModel,
    agents: Seq<agent_store::AgentModel>,
    now_ms: i64,
    event: PassEvent,
    r: PassAction,
)
    requires
        before.wf(),
        before.expects(event),
        after.stepped(before, metadata, agents, now_ms, event, r),
    ensures
        before.at <= after.at <= before.at + 1,
        after.at == before.at + 1 ==> after.phase is Ready && r is Continue && before.at
            < before.federator.tables@.len(),
        after.phase is Ready ==> after.at == before.at + 1,
        after.phase is Planning <==> event is Next && before.at == before.federator.tables@.len(),
        after.phase is Planning <==> r is Plan,
        after.federator.tables == before.federator.tables,
        after.federator.mode == before.federator.mode,
        after.federator.start_ns == before.federator.start_ns,
        after.federator.end_ns == before.federator.end_ns,
{
}

/// For a table all agents that it has rows from are asked that can be, in their order, each at
/// its own address for the rows of this table within the bounds of the query. Those that
/// cannot be asked are counted.
pub proof fn sources_are_asked(
    before: FederationPass,
    after: FederationPass,
    metadata: metadata_store::StoreModel,
    agents: Seq<agent_store::AgentModel>,
    now_ms: i64,
    r: PassAction,
    i: int,
)
    requires
        before.wf(),
        before.at < before.federator.tables@.len(),
        after.stepped(before, metadata, agents, now_ms, PassEvent::Next, r),
    ensures
        ({
            let db = before.federator.tables@[before.at as int].0@;
            let table = before.federator.tables@[before.at as int].1@;
            let ids = metadata_store::table_agents(metadata, db, table);
            let addrs = federation::online_addresses(agents, ids, now_ms);
            &&& after.federator.outcome.agents_skipped + addrs.len()
                == before.federator.outcome.agents_skipped + ids.len()
            &&& after.federator.outcome.agents_queried == before.federator.outcome.agents_queried
            &&& after.federator.replaced == before.federator.replaced
            &&& r is Fetch <==> addrs.len() > 0
            &&& r is Fetch ==> r->Fetch_0@.len() == addrs.len()
            &&& r is Fetch && 0 <= i < addrs.len() ==> r->Fetch_0@[i].0@ == addrs[i]
                && r->Fetch_0@[i].1@ == federation::fetch_url(
                addrs[i],
                db,
                table,
                before.federator.start_ns,
                before.federator.end_ns,
            )
            &&& addrs.len() == 0 && before.federator.mode == QueryMode::Buffer ==> r is LookUp
                && r->LookUp_name@ == table_provider::qualified_name(db, table) && !after.rows
        }),
{
    let db = before.federator.tables@[before.at as int].0@;
    let table = before.federator.tables@[before.at as int].1@;
    let ids = metadata_store::table_agents(metadata, db, table);
    let addrs = federation::online_addresses(agents, ids, now_ms);
    if addrs.len() > 0 {
        let told = crate::text::pair_views(r->Fetch_0@);
        assert(told.len() == addrs.len());
        if 0 <= i < addrs.len() {
            assert(told[i] == (r->Fetch_0@[i].0@, r->Fetch_0@[i].1@));
        }
    }
}

/// The replies are all counted. Where one of them brought rows, or where the query reads the
/// rows in memory alone, the table is looked up; only a table without rows of a query over all
/// rows is left as it is.
pub proof fn replies_are_taken(
    before: FederationPass,
    after: FederationPass,
    metadata: metadata_store::StoreModel,
    agents: Seq<agent_store::AgentModel>,
    now_ms: i64,
    replies: Vec<federation::FetchReply>,
    r: PassAction,
)
    requires
        before.wf(),
        before.expects(PassEvent::Fetched(replies)),
        after.stepped(before, metadata, agents, now_ms, PassEvent::Fetched(replies), r),
    ensures
        after.federator.outcome.agents_queried == before.federator.outcome.agents_queried
            + federation::count_queried(replies@),
        after.federator.outcome.agents_skipped == before.federator.outcome.agents_skipped
            + federation::count_skipped(replies@),
        r is LookUp <==> federation::rows_arrived(replies@) || before.federator.mode
            == QueryMode::Buffer,
        r is LookUp ==> after.rows == federation::rows_arrived(replies@) && after.at == before.at
            && after.phase is LookingUp && r->LookUp_name@ == table_provider::qualified_name(
            before.federator.tables@[before.at as int].0@,
            before.federator.tables@[before.at as int].1@,
        ),
        !(r is LookUp) ==> r is Continue && after.at == before.at + 1,
{
}

/// A table of which rows arrived is set up with them, under its own name: alone, or together
/// with the stored ones where it is stored and all rows are read. What stood for it is noted.
pub proof fn arrived_rows_are_set_up(
    before: FederationPass,
    after: FederationPass,
    metadata: metadata_store::StoreModel,
    agents: Seq<agent_store::AgentModel>,
    now_ms: i64,
    stored: Option<usize>,
    r: PassAction,
)
    requires
        before.wf(),
        before.expects(PassEvent::Found(stored)),
        after.stepped(before, metadata, agents, now_ms, PassEvent::Found(stored), r),
    ensures
        before.rows ==> r is SetUp,
        before.rows ==> (r->step == ProviderStep::Union <==> stored is Some
            && before.federator.mode == QueryMode::All),
        before.rows ==> (r->step == ProviderStep::Memory <==> !(stored is Some
            && before.federator.mode == QueryMode::All)),
        !before.rows ==> (r is SetUp <==> stored is Some && before.federator.mode
            == QueryMode::Buffer),
        !before.rows && r is SetUp ==> r->step == ProviderStep::Empty,
        r is SetUp ==> after.phase is SettingUp && after.at == before.at && r->SetUp_name@
            == table_provider::qualified_name(
            before.federator.tables@[before.at as int].0@,
            before.federator.tables@[before.at as int].1@,
        ),
        r is SetUp ==> federation::replaced_views(after.federator.replaced@)
            == federation::replaced_views(before.federator.replaced@).push((r->SetUp_name@, stored)),
        !(r is SetUp) ==> r is Continue && after.at == before.at + 1
            && federation::replaced_views(after.federator.replaced@)
            == federation::replaced_views(before.federator.replaced@),
        after.federator.outcome == before.federator.outcome,
{
}

/// A pass ends by putting back all that was replaced, the last first, also where a table could
/// not be set up or the query could not be planned; it fails in these two cases, and in no
/// other. A table that was set up is followed by the next one.
pub proof fn pass_puts_back_and_ends(
    before: FederationPass,
    after: FederationPass,
    metadata: metadata_store::StoreModel,
    agents: Seq<agent_store::AgentModel>,
    now_ms: i64,
    event: PassEvent,
    r: PassAction,
)
    requires
        before.wf(),
        before.expects(event),
        after.stepped(before, metadata, agents, now_ms, event, r),
    ensures
        after.phase is PuttingBack <==> event is Planned || (event is SetUp && event->SetUp_0
            is Err),
        after.phase is PuttingBack ==> r is PutBack && federation::replaced_views(r->PutBack_0@)
            == federation::replaced_views(before.federator.replaced@).reverse(),
        event matches PassEvent::SetUp(Ok(_)) ==> r is Continue && after.at == before.at + 1,
        event matches PassEvent::SetUp(Err(e)) ==> after.phase->failure matches Some(f) && f@ == e@,
        event matches PassEvent::Planned(Err(e)) ==> after.phase->failure matches Some(f) && f@
            == "SQL error: "@ + e@,
        event matches PassEvent::Planned(Ok(_)) ==> after.phase->failure is None,
        after.phase is Ended <==> event is PutBack,
        event is PutBack ==> (r is Done <==> before.phase->failure is None) && (r is Failed
            <==> before.phase->failure is Some),
        r is Done ==> r->Done_0 == before.federator.outcome,
        r is Failed ==> r->Failed_0@ == before.phase->failure->0@,
{
}

/// Putting back restores, one after the other: what stood for a name stands for it again, or
/// nothing does where nothing did, and other names are left alone.
pub proof fn putting_back_restores(
    tables: Map<Seq<char>, usize>,
    a: Seq<(Seq<char>, Option<usize>)>,
    b: Seq<(Seq<char>, Option<usize>)>,
    name: Seq<char>,
    was: Option<usize>,
    other: Seq<char>,
)
    ensures
        federation::put_back(tables, a + b) == federation::put_back(
            federation::put_back(tables, a),
            b,
        ),
        federation::put_back(tables, Seq::empty()) == tables,
        federation::standing(federation::put_back(tables, seq![(name, was)]), name) == was,
        other != name ==> federation::standing(
            federation::put_back(tables, seq![(name, was)]),
            other,
        ) == federation::standing(tables, other),
        federation::standing(tables, name) is Some <==> tables.contains_key(name),
        tables.contains_key(name) ==> federation::standing(tables, name) == Some(tables[name]),
    decreases b.len(),
{
    reveal_with_fuel(federation::put_back, 2);
    assert(seq![(name, was)].drop_last() =~= Seq::empty());
    if b.len() == 0 {
        assert(a + b =~= a);
    } else {
        putting_back_restores(tables, a, b.drop_last(), name, was, other);
        assert((a + b).drop_last() =~= a + b.drop_last());
    }
}

/// An agent is asked for rows by the address that it told, at the path at which it answers for
/// them, with what a form has for the table and the bounds.
pub proof fn fetches_go_to_the_agent(
    addr: Seq<char>,
    db: Seq<char>,
    table: Seq<char>,
    start: Option<i64>,
    end: Option<i64>,
    r: crate::agent::service::AgentServiceRoute,
)
    ensures
        federation::fetch_url(addr, db, table, start, end) == "http://"@ + addr
            + "/api/v1/query/parquet"@ + seq!['?'] + crate::http::form_written(
            federation::fetch_pairs(db, table, start, end),
        ),
        crate::agent::service::agent_route_right("GET"@, "/api/v1/query/parquet"@, r) ==> r is Rows,
{
    reveal_strlit("/api/v1/query/parquet");
    reveal_strlit("/api/v1/query/parquet?");
    reveal_strlit("/write");
    reveal_strlit("/query");
    reveal_strlit("GET");
    reveal_strlit("POST");
    assert("GET"@.len() == 3 && "POST"@.len() == 4);
    assert("/api/v1/query/parquet"@.len() == 21 && "/query"@.len() == 6);
    federation::fetch_query_reads_back(db, table, start, end);
    let back = federation::fetch_query(db, table, start, end);
    assert("/api/v1/query/parquet?"@ =~= "/api/v1/query/parquet"@ + seq!['?']);
    assert("http://"@ + addr + "/api/v1/query/parquet?"@ + back =~= "http://"@ + addr
        + "/api/v1/query/parquet"@ + seq!['?'] + back);
}

} // verus!
