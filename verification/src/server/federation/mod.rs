//! Queries over what the agents still hold in memory, together with what is stored.

pub mod pass;
pub mod reading;
pub mod sql;
pub mod steps;
pub mod tables;
pub mod time_filter;
pub mod whole_pass;

use crate::agent::federation_query;
use crate::decimal;
use crate::http;
use crate::server::agent_api::ONLINE_MS;
use crate::server::agent_store;
use crate::server::agent_store::AgentStore;
use crate::server::metadata_store;
use crate::server::metadata_store::MetadataStore;
use crate::server::table_provider;
use crate::server::table_provider::TableProvider;
use crate::text;
use vstd::prelude::*;

verus! {

/// Which rows a query reads: the stored ones, those that the agents hold in memory, or all.
#[derive(Debug, Clone, Copy, PartialEq, Eq, Structural)]
pub enum QueryMode {
    History,
    Buffer,
    All,
}

pub open spec fn mode_of(s: Seq<char>) -> QueryMode {
    if s == "buffer"@ {
        QueryMode::Buffer
    } else if s == "all"@ {
        QueryMode::All
    } else {
        QueryMode::History
    }
}

/// Reads a mode; any other text is that of the stored rows.
pub fn parse_query_mode(s: &str) -> (r: QueryMode)
    ensures
        r == mode_of(s@),
{
    if text::same(s, "buffer") {
        QueryMode::Buffer
    } else if text::same(s, "all") {
        QueryMode::All
    } else {
        QueryMode::History
    }
}

/// How many agents gave rows, and how many could not be asked or did not answer.
#[derive(Debug, Clone, Copy, PartialEq, Eq, Structural)]
pub struct FederationOutcome {
    pub agents_queried: usize,
    pub agents_skipped: usize,
}

/// The tables that a SQL text reads, as database and table, in the order of their first
/// appearance; the error of the parser where the text could not be read.
pub fn extract_table_names(sql: &str) -> (r: Result<Vec<(String, String)>, String>)
    requires
        sql::parseable(sql@),
    ensures
        match sql::parsed_sql(sql@) {
            Ok(statements) => r is Ok && text::pair_views(r->Ok_0@) == tables::table_list(
                statements,
            ),
            Err(e) => r is Err && r->Err_0@ == "parse: "@ + e,
        },
{
    match sql::parse_statements(sql) {
        Ok(statements) => Ok(tables::table_names(&statements)),
        Err(e) => Err(text::join2("parse: ", e.as_str())),
    }
}

/// The condition of a statement, where it is a plain selection with a condition.
pub open spec fn statement_condition(s: sql::StatementModel) -> Option<sql::ConditionModel> {
    match s {
        sql::StatementModel::Select(q) => match q.body {
            sql::SetModel::Select(_, condition) => condition,
            _ => None,
        },
        sql::StatementModel::Other => None,
    }
}

/// The condition of the first statement that has one.
pub open spec fn first_condition(statements: Seq<sql::StatementModel>) -> Option<
    sql::ConditionModel,
>
    decreases statements.len(),
{
    if statements.len() == 0 {
        None
    } else if statement_condition(statements[0]) is Some {
        statement_condition(statements[0])
    } else {
        first_condition(statements.drop_first())
    }
}

/// The bounds of the time that are asked for. Where the lower one lies behind the upper one
/// there are none: everything is asked for, and the condition is applied later.
pub open spec fn asked_bounds(range: Option<time_filter::TimeRange>) -> (Option<i64>, Option<i64>) {
    let r = time_filter::bounds(range);
    if r.start_ns is Some && r.end_ns is Some && r.start_ns->0 > r.end_ns->0 {
        (None, None)
    } else {
        (r.start_ns, r.end_ns)
    }
}

/// The bounds of the time that some statements ask for.
pub open spec fn statement_bounds(statements: Seq<sql::StatementModel>) -> (
    Option<i64>,
    Option<i64>,
) {
    match first_condition(statements) {
        Some(c) => asked_bounds(time_filter::range_of(c)),
        None => (None, None),
    }
}

fn selection_of(s: &sql::StatementTree) -> (r: Option<&sql::Condition>)
    ensures
        r is Some == statement_condition(s@) is Some,
        r is Some ==> r->0@ == statement_condition(s@)->0,
{
    match s {
        sql::StatementTree::Select(q) => {
            assert(q@.body == q.body@);
            match &q.body {
                sql::SetTree::Select(_, selection) => {
                    assert(q.body@ is Select);
                    match selection {
                        Some(c) => Some(c),
                        None => None,
                    }
                },
                _ => None,
            }
        },
        sql::StatementTree::Other => None,
    }
}

/// The bounds of the time that some statements ask for.
pub fn statement_time_range(statements: &Vec<sql::StatementTree>) -> (r: (
    Option<i64>,
    Option<i64>,
))
    ensures
        r == statement_bounds(sql::statement_models(statements@)),
{
    let ghost models = sql::statement_models(statements@);
    let mut i: usize = 0;
    assert(models.skip(0) =~= models);
    while i < statements.len()
        invariant
            i <= statements@.len(),
            models == sql::statement_models(statements@),
            first_condition(models) == first_condition(models.skip(i as int)),
        decreases statements@.len() - i,
    {
        assert(models.skip(i as int)[0] == statements@[i as int]@);
        assert(models.skip(i as int).drop_first() =~= models.skip(i + 1));
        match selection_of(&statements[i]) {
            Some(c) => {
                return match time_filter::extract_time_range(c) {
                    Some(range) => match (range.start_ns, range.end_ns) {
                        (Some(start), Some(end)) => if start > end {
                            (None, None)
                        } else {
                            (Some(start), Some(end))
                        },
                        _ => (range.start_ns, range.end_ns),
                    },
                    None => (None, None),
                };
            },
            None => {},
        }
        i += 1;
    }
    (None, None)
}

/// The bounds of the time that a SQL text asks for, none where it could not be read. A
/// lower bound never lies behind an upper one.
pub fn engine_time_range(sql: &str) -> (r: (Option<i64>, Option<i64>))
    requires
        sql::parseable(sql@),
    ensures
        match sql::parsed_sql(sql@) {
            Ok(statements) => r == statement_bounds(statements),
            Err(_) => r == (None::<i64>, None::<i64>),
        },
        r.0 is Some && r.1 is Some ==> r.0->0 <= r.1->0,
{
    match sql::parse_statements(sql) {
        Ok(statements) => statement_time_range(&statements),
        Err(_) => (None, None),
    }
}

/// The names and values that a fetch sends in its query string.
pub open spec fn fetch_pairs(
    db: Seq<char>,
    table: Seq<char>,
    start: Option<i64>,
    end: Option<i64>,
) -> Seq<(Seq<char>, Seq<char>)> {
    let named = seq![("db"@, db), ("table"@, table)];
    let started = match start {
        Some(s) => named.push(("start"@, decimal::signed_numeral(s as int))),
        None => named,
    };
    match end {
        Some(e) => started.push(("end"@, decimal::signed_numeral(e as int))),
        None => started,
    }
}

/// The query string of a fetch.
pub open spec fn fetch_query(
    db: Seq<char>,
    table: Seq<char>,
    start: Option<i64>,
    end: Option<i64>,
) -> Seq<char> {
    let named = "db="@ + http::form_encoded(db) + "&table="@ + http::form_encoded(table);
    let started = match start {
        Some(s) => named + "&start="@ + decimal::signed_numeral(s as int),
        None => named,
    };
    match end {
        Some(e) => started + "&end="@ + decimal::signed_numeral(e as int),
        None => started,
    }
}

/// Where an agent is asked for the rows that it holds of a table.
pub open spec fn fetch_url(
    addr: Seq<char>,
    db: Seq<char>,
    table: Seq<char>,
    start: Option<i64>,
    end: Option<i64>,
) -> Seq<char> {
    "http://"@ + addr + "/api/v1/query/parquet?"@ + fetch_query(db, table, start, end)
}

/// Where an agent is asked for the rows that it holds of a table.
pub fn build_fetch_url(
    addr: &str,
    db: &str,
    table: &str,
    start: Option<i64>,
    end: Option<i64>,
) -> (r: String)
    ensures
        r@ == fetch_url(addr@, db@, table@, start, end),
{
    let mut query = text::join2("db=", http::form_encode(db).as_str());
    query.append("&table=");
    query.append(http::form_encode(table).as_str());
    match start {
        Some(s) => {
            query.append("&start=");
            query.append(decimal::format_i64(s).as_str());
        },
        None => {},
    }
    match end {
        Some(e) => {
            query.append("&end=");
            query.append(decimal::format_i64(e).as_str());
        },
        None => {},
    }
    assert(query@ =~= fetch_query(db@, table@, start, end));
    let mut url = text::join3("http://", addr, "/api/v1/query/parquet?");
    url.append(query.as_str());
    url
}

/// The query string of a fetch is what a form writes for the database, the table and the
/// bounds, so that the agent reads back exactly these.
pub proof fn fetch_query_reads_back(
    db: Seq<char>,
    table: Seq<char>,
    start: Option<i64>,
    end: Option<i64>,
)
    ensures
        fetch_query(db, table, start, end) == http::form_written(
            fetch_pairs(db, table, start, end),
        ),
{
    reveal_strlit("db");
    reveal_strlit("db=");
    reveal_strlit("table");
    reveal_strlit("&table=");
    reveal_strlit("start");
    reveal_strlit("&start=");
    reveal_strlit("end");
    reveal_strlit("&end=");
    http::lemma_form_encoded_plain("db"@);
    http::lemma_form_encoded_plain("table"@);
    http::lemma_form_encoded_plain("start"@);
    http::lemma_form_encoded_plain("end"@);
    assert("db="@ =~= "db"@ + seq!['=']);
    assert("&table="@ =~= seq!['&'] + "table"@ + seq!['=']);
    assert("&start="@ =~= seq!['&'] + "start"@ + seq!['=']);
    assert("&end="@ =~= seq!['&'] + "end"@ + seq!['=']);
    let first = seq![("db"@, db)];
    let named = seq![("db"@, db), ("table"@, table)];
    assert(named.drop_last() =~= first);
    assert(http::form_written(first) =~= "db="@ + http::form_encoded(db));
    assert(http::form_written(named) =~= fetch_query(db, table, None, None));
    let started = fetch_pairs(db, table, start, None);
    if start is Some {
        http::lemma_form_encoded_numeral(start->0 as int);
        assert(started.drop_last() =~= named);
        assert(http::form_written(started) =~= fetch_query(db, table, start, None));
    }
    if end is Some {
        http::lemma_form_encoded_numeral(end->0 as int);
        let ended = fetch_pairs(db, table, start, end);
        assert(ended.drop_last() =~= started);
        assert(http::form_written(ended) =~= fetch_query(db, table, start, end));
    }
}

/// An agent that is sent a fetch reads the database, the table and the bounds from it.
pub proof fn agent_reads_the_fetch(
    db: Seq<char>,
    table: Seq<char>,
    start: Option<i64>,
    end: Option<i64>,
)
    ensures
        ({
            let pairs = fetch_pairs(db, table, start, end);
            &&& http::first_value(pairs, "db"@) == Some(db)
            &&& http::first_value(pairs, "table"@) == Some(table)
            &&& federation_query::number_param(pairs, "start"@) == federation_query::optional_int(
                start,
            )
            &&& federation_query::number_param(pairs, "end"@) == federation_query::optional_int(
                end,
            )
        }),
{
    reveal_strlit("db");
    reveal_strlit("table");
    reveal_strlit("start");
    reveal_strlit("end");
    reveal_with_fuel(http::first_value, 5);
    let pairs = fetch_pairs(db, table, start, end);
    assert("db"@.len() == 2 && "table"@.len() == 5 && "start"@.len() == 5 && "end"@.len() == 3);
    assert("table"@[0] == 't' && "start"@[0] == 's');
    let rest = pairs.drop_first().drop_first();
    if start is Some {
        decimal::signed_numeral_reads_back(start->0);
        assert(rest[0] == ("start"@, decimal::signed_numeral(start->0 as int)));
        if end is Some {
            assert(rest.drop_first()[0] == ("end"@, decimal::signed_numeral(end->0 as int)));
        }
    } else if end is Some {
        assert(rest[0] == ("end"@, decimal::signed_numeral(end->0 as int)));
    }
    if end is Some {
        decimal::signed_numeral_reads_back(end->0);
    }
}

/// One pass over the tables of a query: the rows that the agents hold of each are fetched,
/// the table is set up for the query, and afterwards everything is put back.
#[derive(Debug)]
pub struct Federator {
    pub mode: QueryMode,
    pub tables: Vec<(String, String)>,
    pub start_ns: Option<i64>,
    pub end_ns: Option<i64>,
    pub outcome: FederationOutcome,
    /// The tables that were set up, with what stood for them before. What stands for a table
    /// is told by a number that the caller chooses.
    pub replaced: Vec<(String, Option<usize>)>,
}

/// How a query starts.
pub enum FederationStart {
    Federate(Federator),
    /// No table is named with its database: the query is run as it is.
    Plain,
    /// The text could not be read.
    Failed(String),
    /// The parser may panic on the text.
    Unparseable,
}

/// What to do for a table: nothing can be fetched, or these agents are asked, at these
/// addresses.
pub enum TableStep {
    NoRows,
    Fetch(Vec<(String, String)>),
}

/// What came of one fetch: no answer, or a status, with the number of batches that were read
/// from the body where it could be read.
#[derive(Debug, Clone, Copy, PartialEq, Eq, Structural)]
pub enum FetchReply {
    Failed,
    Answer { status: u16, batches: Option<usize> },
}

/// How a table is set up for the query.
#[derive(Debug, Clone, Copy, PartialEq, Eq, Structural)]
pub enum ProviderStep {
    /// It stays as it is.
    Keep,
    /// Without rows, with the columns of the stored table.
    Empty,
    /// With the fetched rows alone, in the columns of the first batch.
    Memory,
    /// With the stored and the fetched rows, in the columns of the stored table.
    Union,
}

/// The address of an agent, where it can be asked: it gave a sign of itself lately, and told
/// where it listens.
pub open spec fn online_address(a: Option<agent_store::AgentModel>, now_ms: i64) -> Option<
    Seq<char>,
> {
    match a {
        Some(a) => if a.last_seen_at is Some && now_ms - a.last_seen_at->0 <= ONLINE_MS {
            a.listen_addr
        } else {
            None
        },
        None => None,
    }
}

/// The addresses of those of some agents that can be asked.
pub open spec fn online_addresses(
    agents: Seq<agent_store::AgentModel>,
    ids: Seq<Seq<char>>,
    now_ms: i64,
) -> Seq<Seq<char>>
    decreases ids.len(),
{
    if ids.len() == 0 {
        Seq::empty()
    } else {
        let before = online_addresses(agents, ids.drop_last(), now_ms);
        match online_address(agent_store::agent_of(agents, ids.last()), now_ms) {
            Some(addr) => before.push(addr),
            None => before,
        }
    }
}

/// Whether a fetch gave rows to read.
pub open spec fn is_queried(reply: FetchReply) -> bool {
    &&& reply is Answer
    &&& reply->status != 204
    &&& 200 <= reply->status <= 299
    &&& reply->batches is Some
}

/// Whether a fetch came to nothing. An agent that holds no rows answers with a status of its
/// own, and counts on neither side.
pub open spec fn is_skipped(reply: FetchReply) -> bool {
    &&& !is_queried(reply)
    &&& reply is Answer ==> reply->status != 204
}

pub open spec fn count_queried(replies: Seq<FetchReply>) -> nat
    decreases replies.len(),
{
    if replies.len() == 0 {
        0
    } else {
        count_queried(replies.drop_last()) + (if is_queried(replies.last()) {
            1nat
        } else {
            0
        })
    }
}

pub open spec fn count_skipped(replies: Seq<FetchReply>) -> nat
    decreases replies.len(),
{
    if replies.len() == 0 {
        0
    } else {
        count_skipped(replies.drop_last()) + (if is_skipped(replies.last()) {
            1nat
        } else {
            0
        })
    }
}

/// Whether some fetch gave a batch of rows.
pub open spec fn rows_arrived(replies: Seq<FetchReply>) -> bool {
    exists|i: int|
        0 <= i < replies.len() && is_queried(#[trigger] replies[i]) && replies[i]->batches->0 > 0
}

/// How a table is set up, given whether rows were fetched and whether it is stored.
pub open spec fn provider_choice(mode: QueryMode, rows: bool, stored: bool) -> ProviderStep {
    if !rows {
        if mode == QueryMode::Buffer && stored {
            ProviderStep::Empty
        } else {
            ProviderStep::Keep
        }
    } else if mode == QueryMode::All && stored {
        ProviderStep::Union
    } else {
        ProviderStep::Memory
    }
}

pub open spec fn replaced_views(replaced: Seq<(String, Option<usize>)>) -> Seq<
    (Seq<char>, Option<usize>),
> {
    replaced.map_values(|e: (String, Option<usize>)| (e.0@, e.1))
}

/// What two states of a pass have in common: the query, and what it reads.
pub open spec fn same_query(a: Federator, b: Federator) -> bool {
    &&& a.mode == b.mode
    &&& a.tables == b.tables
    &&& a.start_ns == b.start_ns
    &&& a.end_ns == b.end_ns
}

impl Federator {
    /// Starts a query.
    pub fn prepare(sql: &str, mode: QueryMode) -> (r: FederationStart)
        ensures
            if !sql::parseable(sql@) {
                r is Unparseable
            } else {
                match sql::parsed_sql(sql@) {
                    Err(e) => r is Failed && r->Failed_0@ == "parse: "@ + e,
                    Ok(statements) => if tables::table_list(statements).len() == 0 {
                        r is Plain
                    } else {
                        &&& r is Federate
                        &&& r->Federate_0.mode == mode
                        &&& text::pair_views(r->Federate_0.tables@) == tables::table_list(
                            statements,
                        )
                        &&& (r->Federate_0.start_ns, r->Federate_0.end_ns) == statement_bounds(
                            statements,
                        )
                        &&& r->Federate_0.outcome == (FederationOutcome {
                            agents_queried: 0,
                            agents_skipped: 0,
                        })
                        &&& r->Federate_0.replaced@.len() == 0
                    },
                }
            },
    {
        if !sql::can_parse(sql) {
            return FederationStart::Unparseable;
        }
        let tables = match extract_table_names(sql) {
            Ok(t) => t,
            Err(e) => {
                return FederationStart::Failed(e);
            },
        };
        assert(text::pair_views(tables@).len() == tables@.len());
        if tables.len() == 0 {
            return FederationStart::Plain;
        }
        let (start_ns, end_ns) = engine_time_range(sql);
        FederationStart::Federate(
            Federator {
                mode,
                tables,
                start_ns,
                end_ns,
                outcome: FederationOutcome { agents_queried: 0, agents_skipped: 0 },
                replaced: Vec::new(),
            },
        )
    }

    /// Whom to ask for the rows of a table. The agents that cannot be asked are counted.
    pub fn table_step(
        &mut self,
        index: usize,
        metadata: &MetadataStore,
        agents: &AgentStore,
        now_ms: i64,
    ) -> (r: TableStep)
        requires
            index < old(self).tables@.len(),
            old(self).outcome.agents_skipped + metadata_store::table_agents(
                metadata@,
                old(self).tables@[index as int].0@,
                old(self).tables@[index as int].1@,
            ).len() <= usize::MAX,
        ensures
            same_query(*final(self), *old(self)),
            final(self).replaced == old(self).replaced,
            ({
                let (db, table) = old(self).tables@[index as int];
                let ids = metadata_store::table_agents(metadata@, db@, table@);
                let addrs = online_addresses(agents@, ids, now_ms);
                &&& final(self).outcome.agents_queried == old(self).outcome.agents_queried
                &&& final(self).outcome.agents_skipped == old(self).outcome.agents_skipped
                    + ids.len() - addrs.len()
                &&& if addrs.len() == 0 {
                    r is NoRows
                } else {
                    &&& r is Fetch
                    &&& text::pair_views(r->Fetch_0@) == addrs.map_values(
                        |a: Seq<char>|
                            (
                                a,
                                fetch_url(
                                    a,
                                    db@,
                                    table@,
                                    old(self).start_ns,
                                    old(self).end_ns,
                                ),
                            ),
                    )
                }
            }),
    {
        let ids = metadata.list_table_agents(
            self.tables[index].0.as_str(),
            self.tables[index].1.as_str(),
        );
        let ghost all = text::views(ids@);
        let ghost (db, table) = self.tables@[index as int];
        let ghost f = |a: Seq<char>|
            (a, fetch_url(a, db@, table@, old(self).start_ns, old(self).end_ns));
        let mut targets: Vec<(String, String)> = Vec::new();
        let mut skipped: usize = self.outcome.agents_skipped;
        let mut i: usize = 0;
        assert(all.len() == ids@.len());
        assert(text::pair_views(targets@) =~= online_addresses(
            agents@,
            all.take(0),
            now_ms,
        ).map_values(f));
        while i < ids.len()
            invariant
                i <= ids@.len(),
                all == text::views(ids@),
                all.len() == ids@.len(),
                *self == *old(self),
                index < self.tables@.len(),
                (db, table) == self.tables@[index as int],
                f == (|a: Seq<char>|
                    (a, fetch_url(a, db@, table@, old(self).start_ns, old(self).end_ns))),
                self.outcome.agents_skipped + ids@.len() <= usize::MAX,
                skipped == self.outcome.agents_skipped + i - targets@.len(),
                targets@.len() == online_addresses(agents@, all.take(i as int), now_ms).len(),
                targets@.len() <= i,
                text::pair_views(targets@) == online_addresses(
                    agents@,
                    all.take(i as int),
                    now_ms,
                ).map_values(f),
            decreases ids@.len() - i,
        {
            let ghost next = all.take(i + 1);
            let ghost before = online_addresses(agents@, all.take(i as int), now_ms);
            assert(next.drop_last() =~= all.take(i as int));
            assert(next.last() == ids@[i as int]@);
            let addr = match agents.get(ids[i].as_str()) {
                Ok(agent) => {
                    let online = match agent.last_seen_at {
                        Some(at) => now_ms as i128 - at as i128 <= ONLINE_MS as i128,
                        None => false,
                    };
                    if online {
                        agent.listen_addr
                    } else {
                        None
                    }
                },
                Err(_) => None,
            };
            assert(agent_store::optional_text(addr) == online_address(
                agent_store::agent_of(agents@, next.last()),
                now_ms,
            ));
            match addr {
                Some(addr) => {
                    let url = build_fetch_url(
                        addr.as_str(),
                        self.tables[index].0.as_str(),
                        self.tables[index].1.as_str(),
                        self.start_ns,
                        self.end_ns,
                    );
                    let ghost was = targets@;
                    let ghost a = addr@;
                    targets.push((addr, url));
                    assert(text::pair_views(targets@) =~= text::pair_views(was).push(f(a)));
                    assert(before.push(a).map_values(f) =~= before.map_values(f).push(f(a)));
                },
                None => {
                    skipped = skipped + 1;
                },
            }
            i += 1;
        }
        assert(all.take(i as int) =~= all);
        self.outcome.agents_skipped = skipped;
        if targets.len() == 0 {
            TableStep::NoRows
        } else {
            TableStep::Fetch(targets)
        }
    }

    /// Counts what came of the fetches for a table, and tells whether there are rows.
    pub fn take_replies(&mut self, replies: &Vec<FetchReply>) -> (r: bool)
        requires
            old(self).outcome.agents_queried + replies@.len() <= usize::MAX,
            old(self).outcome.agents_skipped + replies@.len() <= usize::MAX,
        ensures
            same_query(*final(self), *old(self)),
            final(self).replaced == old(self).replaced,
            final(self).outcome.agents_queried == old(self).outcome.agents_queried
                + count_queried(replies@),
            final(self).outcome.agents_skipped == old(self).outcome.agents_skipped
                + count_skipped(replies@),
            r == rows_arrived(replies@),
    {
        let mut queried: usize = self.outcome.agents_queried;
        let mut skipped: usize = self.outcome.agents_skipped;
        let mut rows = false;
        let mut i: usize = 0;
        assert(replies@.take(0) =~= Seq::<FetchReply>::empty());
        while i < replies.len()
            invariant
                i <= replies@.len(),
                *self == *old(self),
                self.outcome.agents_queried + replies@.len() <= usize::MAX,
                self.outcome.agents_skipped + replies@.len() <= usize::MAX,
                queried == self.outcome.agents_queried + count_queried(replies@.take(i as int)),
                skipped == self.outcome.agents_skipped + count_skipped(replies@.take(i as int)),
                count_queried(replies@.take(i as int)) <= i,
                count_skipped(replies@.take(i as int)) <= i,
                rows == exists|k: int|
                    0 <= k < i && is_queried(#[trigger] replies@[k]) && replies@[k]->batches->0
                        > 0,
            decreases replies@.len() - i,
        {
            assert(replies@.take(i + 1).drop_last() =~= replies@.take(i as int));
            assert(replies@.take(i + 1).last() == replies@[i as int]);
            match replies[i] {
                FetchReply::Failed => {
                    skipped = skipped + 1;
                },
                FetchReply::Answer { status, batches } => {
                    if status == 204 {
                    } else if 200 <= status && status <= 299 {
                        match batches {
                            Some(n) => {
                                queried = queried + 1;
                                if n > 0 {
                                    rows = true;
                                }
                            },
                            None => {
                                skipped = skipped + 1;
                            },
                        }
                    } else {
                        skipped = skipped + 1;
                    }
                },
            }
            i += 1;
        }
        assert(replies@.take(i as int) =~= replies@);
        self.outcome.agents_queried = queried;
        self.outcome.agents_skipped = skipped;
        rows
    }

    /// How a table is set up for the query; what stood for it before is noted where it is
    /// replaced.
    pub fn choose_provider(&mut self, index: usize, rows: bool, stored: Option<usize>) -> (r:
        ProviderStep)
        requires
            index < old(self).tables@.len(),
            old(self).mode != QueryMode::History,
        ensures
            same_query(*final(self), *old(self)),
            final(self).outcome == old(self).outcome,
            r == provider_choice(old(self).mode, rows, stored is Some),
            replaced_views(final(self).replaced@) == (if r is Keep {
                replaced_views(old(self).replaced@)
            } else {
                replaced_views(old(self).replaced@).push(
                    (
                        table_provider::qualified_name(
                            old(self).tables@[index as int].0@,
                            old(self).tables@[index as int].1@,
                        ),
                        stored,
                    ),
                )
            }),
    {
        let step = if !rows {
            if self.mode == QueryMode::Buffer && stored.is_some() {
                ProviderStep::Empty
            } else {
                ProviderStep::Keep
            }
        } else if self.mode == QueryMode::All && stored.is_some() {
            ProviderStep::Union
        } else {
            ProviderStep::Memory
        };
        match step {
            ProviderStep::Keep => {},
            _ => {
                let ghost was = self.replaced@;
                let name = TableProvider::qualified(
                    self.tables[index].0.as_str(),
                    self.tables[index].1.as_str(),
                );
                let ghost view = (name@, stored);
                self.replaced.push((name, stored));
                assert(replaced_views(self.replaced@) =~= replaced_views(was).push(view));
            },
        }
        step
    }
}

/// What stands for a name among the tables.
pub open spec fn standing(tables: Map<Seq<char>, usize>, name: Seq<char>) -> Option<usize> {
    if tables.contains_key(name) {
        Some(tables[name])
    } else {
        None
    }
}

/// The tables after what was replaced is put back, one after the other.
pub open spec fn put_back(
    tables: Map<Seq<char>, usize>,
    replaced: Seq<(Seq<char>, Option<usize>)>,
) -> Map<Seq<char>, usize>
    decreases replaced.len(),
{
    if replaced.len() == 0 {
        tables
    } else {
        let before = put_back(tables, replaced.drop_last());
        match replaced.last().1 {
            Some(p) => before.insert(replaced.last().0, p),
            None => before.remove(replaced.last().0),
        }
    }
}

/// A query for the rows in memory never reads a stored row: a stored table is always
/// replaced for it, and by nothing that holds the stored rows.
pub proof fn memory_query_hides_stored_rows(rows: bool)
    ensures
        provider_choice(QueryMode::Buffer, rows, true) != ProviderStep::Keep,
        provider_choice(QueryMode::Buffer, rows, true) != ProviderStep::Union,
{
}

/// A query for all rows never loses a stored table: without fetched rows it stays as it is,
/// with them it is read together with them.
pub proof fn full_query_keeps_stored_rows(rows: bool)
    ensures
        provider_choice(QueryMode::All, rows, true) == (if rows {
            ProviderStep::Union
        } else {
            ProviderStep::Keep
        }),
{
}

/// Where each column of a table comes from in a batch. A column that the batch lacks is
/// filled with nulls; one that the table lacks is dropped.
pub fn align_columns(target: &Vec<String>, batch: &Vec<String>) -> (r: Vec<Option<usize>>)
    ensures
        r@.len() == target@.len(),
        forall|i: int|
            0 <= i < target@.len() ==> match #[trigger] r@[i] {
                Some(k) => k < batch@.len() && batch@[k as int]@ == target@[i]@ && forall|m: int|
                    0 <= m < k ==> (#[trigger] batch@[m])@ != target@[i]@,
                None => forall|m: int|
                    0 <= m < batch@.len() ==> (#[trigger] batch@[m])@ != target@[i]@,
            },
{
    let mut r: Vec<Option<usize>> = Vec::new();
    let mut i: usize = 0;
    while i < target.len()
        invariant
            i <= target@.len(),
            r@.len() == i,
            forall|j: int|
                0 <= j < i ==> match #[trigger] r@[j] {
                    Some(k) => k < batch@.len() && batch@[k as int]@ == target@[j]@ && forall|
                        m: int,
                    |
                        0 <= m < k ==> (#[trigger] batch@[m])@ != target@[j]@,
                    None => forall|m: int|
                        0 <= m < batch@.len() ==> (#[trigger] batch@[m])@ != target@[j]@,
                },
        decreases target@.len() - i,
    {
        r.push(text::position_of(batch, target[i].as_str()));
        i += 1;
    }
    r
}

} // verus!
