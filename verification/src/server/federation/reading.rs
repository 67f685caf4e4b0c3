//! What a query over stored rows and rows in memory asks the agents for, and what it reads.

use crate::decimal;
use crate::server::agent_store;
use crate::server::federation;
use crate::server::federation::sql;
use crate::server::federation::sql::Operator;
use crate::server::federation::tables;
use crate::server::federation::time_filter;
use crate::server::federation::{FetchReply, ProviderStep, QueryMode};
use vstd::prelude::*;

verus! {

/// What a query reads of a table. The fetched rows are read wherever there are any, whether
/// or not the table is stored. The stored rows are read exactly where all rows are asked for.
/// Nothing is set up from a stored table that is not there.
pub proof fn fetched_rows_are_read(mode: QueryMode, rows: bool, stored: bool)
    requires
        mode != QueryMode::History,
    ensures
        ({
            let step = federation::provider_choice(mode, rows, stored);
            &&& rows <==> step == ProviderStep::Memory || step == ProviderStep::Union
            &&& stored ==> (mode == QueryMode::All <==> step == ProviderStep::Keep || step
                == ProviderStep::Union)
            &&& !stored ==> step != ProviderStep::Union && step != ProviderStep::Empty
        }),
{
}

/// Each mode has its name, and any other text asks for the stored rows.
pub proof fn modes_are_told_by_name(s: Seq<char>)
    ensures
        federation::mode_of(s) == QueryMode::Buffer <==> s == "buffer"@,
        federation::mode_of(s) == QueryMode::All <==> s == "all"@,
{
    reveal_strlit("buffer");
    reveal_strlit("all");
    assert("buffer"@.len() != "all"@.len());
}

/// What the answer of an agent counts as: one with a status of success counts as queried
/// where its rows could be read; the status for no rows counts as nothing; everything else
/// counts as skipped.
pub proof fn answers_count_as_one_thing(reply: FetchReply)
    ensures
        federation::is_queried(reply) <==> (reply matches FetchReply::Answer { status, batches }
            && 200 <= status < 300 && status != 204 && batches is Some),
        federation::is_skipped(reply) <==> (reply is Failed || !federation::is_queried(reply)
            && reply->status != 204),
{
}

/// The answers are counted one by one.
pub proof fn answers_are_counted(replies: Seq<FetchReply>)
    ensures
        federation::count_queried(replies) == replies.filter(
            |r: FetchReply| federation::is_queried(r),
        ).len(),
        federation::count_skipped(replies) == replies.filter(
            |r: FetchReply| federation::is_skipped(r),
        ).len(),
        federation::count_queried(replies) + federation::count_skipped(replies) + replies.filter(
            |r: FetchReply| (r is Answer && r->status == 204),
        ).len() == replies.len(),
    decreases replies.len(),
{
    reveal(Seq::filter);
    if replies.len() > 0 {
        answers_are_counted(replies.drop_last());
        answers_count_as_one_thing(replies.last());
    }
}

/// There are rows exactly where some agent answered with a batch of rows.
pub proof fn rows_arrive_with_a_batch(replies: Seq<FetchReply>)
    ensures
        federation::rows_arrived(replies) <==> exists|i: int|
            0 <= i < replies.len() && (#[trigger] replies[i] matches FetchReply::Answer {
                status,
                batches,
            } && 200 <= status < 300 && status != 204 && batches is Some && batches->0 > 0),
{
    if federation::rows_arrived(replies) {
        let i = choose|i: int|
            0 <= i < replies.len() && federation::is_queried(#[trigger] replies[i])
                && replies[i]->batches->0 > 0;
        assert(replies[i] is Answer);
    }
}

/// Whether an agent can be asked: it is registered, gave a sign of itself within half a
/// minute, and told where it listens.
pub open spec fn can_be_asked(
    agents: Seq<agent_store::AgentModel>,
    id: Seq<char>,
    now_ms: i64,
) -> bool {
    agent_store::agent_of(agents, id) matches Some(a) && a.last_seen_at is Some && now_ms
        - a.last_seen_at->0 <= 30_000 && a.listen_addr is Some
}

/// Every agent of a table that can be asked is asked, at the address that it told, and no
/// other.
pub proof fn agents_that_can_be_asked_are_asked(
    agents: Seq<agent_store::AgentModel>,
    ids: Seq<Seq<char>>,
    now_ms: i64,
)
    ensures
        federation::online_addresses(agents, ids, now_ms) == ids.filter(
            |id: Seq<char>| can_be_asked(agents, id, now_ms),
        ).map_values(
            |id: Seq<char>| agent_store::agent_of(agents, id)->0.listen_addr->0,
        ),
    decreases ids.len(),
{
    reveal(Seq::filter);
    let can = |id: Seq<char>| can_be_asked(agents, id, now_ms);
    let at = |id: Seq<char>| agent_store::agent_of(agents, id)->0.listen_addr->0;
    if ids.len() > 0 {
        agents_that_can_be_asked_are_asked(agents, ids.drop_last(), now_ms);
        if can(ids.last()) {
            assert(ids.filter(can).map_values(at) =~= ids.drop_last().filter(can).map_values(
                at,
            ).push(at(ids.last())));
        }
    } else {
        assert(ids.filter(can).map_values(at) =~= Seq::<Seq<char>>::empty());
    }
}

/// Whether a condition leaves a time: all that it joins by `AND` must leave it, a comparison
/// of the column `time` with a whole number says so itself, and anything else leaves it.
pub open spec fn leaves(c: sql::ConditionModel, time: i64) -> bool
    decreases c,
{
    match c {
        sql::ConditionModel::Binary(left, op, right) => if op == Operator::And {
            leaves(*left, time) && leaves(*right, time)
        } else {
            let number = match *right {
                sql::ConditionModel::Number(s) => decimal::signed_value(s),
                sql::ConditionModel::Quoted(s) => decimal::signed_value(s),
                _ => None,
            };
            if *left is Column && left->Column_0.len() > 0 && left->Column_0.last() == "time"@
                && number is Some {
                &&& op == Operator::Gt ==> time > number->0
                &&& op == Operator::GtEq ==> time >= number->0
                &&& op == Operator::Lt ==> time < number->0
                &&& op == Operator::LtEq ==> time <= number->0
            } else {
                true
            }
        },
        _ => true,
    }
}

/// The range of a condition is as narrow as the condition tells, and no narrower: a time that
/// is not at the ends of the numbers lies in it exactly where the condition leaves it.
pub proof fn range_is_what_the_condition_leaves(c: sql::ConditionModel, time: i64)
    requires
        i64::MIN < time < i64::MAX,
    ensures
        time_filter::bounds(time_filter::range_of(c)).holds(time) <==> leaves(c, time),
    decreases c,
{
    match c {
        sql::ConditionModel::Binary(left, op, right) => {
            if op == Operator::And {
                range_is_what_the_condition_leaves(*left, time);
                range_is_what_the_condition_leaves(*right, time);
            } else if time_filter::names_time(*left) && time_filter::constant_of(*right) is Some {
                lemma_constant_fits(*right);
            }
        },
        _ => {},
    }
}

proof fn lemma_constant_fits(c: sql::ConditionModel)
    requires
        time_filter::constant_of(c) is Some,
    ensures
        i64::MIN <= time_filter::constant_of(c)->0 <= i64::MAX,
{
}

/// Whether a statement is a plain selection with a condition.
pub open spec fn is_filtered(s: sql::StatementModel, c: sql::ConditionModel) -> bool {
    s matches sql::StatementModel::Select(q) && q.body == sql::SetModel::Select(
        q.body->Select_0,
        Some(c),
    )
}

pub open spec fn is_unfiltered(s: sql::StatementModel) -> bool {
    forall|c: sql::ConditionModel| !is_filtered(s, c)
}

proof fn lemma_statement_condition(s: sql::StatementModel)
    ensures
        match federation::statement_condition(s) {
            Some(c) => is_filtered(s, c),
            None => is_unfiltered(s),
        },
{
}

/// The condition that is looked at is that of the first statement that has one.
pub proof fn first_condition_counts(statements: Seq<sql::StatementModel>, i: int)
    requires
        0 <= i <= statements.len(),
        forall|k: int| 0 <= k < i ==> is_unfiltered(#[trigger] statements[k]),
    ensures
        i == statements.len() ==> federation::first_condition(statements) is None,
        i < statements.len() ==> forall|c: sql::ConditionModel| #[trigger]
            is_filtered(statements[i], c) ==> federation::first_condition(statements) == Some(c),
    decreases statements.len(),
{
    if statements.len() > 0 {
        lemma_statement_condition(statements[0]);
        let rest = statements.drop_first();
        if i > 0 {
            assert(is_unfiltered(statements[0]));
            if federation::statement_condition(statements[0]) is Some {
                assert(is_filtered(
                    statements[0],
                    federation::statement_condition(statements[0])->0,
                ));
            }
            assert forall|k: int| 0 <= k < i - 1 implies is_unfiltered(#[trigger] rest[k]) by {
                assert(rest[k] == statements[k + 1]);
            }
            first_condition_counts(rest, i - 1);
            if i < statements.len() {
                assert(rest[i - 1] == statements[i]);
            }
        }
    }
}

/// The agents are asked for every row that a statement may read: a time that its condition
/// leaves lies within the bounds that are asked for, where it is the first that has one.
/// Where the bounds are in order they are as narrow as the condition tells; without a
/// condition, or with bounds that leave nothing, none are asked for.
pub proof fn no_row_is_left_unasked(
    statements: Seq<sql::StatementModel>,
    i: int,
    c: sql::ConditionModel,
    time: i64,
)
    requires
        0 <= i < statements.len(),
        is_filtered(statements[i], c),
        forall|k: int| 0 <= k < i ==> is_unfiltered(#[trigger] statements[k]),
        i64::MIN < time < i64::MAX,
    ensures
        ({
            let (start, end) = federation::statement_bounds(statements);
            let range = time_filter::bounds(time_filter::range_of(c));
            &&& leaves(c, time) ==> (start is Some ==> start->0 <= time) && (end is Some ==> time
                <= end->0)
            &&& (range.start_ns is None || range.end_ns is None || range.start_ns->0
                <= range.end_ns->0) ==> (leaves(c, time) <==> (start is Some ==> start->0 <= time)
                && (end is Some ==> time <= end->0))
            &&& start is Some && end is Some ==> start->0 <= end->0
        }),
{
    first_condition_counts(statements, i);
    range_is_what_the_condition_leaves(c, time);
}

/// Without a condition nothing bounds what is asked for.
pub proof fn without_a_condition_all_is_asked_for(statements: Seq<sql::StatementModel>)
    requires
        forall|k: int| 0 <= k < statements.len() ==> is_unfiltered(#[trigger] statements[k]),
    ensures
        federation::statement_bounds(statements) == (None::<i64>, None::<i64>),
{
    first_condition_counts(statements, statements.len() as int);
}

/// The names that some named queries have.
pub open spec fn named_by(ctes: Seq<(Seq<char>, sql::QueryModel)>) -> Seq<Seq<char>> {
    Seq::new(ctes.len(), |i: int| ctes[i].0)
}

proof fn lemma_named_by(ctes: Seq<(Seq<char>, sql::QueryModel)>)
    ensures
        tables::cte_names(ctes) == named_by(ctes),
{
    assert(tables::cte_names(ctes) =~= named_by(ctes));
}

/// Whether a query reads a table, where some queries are named in front of it: a table that
/// is named with its database, in the sources of any part of it, and that no named query
/// hides. A named query is known in itself and behind it.
pub open spec fn query_reads(
    q: sql::QueryModel,
    names: Seq<Seq<char>>,
    t: (Seq<char>, Seq<char>),
) -> bool
    decreases q,
{
    ||| ctes_read(q.ctes, names, t)
    ||| set_reads(q.body, names + named_by(q.ctes), t)
}

pub open spec fn ctes_read(
    ctes: Seq<(Seq<char>, sql::QueryModel)>,
    names: Seq<Seq<char>>,
    t: (Seq<char>, Seq<char>),
) -> bool
    decreases ctes,
{
    exists|i: int|
        0 <= i < ctes.len() && query_reads(
            (#[trigger] ctes[i]).1,
            names + named_by(ctes.take(i + 1)),
            t,
        )
}

pub open spec fn set_reads(
    s: sql::SetModel,
    names: Seq<Seq<char>>,
    t: (Seq<char>, Seq<char>),
) -> bool
    decreases s,
{
    match s {
        sql::SetModel::Select(from, _) => exists|i: int|
            0 <= i < from.len() && source_reads(#[trigger] from[i], names, t),
        sql::SetModel::Nested(q) => query_reads(*q, names, t),
        sql::SetModel::Pair(a, b) => set_reads(*a, names, t) || set_reads(*b, names, t),
        sql::SetModel::Other => false,
    }
}

pub open spec fn source_reads(
    s: sql::SourceModel,
    names: Seq<Seq<char>>,
    t: (Seq<char>, Seq<char>),
) -> bool
    decreases s,
{
    ||| factor_reads(s.first, names, t)
    ||| exists|i: int| 0 <= i < s.joined.len() && factor_reads(#[trigger] s.joined[i], names, t)
}

pub open spec fn factor_reads(
    f: sql::FactorModel,
    names: Seq<Seq<char>>,
    t: (Seq<char>, Seq<char>),
) -> bool
    decreases f,
{
    match f {
        sql::FactorModel::Named(parts) => parts =~= seq![t.0, t.1] && !names.contains(t.1),
        sql::FactorModel::Derived(q) => query_reads(*q, names, t),
        sql::FactorModel::Nested(s) => source_reads(*s, names, t),
        sql::FactorModel::Other => false,
    }
}

proof fn lemma_contains_add(
    a: Seq<(Seq<char>, Seq<char>)>,
    b: Seq<(Seq<char>, Seq<char>)>,
    t: (Seq<char>, Seq<char>),
)
    ensures
        (a + b).contains(t) <==> a.contains(t) || b.contains(t),
{
    if a.contains(t) {
        let i = choose|i: int| 0 <= i < a.len() && a[i] == t;
        assert((a + b)[i] == t);
    }
    if b.contains(t) {
        let i = choose|i: int| 0 <= i < b.len() && b[i] == t;
        assert((a + b)[a.len() + i] == t);
    }
}

proof fn lemma_query_refs(q: sql::QueryModel, names: Seq<Seq<char>>, t: (Seq<char>, Seq<char>))
    ensures
        tables::query_refs(q, names).contains(t) <==> query_reads(q, names, t),
    decreases q, 0int,
{
    lemma_named_by(q.ctes);
    lemma_cte_refs(q.ctes, names, t);
    lemma_set_refs(q.body, names + tables::cte_names(q.ctes), t);
    lemma_contains_add(
        tables::cte_refs(q.ctes, names),
        tables::set_refs(q.body, names + tables::cte_names(q.ctes)),
        t,
    );
}

proof fn lemma_cte_refs(
    ctes: Seq<(Seq<char>, sql::QueryModel)>,
    names: Seq<Seq<char>>,
    t: (Seq<char>, Seq<char>),
)
    ensures
        tables::cte_refs(ctes, names).contains(t) <==> ctes_read(ctes, names, t),
    decreases ctes, 0int,
{
    if ctes.len() > 0 {
        let front = ctes.drop_last();
        lemma_named_by(ctes);
        lemma_cte_refs(front, names, t);
        assert(decreases_to!(ctes => ctes.last()));
        lemma_query_refs(ctes.last().1, names + tables::cte_names(ctes), t);
        lemma_contains_add(
            tables::cte_refs(front, names),
            tables::query_refs(ctes.last().1, names + tables::cte_names(ctes)),
            t,
        );
        assert(ctes.take(ctes.len() as int) =~= ctes);
        if ctes_read(front, names, t) {
            let i = choose|i: int|
                0 <= i < front.len() && query_reads(
                    (#[trigger] front[i]).1,
                    names + named_by(front.take(i + 1)),
                    t,
                );
            assert(front.take(i + 1) =~= ctes.take(i + 1));
            assert(ctes[i] == front[i]);
        }
        if query_reads(ctes.last().1, names + tables::cte_names(ctes), t) {
            assert(ctes[ctes.len() - 1] == ctes.last());
            assert(query_reads(
                ctes[ctes.len() - 1].1,
                names + named_by(ctes.take(ctes.len() - 1 + 1)),
                t,
            ));
        }
        if ctes_read(ctes, names, t) {
            let i = choose|i: int|
                0 <= i < ctes.len() && query_reads(
                    (#[trigger] ctes[i]).1,
                    names + named_by(ctes.take(i + 1)),
                    t,
                );
            if i < front.len() {
                assert(front[i] == ctes[i]);
                assert(front.take(i + 1) =~= ctes.take(i + 1));
            }
        }
    }
}

proof fn lemma_set_refs(s: sql::SetModel, names: Seq<Seq<char>>, t: (Seq<char>, Seq<char>))
    ensures
        tables::set_refs(s, names).contains(t) <==> set_reads(s, names, t),
    decreases s, 0int,
{
    match s {
        sql::SetModel::Select(from, _) => {
            lemma_source_list_refs(from, names, t);
        },
        sql::SetModel::Nested(q) => {
            lemma_query_refs(*q, names, t);
        },
        sql::SetModel::Pair(a, b) => {
            lemma_set_refs(*a, names, t);
            lemma_set_refs(*b, names, t);
            lemma_contains_add(tables::set_refs(*a, names), tables::set_refs(*b, names), t);
        },
        sql::SetModel::Other => {},
    }
}

proof fn lemma_source_list_refs(
    from: Seq<sql::SourceModel>,
    names: Seq<Seq<char>>,
    t: (Seq<char>, Seq<char>),
)
    ensures
        tables::source_list_refs(from, names).contains(t) <==> exists|i: int|
            0 <= i < from.len() && source_reads(#[trigger] from[i], names, t),
    decreases from, 0int,
{
    if from.len() > 0 {
        let front = from.drop_last();
        lemma_source_list_refs(front, names, t);
        assert(decreases_to!(from => from.last()));
        lemma_source_refs(from.last(), names, t);
        lemma_contains_add(
            tables::source_list_refs(front, names),
            tables::source_refs(from.last(), names),
            t,
        );
        if exists|i: int| 0 <= i < front.len() && source_reads(#[trigger] front[i], names, t) {
            let i = choose|i: int|
                0 <= i < front.len() && source_reads(#[trigger] front[i], names, t);
            assert(from[i] == front[i]);
        }
        if source_reads(from.last(), names, t) {
            assert(from[from.len() - 1] == from.last());
        }
        if exists|i: int| 0 <= i < from.len() && source_reads(#[trigger] from[i], names, t) {
            let i = choose|i: int|
                0 <= i < from.len() && source_reads(#[trigger] from[i], names, t);
            if i < front.len() {
                assert(front[i] == from[i]);
            }
        }
    }
}

proof fn lemma_source_refs(s: sql::SourceModel, names: Seq<Seq<char>>, t: (Seq<char>, Seq<char>))
    ensures
        tables::source_refs(s, names).contains(t) <==> source_reads(s, names, t),
    decreases s, 0int,
{
    lemma_factor_refs(s.first, names, t);
    lemma_factor_list_refs(s.joined, names, t);
    lemma_contains_add(
        tables::factor_refs(s.first, names),
        tables::factor_list_refs(s.joined, names),
        t,
    );
}

proof fn lemma_factor_list_refs(
    joined: Seq<sql::FactorModel>,
    names: Seq<Seq<char>>,
    t: (Seq<char>, Seq<char>),
)
    ensures
        tables::factor_list_refs(joined, names).contains(t) <==> exists|i: int|
            0 <= i < joined.len() && factor_reads(#[trigger] joined[i], names, t),
    decreases joined, 0int,
{
    if joined.len() > 0 {
        let front = joined.drop_last();
        lemma_factor_list_refs(front, names, t);
        assert(decreases_to!(joined => joined.last()));
        lemma_factor_refs(joined.last(), names, t);
        lemma_contains_add(
            tables::factor_list_refs(front, names),
            tables::factor_refs(joined.last(), names),
            t,
        );
        if exists|i: int| 0 <= i < front.len() && factor_reads(#[trigger] front[i], names, t) {
            let i = choose|i: int|
                0 <= i < front.len() && factor_reads(#[trigger] front[i], names, t);
            assert(joined[i] == front[i]);
        }
        if factor_reads(joined.last(), names, t) {
            assert(joined[joined.len() - 1] == joined.last());
        }
        if exists|i: int| 0 <= i < joined.len() && factor_reads(#[trigger] joined[i], names, t) {
            let i = choose|i: int|
                0 <= i < joined.len() && factor_reads(#[trigger] joined[i], names, t);
            if i < front.len() {
                assert(front[i] == joined[i]);
            }
        }
    }
}

proof fn lemma_factor_refs(f: sql::FactorModel, names: Seq<Seq<char>>, t: (Seq<char>, Seq<char>))
    ensures
        tables::factor_refs(f, names).contains(t) <==> factor_reads(f, names, t),
    decreases f, 0int,
{
    match f {
        sql::FactorModel::Named(parts) => {
            if parts.len() == 2 && !names.contains(parts[1]) {
                let one = seq![(parts[0], parts[1])];
                if parts =~= seq![t.0, t.1] {
                    assert(parts[0] == t.0 && parts[1] == t.1);
                    assert(one[0] == t);
                }
                if one.contains(t) {
                    assert(parts =~= seq![t.0, t.1]);
                }
            } else if parts =~= seq![t.0, t.1] {
                assert(parts[1] == t.1);
            }
        },
        sql::FactorModel::Derived(q) => {
            lemma_query_refs(*q, names, t);
        },
        sql::FactorModel::Nested(s) => {
            lemma_source_refs(*s, names, t);
        },
        sql::FactorModel::Other => {},
    }
}

/// The tables that are listed for some statements are those that one of them reads, and no
/// others.
pub proof fn listed_tables_are_read(
    statements: Seq<sql::StatementModel>,
    t: (Seq<char>, Seq<char>),
)
    ensures
        tables::table_list(statements).contains(t) <==> exists|i: int|
            0 <= i < statements.len() && #[trigger] statement_reads(statements[i], t),
{
    tables::tables_are_listed_once(statements);
    lemma_statement_refs(statements, t);
}

pub open spec fn statement_reads(s: sql::StatementModel, t: (Seq<char>, Seq<char>)) -> bool {
    s matches sql::StatementModel::Select(q) && query_reads(q, Seq::empty(), t)
}

proof fn lemma_statement_refs(
    statements: Seq<sql::StatementModel>,
    t: (Seq<char>, Seq<char>),
)
    ensures
        tables::statement_list_refs(statements).contains(t) <==> exists|i: int|
            0 <= i < statements.len() && #[trigger] statement_reads(statements[i], t),
    decreases statements.len(),
{
    if statements.len() > 0 {
        let front = statements.drop_last();
        lemma_statement_refs(front, t);
        let own = match statements.last() {
            sql::StatementModel::Select(q) => tables::query_refs(q, Seq::empty()),
            sql::StatementModel::Other => Seq::empty(),
        };
        match statements.last() {
            sql::StatementModel::Select(q) => {
                lemma_query_refs(q, Seq::empty(), t);
            },
            sql::StatementModel::Other => {},
        }
        lemma_contains_add(tables::statement_list_refs(front), own, t);
        if exists|i: int| 0 <= i < front.len() && #[trigger] statement_reads(front[i], t) {
            let i = choose|i: int| 0 <= i < front.len() && #[trigger] statement_reads(front[i], t);
            assert(statement_reads(statements[i], t));
        }
        if statement_reads(statements.last(), t) {
            assert(statement_reads(statements[statements.len() - 1], t));
        }
        if exists|i: int|
            0 <= i < statements.len() && #[trigger] statement_reads(statements[i], t) {
            let i = choose|i: int|
                0 <= i < statements.len() && #[trigger] statement_reads(statements[i], t);
            if i < front.len() {
                assert(statement_reads(front[i], t));
            }
        }
    }
}

/// Tables are listed as they first appear: what statements list comes first in what they list
/// together with later ones, and the tables that a later one adds are its own.
pub proof fn tables_are_listed_as_they_appear(
    statements: Seq<sql::StatementModel>,
    more: sql::StatementModel,
)
    ensures
        tables::table_list(statements).is_prefix_of(tables::table_list(statements.push(more))),
        forall|i: int|
            tables::table_list(statements).len() <= i < tables::table_list(
                statements.push(more),
            ).len() ==> statement_reads(
                more,
                #[trigger] tables::table_list(statements.push(more))[i],
            ),
{
    let own = match more {
        sql::StatementModel::Select(q) => tables::query_refs(q, Seq::empty()),
        sql::StatementModel::Other => Seq::empty(),
    };
    let refs = tables::statement_list_refs(statements);
    assert(statements.push(more).drop_last() =~= statements);
    assert(tables::statement_list_refs(statements.push(more)) =~= refs + own);
    lemma_refs_follow(refs, own);
    let all = tables::table_list(statements.push(more));
    assert forall|i: int| tables::table_list(statements).len() <= i < all.len() implies
        statement_reads(more, #[trigger] all[i]) by {
        assert(own.contains(all[i]));
        match more {
            sql::StatementModel::Select(q) => {
                lemma_query_refs(q, Seq::empty(), all[i]);
            },
            sql::StatementModel::Other => {},
        }
    }
}

proof fn lemma_refs_follow(a: Seq<(Seq<char>, Seq<char>)>, b: Seq<(Seq<char>, Seq<char>)>)
    ensures
        tables::with_refs(Seq::empty(), a).is_prefix_of(tables::with_refs(Seq::empty(), a + b)),
        forall|i: int|
            tables::with_refs(Seq::empty(), a).len() <= i < tables::with_refs(
                Seq::empty(),
                a + b,
            ).len() ==> b.contains(#[trigger] tables::with_refs(Seq::empty(), a + b)[i]),
    decreases b.len(),
{
    let first = tables::with_refs(Seq::empty(), a);
    if b.len() == 0 {
        assert(a + b =~= a);
        assert(first.subrange(0, first.len() as int) =~= first);
    } else {
        let front = b.drop_last();
        lemma_refs_follow(a, front);
        assert((a + b).drop_last() =~= a + front);
        let before = tables::with_refs(Seq::empty(), a + front);
        let all = tables::with_refs(Seq::empty(), a + b);
        assert(all.subrange(0, first.len() as int) =~= before.subrange(0, first.len() as int));
        assert forall|i: int| first.len() <= i < all.len() implies b.contains(
            #[trigger] all[i],
        ) by {
            if i < before.len() {
                assert(all[i] == before[i]);
                let k = choose|k: int| 0 <= k < front.len() && front[k] == before[i];
                assert(b[k] == all[i]);
            } else {
                assert(all[i] == b[b.len() - 1]);
            }
        }
    }
}

} // verus!
