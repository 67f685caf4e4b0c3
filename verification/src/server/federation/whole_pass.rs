//! A pass over the tables of a query from its start to its end: it leaves the tables as they
//! were, and counts every agent.

use crate::server::agent_store;
use crate::server::federation;
use crate::server::federation::pass::{FederationPass, PassAction, PassEvent};
use crate::server::federation::FetchReply;
use crate::server::metadata_store;
use vstd::prelude::*;

verus! {

/// A moment of a pass: where it stands, what the caller was told to do, and what stands for
/// each table of the query engine.
pub struct Moment {
    pub pass: FederationPass,
    pub action: PassAction,
    pub tables: Map<Seq<char>, usize>,
}

/// What the caller reports between two moments, and what is known then.
pub struct Turn {
    pub event: PassEvent,
    pub metadata: metadata_store::StoreModel,
    pub agents: Seq<agent_store::AgentModel>,
    pub now_ms: i64,
}

/// What was replaced, each by the table that the query engine takes the name for. It may
/// take several names for one table.
pub open spec fn keyed(
    replaced: Seq<(String, Option<usize>)>,
    key: spec_fn(Seq<char>) -> Seq<char>,
) -> Seq<(Seq<char>, Option<usize>)> {
    replaced.map_values(|e: (String, Option<usize>)| (key(e.0@), e.1))
}

/// Whether nothing changed but what stands for one table.
pub open spec fn only_at(
    before: Map<Seq<char>, usize>,
    after: Map<Seq<char>, usize>,
    table: Seq<char>,
) -> bool {
    forall|n: Seq<char>|
        n != table ==> #[trigger] federation::standing(after, n) == federation::standing(before, n)
}

/// Whether the caller did what it was told: it reports one reply for each agent that it
/// asked, and what stands for the table that it looked up; it sets up no other table than
/// the one named, well or not; and it puts back what it was given.
pub open spec fn obeyed(
    m: Moment,
    event: PassEvent,
    after: Map<Seq<char>, usize>,
    key: spec_fn(Seq<char>) -> Seq<char>,
) -> bool {
    match event {
        PassEvent::Fetched(replies) => {
            &&& replies@.len() == m.action->Fetch_0@.len()
            &&& after == m.tables
        },
        PassEvent::Found(stored) => {
            &&& stored == federation::standing(m.tables, key(m.action->LookUp_name@))
            &&& after == m.tables
        },
        PassEvent::SetUp(_) => only_at(m.tables, after, key(m.action->SetUp_name@)),
        PassEvent::PutBack => after == federation::put_back(
            m.tables,
            keyed(m.action->PutBack_0@, key),
        ),
        _ => after == m.tables,
    }
}

/// Whether one moment follows another.
pub open spec fn follows(
    a: Moment,
    turn: Turn,
    b: Moment,
    key: spec_fn(Seq<char>) -> Seq<char>,
) -> bool {
    &&& a.pass.wf()
    &&& a.pass.expects(turn.event)
    &&& a.pass.fits(turn.metadata, turn.event)
    &&& b.pass.wf()
    &&& b.pass.stepped(
        a.pass,
        turn.metadata,
        turn.agents,
        turn.now_ms,
        turn.event,
        b.action,
    )
    &&& obeyed(a, turn.event, b.tables, key)
}

/// Whether the moments are those of a pass from its start, with a query engine that takes
/// each name for the table that `key` gives.
pub open spec fn is_pass(
    moments: Seq<Moment>,
    turns: Seq<Turn>,
    key: spec_fn(Seq<char>) -> Seq<char>,
) -> bool {
    &&& moments.len() == turns.len() + 1
    &&& moments[0].pass.wf()
    &&& moments[0].pass.at == 0
    &&& moments[0].pass.phase is Ready
    &&& moments[0].pass.federator.replaced@.len() == 0
    &&& moments[0].pass.federator.outcome.agents_queried == 0
    &&& moments[0].pass.federator.outcome.agents_skipped == 0
    &&& forall|i: int|
        0 <= i < turns.len() ==> follows(moments[i], #[trigger] turns[i], moments[i + 1], key)
}

/// The tables with one put back.
spec fn restored(tables: Map<Seq<char>, usize>, e: (Seq<char>, Option<usize>)) -> Map<
    Seq<char>,
    usize,
> {
    match e.1 {
        Some(p) => tables.insert(e.0, p),
        None => tables.remove(e.0),
    }
}

/// The tables after what was replaced is put back, what was replaced last first.
spec fn undone(
    tables: Map<Seq<char>, usize>,
    replaced: Seq<(Seq<char>, Option<usize>)>,
) -> Map<Seq<char>, usize>
    decreases replaced.len(),
{
    if replaced.len() == 0 {
        tables
    } else {
        undone(restored(tables, replaced.last()), replaced.drop_last())
    }
}

proof fn lemma_put_back_first(
    tables: Map<Seq<char>, usize>,
    list: Seq<(Seq<char>, Option<usize>)>,
)
    requires
        list.len() > 0,
    ensures
        federation::put_back(tables, list) == federation::put_back(
            restored(tables, list[0]),
            list.drop_first(),
        ),
    decreases list.len(),
{
    if list.len() > 1 {
        lemma_put_back_first(tables, list.drop_last());
        assert(list.drop_last().drop_first() =~= list.drop_first().drop_last());
        assert(list.drop_first().last() == list.last());
    } else {
        assert(list.drop_first() =~= Seq::<(Seq<char>, Option<usize>)>::empty());
        assert(list.drop_last() =~= Seq::<(Seq<char>, Option<usize>)>::empty());
        assert(list.last() == list[0]);
        assert(federation::put_back(tables, list.drop_last()) == tables);
    }
}

proof fn lemma_put_back_reversed(
    tables: Map<Seq<char>, usize>,
    replaced: Seq<(Seq<char>, Option<usize>)>,
)
    ensures
        federation::put_back(tables, replaced.reverse()) == undone(tables, replaced),
    decreases replaced.len(),
{
    let list = replaced.reverse();
    if replaced.len() > 0 {
        lemma_put_back_first(tables, list);
        assert(list.drop_first() =~= replaced.drop_last().reverse());
        assert(list[0] == replaced.last());
        lemma_put_back_reversed(restored(tables, replaced.last()), replaced.drop_last());
    }
}

spec fn replaced_in(m: Moment, key: spec_fn(Seq<char>) -> Seq<char>) -> Seq<
    (Seq<char>, Option<usize>),
> {
    keyed(m.pass.federator.replaced@, key)
}

/// What holds at every moment, with the tables at the start: undoing what was replaced gives
/// them back.
spec fn kept(
    m: Moment,
    start: Map<Seq<char>, usize>,
    key: spec_fn(Seq<char>) -> Seq<char>,
) -> bool {
    &&& m.pass.phase is Ended ==> m.tables == start
    &&& !(m.pass.phase is Ended) ==> undone(m.tables, replaced_in(m, key)) == start
    &&& m.pass.phase is LookingUp ==> m.action is LookUp && m.action->LookUp_name@
        == m.pass.name()
    &&& m.pass.phase is SettingUp ==> m.action is SetUp && m.action->SetUp_name@ == m.pass.name()
        && replaced_in(m, key).len() > 0 && replaced_in(m, key).last().0 == key(m.pass.name())
    &&& m.pass.phase is PuttingBack ==> m.action is PutBack && keyed(m.action->PutBack_0@, key)
        == replaced_in(m, key).reverse()
}

proof fn lemma_keyed_views(
    a: Seq<(String, Option<usize>)>,
    b: Seq<(String, Option<usize>)>,
    key: spec_fn(Seq<char>) -> Seq<char>,
)
    ensures
        federation::replaced_views(a) == federation::replaced_views(b) ==> keyed(a, key) == keyed(
            b,
            key,
        ),
        federation::replaced_views(a) == federation::replaced_views(b).reverse() ==> keyed(a, key)
            == keyed(b, key).reverse(),
        forall|e: (Seq<char>, Option<usize>)|
            federation::replaced_views(a) == #[trigger] federation::replaced_views(b).push(e)
                ==> keyed(a, key) == keyed(b, key).push((key(e.0), e.1)),
{
    let x = federation::replaced_views(a);
    let y = federation::replaced_views(b);
    assert forall|i: int| 0 <= i < a.len() implies #[trigger] keyed(a, key)[i] == (
        key(x[i].0),
        x[i].1,
    ) by {}
    assert forall|i: int| 0 <= i < b.len() implies #[trigger] keyed(b, key)[i] == (
        key(y[i].0),
        y[i].1,
    ) by {}
    if x == y {
        assert(x.len() == a.len() && y.len() == b.len());
        assert(keyed(a, key) =~= keyed(b, key));
    }
    if x == y.reverse() {
        assert(x.len() == a.len() && y.len() == b.len());
        assert forall|i: int| 0 <= i < a.len() implies keyed(a, key)[i] == keyed(
            b,
            key,
        ).reverse()[i] by {
            assert(x[i] == y[y.len() - 1 - i]);
        }
        assert(keyed(a, key) =~= keyed(b, key).reverse());
    }
    assert forall|e: (Seq<char>, Option<usize>)| x == #[trigger] y.push(e) implies keyed(a, key)
        == keyed(b, key).push((key(e.0), e.1)) by {
        assert(x.len() == a.len() && y.len() == b.len());
        assert forall|i: int| 0 <= i < a.len() implies keyed(a, key)[i] == keyed(b, key).push(
            (key(e.0), e.1),
        )[i] by {
            assert(x[i] == y.push(e)[i]);
        }
        assert(keyed(a, key) =~= keyed(b, key).push((key(e.0), e.1)));
    }
}

proof fn lemma_restored(
    tables: Map<Seq<char>, usize>,
    changed: Map<Seq<char>, usize>,
    table: Seq<char>,
    was: Option<usize>,
)
    requires
        only_at(tables, changed, table),
    ensures
        restored(changed, (table, was)) == restored(tables, (table, was)),
        was == federation::standing(tables, table) ==> restored(tables, (table, was)) == tables,
{
    let x = restored(changed, (table, was));
    let y = restored(tables, (table, was));
    assert forall|n: Seq<char>| x.contains_key(n) == y.contains_key(n) by {
        if n != table {
            assert(federation::standing(changed, n) == federation::standing(tables, n));
        }
    }
    assert forall|n: Seq<char>| x.contains_key(n) implies x[n] == y[n] by {
        if n != table {
            assert(federation::standing(changed, n) == federation::standing(tables, n));
        }
    }
    assert(x =~= y);
    if was == federation::standing(tables, table) {
        assert(y =~= tables);
    }
}

proof fn lemma_follows_keeps(
    a: Moment,
    turn: Turn,
    b: Moment,
    start: Map<Seq<char>, usize>,
    key: spec_fn(Seq<char>) -> Seq<char>,
)
    requires
        follows(a, turn, b, key),
        kept(a, start, key),
    ensures
        kept(b, start, key),
{
    let was = replaced_in(a, key);
    let now = replaced_in(b, key);
    lemma_keyed_views(b.pass.federator.replaced@, a.pass.federator.replaced@, key);
    match turn.event {
        PassEvent::Found(stored) => {
            if b.pass.phase is SettingUp {
                let e = (key(a.pass.name()), stored);
                assert(now == was.push(e));
                assert(now.drop_last() =~= was);
                lemma_restored(a.tables, a.tables, e.0, stored);
            }
        },
        PassEvent::SetUp(_) => {
            assert(now == was);
            lemma_restored(a.tables, b.tables, was.last().0, was.last().1);
            if b.pass.phase is PuttingBack {
                lemma_keyed_views(b.action->PutBack_0@, a.pass.federator.replaced@, key);
            }
        },
        PassEvent::Planned(_) => {
            lemma_keyed_views(b.action->PutBack_0@, a.pass.federator.replaced@, key);
        },
        PassEvent::PutBack => {
            lemma_put_back_reversed(a.tables, was);
        },
        _ => {},
    }
}

proof fn lemma_kept(
    moments: Seq<Moment>,
    turns: Seq<Turn>,
    key: spec_fn(Seq<char>) -> Seq<char>,
    k: int,
)
    requires
        is_pass(moments, turns, key),
        0 <= k < moments.len(),
    ensures
        kept(moments[k], moments[0].tables, key),
    decreases k,
{
    if k > 0 {
        assert(follows(moments[k - 1], turns[k - 1], moments[k], key));
        lemma_kept(moments, turns, key, k - 1);
        lemma_follows_keeps(moments[k - 1], turns[k - 1], moments[k], moments[0].tables, key);
    }
}

/// A pass leaves the tables as they were: whatever the agents answer, whether the tables can
/// be set up or not, whether the query can be planned or not, and also where several names
/// of the query are one table, at the end the same stands for each table as at the start.
pub proof fn pass_leaves_the_tables_as_they_were(
    moments: Seq<Moment>,
    turns: Seq<Turn>,
    key: spec_fn(Seq<char>) -> Seq<char>,
)
    requires
        is_pass(moments, turns, key),
        moments.last().pass.phase is Ended,
    ensures
        moments.last().tables == moments[0].tables,
{
    lemma_kept(moments, turns, key, moments.len() - 1);
}

/// Whether an agent answered that it holds no rows.
pub open spec fn is_empty(reply: FetchReply) -> bool {
    reply is Answer && reply->status == 204
}

pub open spec fn count_empty(replies: Seq<FetchReply>) -> nat
    decreases replies.len(),
{
    if replies.len() == 0 {
        0
    } else {
        count_empty(replies.drop_last()) + (if is_empty(replies.last()) {
            1nat
        } else {
            0
        })
    }
}

/// How many answers without rows came in the first turns.
pub open spec fn answers_without_rows(turns: Seq<Turn>) -> nat
    decreases turns.len(),
{
    if turns.len() == 0 {
        0
    } else {
        answers_without_rows(turns.drop_last()) + (match turns.last().event {
            PassEvent::Fetched(replies) => count_empty(replies@),
            _ => 0,
        })
    }
}

/// How many agents are listed for the tables that were begun in the first turns.
pub open spec fn agents_listed(moments: Seq<Moment>, turns: Seq<Turn>) -> nat
    decreases turns.len(),
{
    if turns.len() == 0 {
        0
    } else {
        let m = moments[turns.len() - 1];
        agents_listed(moments, turns.drop_last()) + (if turns.last().event is Next && m.pass.at
            < m.pass.federator.tables@.len() {
            m.pass.sources(turns.last().metadata).len()
        } else {
            0
        })
    }
}

proof fn lemma_replies(replies: Seq<FetchReply>)
    ensures
        federation::count_queried(replies) + federation::count_skipped(replies) + count_empty(
            replies,
        ) == replies.len(),
    decreases replies.len(),
{
    if replies.len() > 0 {
        lemma_replies(replies.drop_last());
    }
}

spec fn asked(m: Moment) -> nat {
    if m.pass.phase is Fetching {
        m.action->Fetch_0@.len()
    } else {
        0
    }
}

proof fn lemma_counted(
    moments: Seq<Moment>,
    turns: Seq<Turn>,
    key: spec_fn(Seq<char>) -> Seq<char>,
    k: int,
)
    requires
        is_pass(moments, turns, key),
        0 <= k < moments.len(),
    ensures
        moments[k].pass.federator.outcome.agents_queried
            + moments[k].pass.federator.outcome.agents_skipped + answers_without_rows(
            turns.take(k),
        ) + asked(moments[k]) == agents_listed(moments, turns.take(k)),
    decreases k,
{
    if k > 0 {
        let a = moments[k - 1];
        let b = moments[k];
        let turn = turns[k - 1];
        assert(follows(a, turn, b, key));
        lemma_counted(moments, turns, key, k - 1);
        assert(turns.take(k).drop_last() =~= turns.take(k - 1));
        assert(turns.take(k).last() == turn);
        match turn.event {
            PassEvent::Fetched(replies) => {
                lemma_replies(replies@);
            },
            PassEvent::Next => {
                if b.pass.phase is Fetching {
                    assert(crate::text::pair_views(b.action->Fetch_0@).len()
                        == b.action->Fetch_0@.len());
                }
            },
            _ => {},
        }
    }
}

/// At the end of a pass every agent that is listed for a table that was begun is counted
/// once: as queried, as skipped, or by its answer that it holds no rows.
pub proof fn every_agent_is_counted(
    moments: Seq<Moment>,
    turns: Seq<Turn>,
    key: spec_fn(Seq<char>) -> Seq<char>,
)
    requires
        is_pass(moments, turns, key),
        moments.last().pass.phase is Ended,
    ensures
        moments.last().pass.federator.outcome.agents_queried
            + moments.last().pass.federator.outcome.agents_skipped + answers_without_rows(turns)
            == agents_listed(moments, turns),
{
    lemma_counted(moments, turns, key, moments.len() - 1);
    assert(turns.take(turns.len() as int) =~= turns);
}

} // verus!
