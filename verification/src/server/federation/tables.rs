//! Which tables the statements of a SQL text read.

use crate::server::federation::sql;
use crate::server::federation::sql::{FactorTree, QueryTree, SetTree, SourceTree, StatementTree};
use crate::text;
use vstd::prelude::*;

verus! {

pub open spec fn cte_names(ctes: Seq<(Seq<char>, sql::QueryModel)>) -> Seq<Seq<char>> {
    ctes.map_values(|c: (Seq<char>, sql::QueryModel)| c.0)
}

/// The tables that a query reads, as database and table, in the order of the text. A table
/// counts where its name has two parts and the second is not the name of a query that is
/// named in front.
pub open spec fn query_refs(q: sql::QueryModel, names: Seq<Seq<char>>) -> Seq<
    (Seq<char>, Seq<char>),
>
    decreases q,
{
    cte_refs(q.ctes, names) + set_refs(q.body, names + cte_names(q.ctes))
}

/// The tables that some named queries read. In each, its own name and those before it are
/// known.
pub open spec fn cte_refs(
    ctes: Seq<(Seq<char>, sql::QueryModel)>,
    names: Seq<Seq<char>>,
) -> Seq<(Seq<char>, Seq<char>)>
    decreases ctes,
{
    if ctes.len() == 0 {
        Seq::empty()
    } else {
        cte_refs(ctes.drop_last(), names) + query_refs(ctes.last().1, names + cte_names(ctes))
    }
}

pub open spec fn set_refs(s: sql::SetModel, names: Seq<Seq<char>>) -> Seq<(Seq<char>, Seq<char>)>
    decreases s,
{
    match s {
        sql::SetModel::Select(from, _) => source_list_refs(from, names),
        sql::SetModel::Nested(q) => query_refs(*q, names),
        sql::SetModel::Pair(a, b) => set_refs(*a, names) + set_refs(*b, names),
        sql::SetModel::Other => Seq::empty(),
    }
}

pub open spec fn source_list_refs(from: Seq<sql::SourceModel>, names: Seq<Seq<char>>) -> Seq<
    (Seq<char>, Seq<char>),
>
    decreases from,
{
    if from.len() == 0 {
        Seq::empty()
    } else {
        source_list_refs(from.drop_last(), names) + source_refs(from.last(), names)
    }
}

pub open spec fn source_refs(s: sql::SourceModel, names: Seq<Seq<char>>) -> Seq<
    (Seq<char>, Seq<char>),
>
    decreases s,
{
    factor_refs(s.first, names) + factor_list_refs(s.joined, names)
}

pub open spec fn factor_list_refs(joined: Seq<sql::FactorModel>, names: Seq<Seq<char>>) -> Seq<
    (Seq<char>, Seq<char>),
>
    decreases joined,
{
    if joined.len() == 0 {
        Seq::empty()
    } else {
        factor_list_refs(joined.drop_last(), names) + factor_refs(joined.last(), names)
    }
}

pub open spec fn factor_refs(f: sql::FactorModel, names: Seq<Seq<char>>) -> Seq<
    (Seq<char>, Seq<char>),
>
    decreases f,
{
    match f {
        sql::FactorModel::Named(parts) => if parts.len() == 2 && !names.contains(parts[1]) {
            seq![(parts[0], parts[1])]
        } else {
            Seq::empty()
        },
        sql::FactorModel::Derived(q) => query_refs(*q, names),
        sql::FactorModel::Nested(s) => source_refs(*s, names),
        sql::FactorModel::Other => Seq::empty(),
    }
}

pub open spec fn statement_list_refs(statements: Seq<sql::StatementModel>) -> Seq<
    (Seq<char>, Seq<char>),
>
    decreases statements.len(),
{
    if statements.len() == 0 {
        Seq::empty()
    } else {
        statement_list_refs(statements.drop_last()) + (match statements.last() {
            sql::StatementModel::Select(q) => query_refs(q, Seq::empty()),
            sql::StatementModel::Other => Seq::empty(),
        })
    }
}

/// A list with some more tables behind it, each that it does not hold yet, once.
pub open spec fn with_refs(
    known: Seq<(Seq<char>, Seq<char>)>,
    refs: Seq<(Seq<char>, Seq<char>)>,
) -> Seq<(Seq<char>, Seq<char>)>
    decreases refs.len(),
{
    if refs.len() == 0 {
        known
    } else {
        let before = with_refs(known, refs.drop_last());
        if before.contains(refs.last()) {
            before
        } else {
            before.push(refs.last())
        }
    }
}

/// The tables that some statements read, each once, in the order of their first appearance.
pub open spec fn table_list(statements: Seq<sql::StatementModel>) -> Seq<(Seq<char>, Seq<char>)> {
    with_refs(Seq::empty(), statement_list_refs(statements))
}

proof fn lemma_with_refs_append(
    known: Seq<(Seq<char>, Seq<char>)>,
    a: Seq<(Seq<char>, Seq<char>)>,
    b: Seq<(Seq<char>, Seq<char>)>,
)
    ensures
        with_refs(known, a + b) == with_refs(with_refs(known, a), b),
    decreases b.len(),
{
    if b.len() == 0 {
        assert(a + b =~= a);
    } else {
        assert((a + b).drop_last() =~= a + b.drop_last());
        assert((a + b).last() == b.last());
        lemma_with_refs_append(known, a, b.drop_last());
    }
}

fn holds_name(names: &Vec<String>, name: &str) -> (r: bool)
    ensures
        r == text::views(names@).contains(name@),
{
    let ghost all = text::views(names@);
    match text::position_of(names, name) {
        Some(i) => {
            assert(all[i as int] == name@);
            true
        },
        None => {
            assert(!all.contains(name@)) by {
                if all.contains(name@) {
                    let k = choose|k: int| 0 <= k < all.len() && all[k] == name@;
                    assert(names@[k]@ == name@);
                }
            }
            false
        },
    }
}

fn holds_pair(tables: &Vec<(String, String)>, db: &str, table: &str) -> (r: bool)
    ensures
        r == text::pair_views(tables@).contains((db@, table@)),
{
    let ghost all = text::pair_views(tables@);
    let mut i: usize = 0;
    while i < tables.len()
        invariant
            i <= tables@.len(),
            all == text::pair_views(tables@),
            forall|k: int| 0 <= k < i ==> #[trigger] all[k] != (db@, table@),
        decreases tables@.len() - i,
    {
        assert(all[i as int] == (tables@[i as int].0@, tables@[i as int].1@));
        if text::same(tables[i].0.as_str(), db) && text::same(tables[i].1.as_str(), table) {
            assert(all.contains((db@, table@)));
            return true;
        }
        i += 1;
    }
    assert(!all.contains((db@, table@)));
    false
}

fn walk_factor(f: &FactorTree, names: &Vec<String>, tables: &mut Vec<(String, String)>)
    ensures
        text::pair_views(final(tables)@) == with_refs(
            text::pair_views(old(tables)@),
            factor_refs(f@, text::views(names@)),
        ),
    decreases f@,
{
    let ghost m = f@;
    let ghost known = text::pair_views(tables@);
    match f {
        FactorTree::Named(parts) => {
            let ghost model = text::views(parts@);
            assert(model.len() == parts@.len());
            if parts.len() == 2 {
                assert(model[0] == parts@[0]@ && model[1] == parts@[1]@);
                if !holds_name(names, parts[1].as_str()) {
                    let ghost refs = seq![(model[0], model[1])];
                    assert(refs.drop_last() =~= Seq::<(Seq<char>, Seq<char>)>::empty());
                    assert(with_refs(known, refs.drop_last()) == known);
                    if !holds_pair(tables, parts[0].as_str(), parts[1].as_str()) {
                        tables.push((parts[0].clone(), parts[1].clone()));
                        assert(text::pair_views(tables@) =~= known.push((model[0], model[1])));
                    }
                }
            }
        },
        FactorTree::Derived(q) => {
            assert(decreases_to!(m => *m->Derived_0));
            walk_query(q, names, tables);
        },
        FactorTree::Nested(s) => {
            assert(decreases_to!(m => *m->Nested_0));
            walk_source(s, names, tables);
        },
        FactorTree::Other => {},
    }
}

fn walk_source(s: &SourceTree, names: &Vec<String>, tables: &mut Vec<(String, String)>)
    ensures
        text::pair_views(final(tables)@) == with_refs(
            text::pair_views(old(tables)@),
            source_refs(s@, text::views(names@)),
        ),
    decreases s@,
{
    let ghost m = s@;
    let ghost scope = text::views(names@);
    let ghost known = text::pair_views(tables@);
    let ghost first = factor_refs(m.first, scope);
    assert(decreases_to!(m => m.first));
    walk_factor(&s.first, names, tables);
    let mut i: usize = 0;
    assert(first + factor_list_refs(m.joined.take(0), scope) =~= first);
    while i < s.joined.len()
        invariant
            i <= s.joined@.len(),
            m == s@,
            scope == text::views(names@),
            text::pair_views(tables@) == with_refs(
                known,
                first + factor_list_refs(m.joined.take(i as int), scope),
            ),
        decreases s.joined@.len() - i,
    {
        assert(m.joined[i as int] == s.joined@[i as int]@);
        assert(decreases_to!(m => m.joined[i as int]));
        walk_factor(&s.joined[i], names, tables);
        proof {
            let next = m.joined.take(i + 1);
            assert(next.drop_last() =~= m.joined.take(i as int));
            assert(next.last() == m.joined[i as int]);
            let before = first + factor_list_refs(m.joined.take(i as int), scope);
            lemma_with_refs_append(known, before, factor_refs(m.joined[i as int], scope));
            assert(first + factor_list_refs(next, scope) =~= before + factor_refs(
                m.joined[i as int],
                scope,
            ));
        }
        i += 1;
    }
    assert(m.joined.take(i as int) =~= m.joined);
}

fn walk_set(s: &SetTree, names: &Vec<String>, tables: &mut Vec<(String, String)>)
    ensures
        text::pair_views(final(tables)@) == with_refs(
            text::pair_views(old(tables)@),
            set_refs(s@, text::views(names@)),
        ),
    decreases s@,
{
    let ghost m = s@;
    let ghost scope = text::views(names@);
    let ghost known = text::pair_views(tables@);
    match s {
        SetTree::Select(from, _) => {
            let ghost models = m->Select_0;
            let mut i: usize = 0;
            while i < from.len()
                invariant
                    i <= from@.len(),
                    m == s@,
                    m is Select,
                    models == m->Select_0,
                    models.len() == from@.len(),
                    forall|k: int| 0 <= k < from@.len() ==> models[k] == (#[trigger] from@[k])@,
                    scope == text::views(names@),
                    text::pair_views(tables@) == with_refs(
                        known,
                        source_list_refs(models.take(i as int), scope),
                    ),
                decreases from@.len() - i,
            {
                assert(models[i as int] == from@[i as int]@);
                assert(decreases_to!(m => m->Select_0[i as int]));
                walk_source(&from[i], names, tables);
                proof {
                    let next = models.take(i + 1);
                    assert(next.drop_last() =~= models.take(i as int));
                    assert(next.last() == models[i as int]);
                    lemma_with_refs_append(
                        known,
                        source_list_refs(models.take(i as int), scope),
                        source_refs(models[i as int], scope),
                    );
                }
                i += 1;
            }
            assert(models.take(i as int) =~= models);
        },
        SetTree::Nested(q) => {
            assert(decreases_to!(m => *m->Nested_0));
            walk_query(q, names, tables);
        },
        SetTree::Pair(a, b) => {
            assert(decreases_to!(m => *m->Pair_0));
            assert(decreases_to!(m => *m->Pair_1));
            walk_set(a, names, tables);
            walk_set(b, names, tables);
            proof {
                lemma_with_refs_append(known, set_refs(a@, scope), set_refs(b@, scope));
            }
        },
        SetTree::Other => {},
    }
}

fn walk_query(q: &QueryTree, names: &Vec<String>, tables: &mut Vec<(String, String)>)
    ensures
        text::pair_views(final(tables)@) == with_refs(
            text::pair_views(old(tables)@),
            query_refs(q@, text::views(names@)),
        ),
    decreases q@,
{
    let ghost m = q@;
    let ghost scope = text::views(names@);
    let ghost known = text::pair_views(tables@);
    let mut all_names = text::copy_list(names);
    let mut i: usize = 0;
    assert(scope + cte_names(m.ctes.take(0)) =~= scope);
    while i < q.ctes.len()
        invariant
            i <= q.ctes@.len(),
            m == q@,
            text::views(all_names@) == scope + cte_names(m.ctes.take(i as int)),
            text::pair_views(tables@) == with_refs(
                known,
                cte_refs(m.ctes.take(i as int), scope),
            ),
        decreases q.ctes@.len() - i,
    {
        let ghost next = m.ctes.take(i + 1);
        let ghost was = all_names@;
        assert(m.ctes[i as int] == (q.ctes@[i as int].0@, q.ctes@[i as int].1@));
        assert(decreases_to!(m => m.ctes[i as int].1));
        all_names.push(q.ctes[i].0.clone());
        assert(text::views(all_names@) =~= text::views(was).push(m.ctes[i as int].0));
        assert(scope + cte_names(next) =~= (scope + cte_names(m.ctes.take(i as int))).push(
            m.ctes[i as int].0,
        ));
        walk_query(&q.ctes[i].1, &all_names, tables);
        proof {
            assert(next.drop_last() =~= m.ctes.take(i as int));
            assert(next.last() == m.ctes[i as int]);
            lemma_with_refs_append(
                known,
                cte_refs(m.ctes.take(i as int), scope),
                query_refs(m.ctes[i as int].1, scope + cte_names(next)),
            );
        }
        i += 1;
    }
    assert(m.ctes.take(i as int) =~= m.ctes);
    assert(decreases_to!(m => m.body));
    walk_set(&q.body, &all_names, tables);
    proof {
        lemma_with_refs_append(
            known,
            cte_refs(m.ctes, scope),
            set_refs(m.body, scope + cte_names(m.ctes)),
        );
    }
}

/// The tables that some statements read, each once, in the order of their first appearance.
pub fn table_names(statements: &Vec<StatementTree>) -> (r: Vec<(String, String)>)
    ensures
        text::pair_views(r@) == table_list(sql::statement_models(statements@)),
{
    let ghost models = sql::statement_models(statements@);
    let names: Vec<String> = Vec::new();
    assert(text::views(names@) =~= Seq::<Seq<char>>::empty());
    let mut r: Vec<(String, String)> = Vec::new();
    let mut i: usize = 0;
    assert(text::pair_views(r@) =~= with_refs(Seq::empty(), statement_list_refs(models.take(0))));
    while i < statements.len()
        invariant
            i <= statements@.len(),
            models == sql::statement_models(statements@),
            text::views(names@) == Seq::<Seq<char>>::empty(),
            text::pair_views(r@) == with_refs(
                Seq::empty(),
                statement_list_refs(models.take(i as int)),
            ),
        decreases statements@.len() - i,
    {
        let ghost next = models.take(i + 1);
        assert(next.drop_last() =~= models.take(i as int));
        assert(next.last() == statements@[i as int]@);
        match &statements[i] {
            StatementTree::Select(q) => {
                walk_query(q, &names, &mut r);
                proof {
                    lemma_with_refs_append(
                        Seq::empty(),
                        statement_list_refs(models.take(i as int)),
                        query_refs(q@, Seq::empty()),
                    );
                }
            },
            StatementTree::Other => {
                assert(statement_list_refs(next) =~= statement_list_refs(models.take(i as int)));
            },
        }
        i += 1;
    }
    assert(models.take(i as int) =~= models);
    r
}

proof fn lemma_with_refs(
    known: Seq<(Seq<char>, Seq<char>)>,
    refs: Seq<(Seq<char>, Seq<char>)>,
)
    requires
        known.no_duplicates(),
    ensures
        with_refs(known, refs).no_duplicates(),
        forall|t: (Seq<char>, Seq<char>)| #[trigger]
            with_refs(known, refs).contains(t) <==> known.contains(t) || refs.contains(t),
    decreases refs.len(),
{
    if refs.len() > 0 {
        let before = with_refs(known, refs.drop_last());
        let after = with_refs(known, refs);
        lemma_with_refs(known, refs.drop_last());
        assert(refs =~= refs.drop_last().push(refs.last()));
        assert forall|t: (Seq<char>, Seq<char>)| #[trigger] after.contains(t) <==> known.contains(t)
            || refs.contains(t) by {
            vstd::seq_lib::lemma_seq_contains_after_push(refs.drop_last(), refs.last(), t);
            vstd::seq_lib::lemma_seq_contains_after_push(before, refs.last(), t);
            assert(before.contains(t) <==> known.contains(t) || refs.drop_last().contains(t));
        }
    }
}

/// Each table that the statements read is listed, and nothing else; none is listed twice.
pub proof fn tables_are_listed_once(statements: Seq<sql::StatementModel>)
    ensures
        table_list(statements).no_duplicates(),
        forall|t: (Seq<char>, Seq<char>)| #[trigger]
            table_list(statements).contains(t) <==> statement_list_refs(statements).contains(t),
{
    lemma_with_refs(Seq::empty(), statement_list_refs(statements));
    assert forall|t: (Seq<char>, Seq<char>)| #[trigger]
        table_list(statements).contains(t) <==> statement_list_refs(statements).contains(t) by {
        assert(with_refs(Seq::empty(), statement_list_refs(statements)).contains(t) <==> Seq::<
            (Seq<char>, Seq<char>),
        >::empty().contains(t) || statement_list_refs(statements).contains(t));
    }
}

/// Whether no table of a list has a given name.
pub open spec fn without_table(refs: Seq<(Seq<char>, Seq<char>)>, name: Seq<char>) -> bool {
    forall|i: int| 0 <= i < refs.len() ==> (#[trigger] refs[i]).1 != name
}

proof fn lemma_without_append(
    a: Seq<(Seq<char>, Seq<char>)>,
    b: Seq<(Seq<char>, Seq<char>)>,
    name: Seq<char>,
)
    requires
        without_table(a, name),
        without_table(b, name),
    ensures
        without_table(a + b, name),
{
    assert forall|i: int| 0 <= i < (a + b).len() implies (#[trigger] (a + b)[i]).1 != name by {
        if i < a.len() {
            assert((a + b)[i] == a[i]);
        } else {
            assert((a + b)[i] == b[i - a.len()]);
        }
    }
}

/// A table is not read where a query of its name is named in front, though it is qualified.
pub proof fn named_query_hides_the_table(
    q: sql::QueryModel,
    names: Seq<Seq<char>>,
    name: Seq<char>,
)
    requires
        names.contains(name),
    ensures
        without_table(query_refs(q, names), name),
    decreases q,
{
    lemma_cte_hides(q.ctes, names, name);
    let all = names + cte_names(q.ctes);
    assert(all.contains(name)) by {
        let k = choose|k: int| 0 <= k < names.len() && names[k] == name;
        assert(all[k] == name);
    }
    lemma_set_hides(q.body, all, name);
    lemma_without_append(cte_refs(q.ctes, names), set_refs(q.body, all), name);
}

proof fn lemma_cte_hides(
    ctes: Seq<(Seq<char>, sql::QueryModel)>,
    names: Seq<Seq<char>>,
    name: Seq<char>,
)
    requires
        names.contains(name),
    ensures
        without_table(cte_refs(ctes, names), name),
    decreases ctes,
{
    if ctes.len() > 0 {
        let all = names + cte_names(ctes);
        assert(all.contains(name)) by {
            let k = choose|k: int| 0 <= k < names.len() && names[k] == name;
            assert(all[k] == name);
        }
        lemma_cte_hides(ctes.drop_last(), names, name);
        named_query_hides_the_table(ctes.last().1, all, name);
        lemma_without_append(
            cte_refs(ctes.drop_last(), names),
            query_refs(ctes.last().1, all),
            name,
        );
    }
}

proof fn lemma_set_hides(s: sql::SetModel, names: Seq<Seq<char>>, name: Seq<char>)
    requires
        names.contains(name),
    ensures
        without_table(set_refs(s, names), name),
    decreases s,
{
    match s {
        sql::SetModel::Select(from, _) => {
            lemma_source_list_hides(from, names, name);
        },
        sql::SetModel::Nested(q) => {
            named_query_hides_the_table(*q, names, name);
        },
        sql::SetModel::Pair(a, b) => {
            lemma_set_hides(*a, names, name);
            lemma_set_hides(*b, names, name);
            lemma_without_append(set_refs(*a, names), set_refs(*b, names), name);
        },
        sql::SetModel::Other => {},
    }
}

proof fn lemma_source_list_hides(
    from: Seq<sql::SourceModel>,
    names: Seq<Seq<char>>,
    name: Seq<char>,
)
    requires
        names.contains(name),
    ensures
        without_table(source_list_refs(from, names), name),
    decreases from,
{
    if from.len() > 0 {
        lemma_source_list_hides(from.drop_last(), names, name);
        lemma_source_hides(from.last(), names, name);
        lemma_without_append(
            source_list_refs(from.drop_last(), names),
            source_refs(from.last(), names),
            name,
        );
    }
}

proof fn lemma_source_hides(s: sql::SourceModel, names: Seq<Seq<char>>, name: Seq<char>)
    requires
        names.contains(name),
    ensures
        without_table(source_refs(s, names), name),
    decreases s,
{
    lemma_factor_hides(s.first, names, name);
    lemma_factor_list_hides(s.joined, names, name);
    lemma_without_append(
        factor_refs(s.first, names),
        factor_list_refs(s.joined, names),
        name,
    );
}

proof fn lemma_factor_list_hides(
    joined: Seq<sql::FactorModel>,
    names: Seq<Seq<char>>,
    name: Seq<char>,
)
    requires
        names.contains(name),
    ensures
        without_table(factor_list_refs(joined, names), name),
    decreases joined,
{
    if joined.len() > 0 {
        lemma_factor_list_hides(joined.drop_last(), names, name);
        lemma_factor_hides(joined.last(), names, name);
        lemma_without_append(
            factor_list_refs(joined.drop_last(), names),
            factor_refs(joined.last(), names),
            name,
        );
    }
}

proof fn lemma_factor_hides(f: sql::FactorModel, names: Seq<Seq<char>>, name: Seq<char>)
    requires
        names.contains(name),
    ensures
        without_table(factor_refs(f, names), name),
    decreases f,
{
    match f {
        sql::FactorModel::Named(_) => {},
        sql::FactorModel::Derived(q) => {
            named_query_hides_the_table(*q, names, name);
        },
        sql::FactorModel::Nested(s) => {
            lemma_source_hides(*s, names, name);
        },
        sql::FactorModel::Other => {},
    }
}

} // verus!
