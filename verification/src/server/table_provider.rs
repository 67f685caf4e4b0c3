//! Which tables the query engine has to be told of.

use crate::text;
use vstd::prelude::*;

verus! {

pub struct TableProvider;

/// The name of a table in a query.
pub open spec fn qualified_name(db: Seq<char>, table: Seq<char>) -> Seq<char> {
    db + "."@ + table
}

/// The tables that are to be registered, out of those found, with some registered before:
/// each name once.
pub open spec fn pending(found: Seq<(Seq<char>, Seq<char>)>, registered: Seq<Seq<char>>) -> Seq<
    (Seq<char>, Seq<char>),
>
    decreases found.len(),
{
    if found.len() == 0 {
        Seq::empty()
    } else {
        let before = pending(found.drop_last(), registered);
        let (db, table) = found.last();
        if known(registered, before, qualified_name(db, table)) {
            before
        } else {
            before.push((db, table))
        }
    }
}

/// Whether a name is registered, or is one of those to be registered.
pub open spec fn known(
    registered: Seq<Seq<char>>,
    tables: Seq<(Seq<char>, Seq<char>)>,
    name: Seq<char>,
) -> bool {
    ||| registered.contains(name)
    ||| exists|i: int|
        0 <= i < tables.len() && qualified_name(
            (#[trigger] tables[i]).0,
            tables[i].1,
        ) == name
}

impl TableProvider {
    /// The name of a table in a query.
    pub fn qualified(db: &str, table: &str) -> (r: String)
        ensures
            r@ == qualified_name(db@, table@),
    {
        text::join3(db, ".", table)
    }

    /// The tables that are to be registered, out of the directories found.
    pub fn register_all(found: &Vec<(String, String)>, registered: &Vec<String>) -> (r: Vec<
        (String, String),
    >)
        ensures
            text::pair_views(r@) == pending(
                text::pair_views(found@),
                text::views(registered@),
            ),
    {
        let ghost all = text::pair_views(found@);
        let ghost names = text::views(registered@);
        let mut r: Vec<(String, String)> = Vec::new();
        let mut i: usize = 0;
        assert(text::pair_views(r@) =~= pending(all.take(0), names));
        while i < found.len()
            invariant
                i <= found@.len(),
                all == text::pair_views(found@),
                names == text::views(registered@),
                text::pair_views(r@) == pending(all.take(i as int), names),
            decreases found@.len() - i,
        {
            assert(all.take(i + 1).drop_last() =~= all.take(i as int));
            assert(all.take(i + 1).last() == (found@[i as int].0@, found@[i as int].1@));
            let name = Self::qualified(found[i].0.as_str(), found[i].1.as_str());
            if !Self::is_known(registered, &r, name.as_str()) {
                let ghost was = r@;
                r.push((found[i].0.clone(), found[i].1.clone()));
                assert(text::pair_views(r@) =~= text::pair_views(was).push(
                    (found@[i as int].0@, found@[i as int].1@),
                ));
            }
            i += 1;
        }
        assert(all.take(i as int) =~= all);
        r
    }

    fn is_known(registered: &Vec<String>, tables: &Vec<(String, String)>, name: &str) -> (r: bool)
        ensures
            r == known(text::views(registered@), text::pair_views(tables@), name@),
    {
        let ghost names = text::views(registered@);
        let ghost pairs = text::pair_views(tables@);
        match text::position_of(registered, name) {
            Some(i) => {
                assert(names[i as int] == name@);
                return true;
            },
            None => {
                assert(!names.contains(name@)) by {
                    if names.contains(name@) {
                        let k = choose|k: int| 0 <= k < names.len() && names[k] == name@;
                        assert(registered@[k]@ == name@);
                    }
                }
            },
        }
        let mut i: usize = 0;
        while i < tables.len()
            invariant
                i <= tables@.len(),
                pairs == text::pair_views(tables@),
                forall|k: int|
                    0 <= k < i ==> qualified_name((#[trigger] pairs[k]).0, pairs[k].1) != name@,
            decreases tables@.len() - i,
        {
            assert(pairs[i as int] == (tables@[i as int].0@, tables@[i as int].1@));
            let q = Self::qualified(tables[i].0.as_str(), tables[i].1.as_str());
            if text::same(q.as_str(), name) {
                return true;
            }
            i += 1;
        }
        false
    }

    /// Whether the table of a new file is to be registered.
    pub fn add_file(db: &str, table: &str, registered: &Vec<String>) -> (r: bool)
        ensures
            r == !text::views(registered@).contains(qualified_name(db@, table@)),
    {
        let name = Self::qualified(db, table);
        let ghost names = text::views(registered@);
        match text::position_of(registered, name.as_str()) {
            Some(i) => {
                assert(names[i as int] == name@);
                false
            },
            None => {
                assert(!names.contains(name@)) by {
                    if names.contains(name@) {
                        let k = choose|k: int| 0 <= k < names.len() && names[k] == name@;
                        assert(registered@[k]@ == name@);
                    }
                }
                true
            },
        }
    }
}

/// What to do so that something can stand for a name: remove what stands for it, and make
/// its database known.
#[derive(Debug)]
pub struct SwapPlan {
    pub remove: bool,
    pub new_database: Option<String>,
}

/// The position of the first dot of a name; its length where it has none.
pub open spec fn dot_position(name: Seq<char>) -> int
    decreases name.len(),
{
    if name.len() == 0 || name[0] == '.' {
        0
    } else {
        1 + dot_position(name.drop_first())
    }
}

/// The database of a name: what stands in front of its first dot.
fn database_of(name: &str) -> (r: Option<String>)
    ensures
        r is Some == (dot_position(name@) < name@.len()),
        r is Some ==> r->0@ == name@.take(dot_position(name@)),
{
    let x = text::chars_of(name);
    let mut i: usize = 0;
    assert(x@.skip(0) =~= x@);
    while i < x.len() && x[i] != '.'
        invariant
            i <= x@.len(),
            dot_position(x@) == i + dot_position(x@.skip(i as int)),
        decreases x@.len() - i,
    {
        assert(x@.skip(i as int).drop_first() =~= x@.skip(i + 1));
        i += 1;
    }
    if i == x.len() {
        return None;
    }
    let r = text::text_of(&x, 0, i);
    assert(r@ =~= x@.take(i as int));
    Some(r)
}

impl TableProvider {
    /// What to do so that something can stand for a name. A name without a database is
    /// refused.
    pub fn plan_swap(name: &str, stands: bool, databases: &Vec<String>) -> (r: Result<
        SwapPlan,
        String,
    >)
        ensures
            if dot_position(name@) < name@.len() {
                let db = name@.take(dot_position(name@));
                &&& r is Ok
                &&& r->Ok_0.remove == stands
                &&& r->Ok_0.new_database is Some == !text::views(databases@).contains(db)
                &&& r->Ok_0.new_database is Some ==> r->Ok_0.new_database->0@ == db
            } else {
                r is Err && r->Err_0@ == "unqualified table name: "@ + name@
            },
    {
        let db = match database_of(name) {
            Some(db) => db,
            None => {
                return Err(text::join2("unqualified table name: ", name));
            },
        };
        let ghost names = text::views(databases@);
        match text::position_of(databases, db.as_str()) {
            Some(i) => {
                assert(names[i as int] == db@);
                Ok(SwapPlan { remove: stands, new_database: None })
            },
            None => {
                assert(!names.contains(db@)) by {
                    if names.contains(db@) {
                        let k = choose|k: int| 0 <= k < names.len() && names[k] == db@;
                        assert(databases@[k]@ == db@);
                    }
                }
                Ok(SwapPlan { remove: stands, new_database: Some(db) })
            },
        }
    }

    /// The address of the directory of a table, as a prefix of the addresses of its files.
    pub fn directory_url(dir: &str) -> (r: String)
        ensures
            r@ == "file://"@ + dir@ + "/"@,
    {
        text::join3("file://", dir, "/")
    }
}

/// The names of some tables.
pub open spec fn qualified_names(tables: Seq<(Seq<char>, Seq<char>)>) -> Seq<Seq<char>> {
    tables.map_values(|t: (Seq<char>, Seq<char>)| qualified_name(t.0, t.1))
}

proof fn lemma_all_known(
    found: Seq<(Seq<char>, Seq<char>)>,
    registered: Seq<Seq<char>>,
    k: int,
)
    requires
        0 <= k < found.len(),
    ensures
        known(registered, pending(found, registered), qualified_name(found[k].0, found[k].1)),
    decreases found.len(),
{
    let name = qualified_name(found[k].0, found[k].1);
    let before = pending(found.drop_last(), registered);
    let after = pending(found, registered);
    if k < found.len() - 1 {
        assert(found.drop_last()[k] == found[k]);
        lemma_all_known(found.drop_last(), registered, k);
        if !registered.contains(name) {
            let i = choose|i: int|
                0 <= i < before.len() && qualified_name((#[trigger] before[i]).0, before[i].1)
                    == name;
            assert(after[i] == before[i]);
        }
    } else if !known(registered, before, name) {
        assert(after[before.len() as int] == found[k]);
    }
}

proof fn lemma_nothing_pending(found: Seq<(Seq<char>, Seq<char>)>, registered: Seq<Seq<char>>)
    requires
        forall|i: int|
            0 <= i < found.len() ==> registered.contains(
                qualified_name((#[trigger] found[i]).0, found[i].1),
            ),
    ensures
        pending(found, registered).len() == 0,
    decreases found.len(),
{
    if found.len() > 0 {
        assert forall|i: int| 0 <= i < found.drop_last().len() implies registered.contains(
            qualified_name((#[trigger] found.drop_last()[i]).0, found.drop_last()[i].1),
        ) by {
            assert(found.drop_last()[i] == found[i]);
        }
        lemma_nothing_pending(found.drop_last(), registered);
        assert(registered.contains(qualified_name(found[found.len() - 1].0, found.last().1)));
    }
}

/// Registering a second time registers nothing: what was to be registered is registered
/// then.
pub proof fn registering_again_registers_nothing(
    found: Seq<(Seq<char>, Seq<char>)>,
    registered: Seq<Seq<char>>,
)
    ensures
        pending(
            found,
            registered + qualified_names(pending(found, registered)),
        ).len() == 0,
{
    let tables = pending(found, registered);
    let after = registered + qualified_names(tables);
    assert forall|k: int| 0 <= k < found.len() implies after.contains(
        qualified_name((#[trigger] found[k]).0, found[k].1),
    ) by {
        let name = qualified_name(found[k].0, found[k].1);
        lemma_all_known(found, registered, k);
        if registered.contains(name) {
            let i = choose|i: int| 0 <= i < registered.len() && registered[i] == name;
            assert(after[i] == name);
        } else {
            let i = choose|i: int|
                0 <= i < tables.len() && qualified_name((#[trigger] tables[i]).0, tables[i].1)
                    == name;
            assert(after[registered.len() + i] == name);
        }
    }
    lemma_nothing_pending(found, after);
}

} // verus!
