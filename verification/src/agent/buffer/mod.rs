//! The buffer of an agent: databases of tables, in the order in which they first appeared.

use crate::agent::buffer::chunk::Table;
use crate::text;
use vstd::prelude::*;

pub mod chunk;

verus! {

#[derive(Debug)]
pub struct Database {
    pub name: String,
    pub tables: Vec<Table>,
}

#[derive(Debug)]
pub struct Buffer {
    pub databases: Vec<Database>,
}

#[verifier::ext_equal]
pub struct DatabaseModel {
    pub name: Seq<char>,
    pub tables: Seq<(Seq<char>, chunk::TableModel)>,
}

pub open spec fn table_entry(t: Table) -> (Seq<char>, chunk::TableModel) {
    (t.name@, t@)
}

impl View for Database {
    type V = DatabaseModel;

    open spec fn view(&self) -> DatabaseModel {
        DatabaseModel {
            name: self.name@,
            tables: self.tables@.map_values(|t: Table| table_entry(t)),
        }
    }
}

impl View for Buffer {
    type V = Seq<DatabaseModel>;

    open spec fn view(&self) -> Seq<DatabaseModel> {
        self.databases@.map_values(|d: Database| d@)
    }
}

/// The position of the first database of a given name, or the number of databases.
pub open spec fn db_position(dbs: Seq<DatabaseModel>, name: Seq<char>) -> int
    decreases dbs.len(),
{
    if dbs.len() == 0 || dbs[0].name == name {
        0
    } else {
        1 + db_position(dbs.drop_first(), name)
    }
}

/// The position of the first table of a given name, or the number of tables.
pub open spec fn table_position(
    tables: Seq<(Seq<char>, chunk::TableModel)>,
    name: Seq<char>,
) -> int
    decreases tables.len(),
{
    if tables.len() == 0 || tables[0].0 == name {
        0
    } else {
        1 + table_position(tables.drop_first(), name)
    }
}

/// Whether no table of a database stands twice.
pub open spec fn tables_once(tables: Seq<(Seq<char>, chunk::TableModel)>) -> bool {
    forall|i: int, j: int|
        #![trigger tables[i], tables[j]]
        0 <= i < j < tables.len() ==> tables[i].0 != tables[j].0
}

/// Whether no database stands twice, and no table of one.
pub open spec fn names_once(dbs: Seq<DatabaseModel>) -> bool {
    &&& forall|i: int, j: int|
        #![trigger dbs[i], dbs[j]]
        0 <= i < j < dbs.len() ==> dbs[i].name != dbs[j].name
    &&& forall|i: int| 0 <= i < dbs.len() ==> tables_once((#[trigger] dbs[i]).tables)
}

/// Whether no table has two chunks of one time.
pub open spec fn chunk_times_once(dbs: Seq<DatabaseModel>) -> bool {
    forall|i: int, j: int|
        0 <= i < dbs.len() && 0 <= j < dbs[i].tables.len() ==> chunk::times_once(
            (#[trigger] dbs[i].tables[j]).1.chunks,
        )
}

/// The table of a database, where there is one.
pub open spec fn table_of(
    dbs: Seq<DatabaseModel>,
    db: Seq<char>,
    table: Seq<char>,
) -> Option<chunk::TableModel> {
    let i = db_position(dbs, db);
    if i < dbs.len() {
        let j = table_position(dbs[i].tables, table);
        if j < dbs[i].tables.len() {
            Some(dbs[i].tables[j].1)
        } else {
            None
        }
    } else {
        None
    }
}

/// The databases with `value` for a table: in its place, or at the end where it is new.
pub open spec fn with_table(
    dbs: Seq<DatabaseModel>,
    db: Seq<char>,
    table: Seq<char>,
    value: chunk::TableModel,
) -> Seq<DatabaseModel> {
    let i = db_position(dbs, db);
    if i < dbs.len() {
        let tables = dbs[i].tables;
        let j = table_position(tables, table);
        let changed = if j < tables.len() {
            tables.update(j, (table, value))
        } else {
            tables.push((table, value))
        };
        dbs.update(i, DatabaseModel { tables: changed, ..dbs[i] })
    } else {
        dbs.push(DatabaseModel { name: db, tables: seq![(table, value)] })
    }
}

pub proof fn lemma_db_position(dbs: Seq<DatabaseModel>, name: Seq<char>)
    ensures
        0 <= db_position(dbs, name) <= dbs.len(),
        forall|i: int| 0 <= i < db_position(dbs, name) ==> (#[trigger] dbs[i]).name != name,
        db_position(dbs, name) < dbs.len() ==> dbs[db_position(dbs, name)].name == name,
    decreases dbs.len(),
{
    if dbs.len() > 0 && dbs[0].name != name {
        let rest = dbs.drop_first();
        lemma_db_position(rest, name);
        assert forall|i: int| 0 <= i < db_position(dbs, name) implies (#[trigger] dbs[i]).name
            != name by {
            if i > 0 {
                assert(rest[i - 1] == dbs[i]);
            }
        }
    }
}

pub proof fn lemma_table_position(tables: Seq<(Seq<char>, chunk::TableModel)>, name: Seq<char>)
    ensures
        0 <= table_position(tables, name) <= tables.len(),
        forall|i: int| 0 <= i < table_position(tables, name) ==> (#[trigger] tables[i]).0 != name,
        table_position(tables, name) < tables.len() ==> tables[table_position(tables, name)].0
            == name,
    decreases tables.len(),
{
    if tables.len() > 0 && tables[0].0 != name {
        let rest = tables.drop_first();
        lemma_table_position(rest, name);
        assert forall|i: int| 0 <= i < table_position(tables, name) implies (
        #[trigger] tables[i]).0 != name by {
            if i > 0 {
                assert(rest[i - 1] == tables[i]);
            }
        }
    }
}

/// What a buffer holds for a table after the table was put, and for every other table.
pub proof fn put_then_get(
    dbs: Seq<DatabaseModel>,
    db: Seq<char>,
    table: Seq<char>,
    value: chunk::TableModel,
    other_db: Seq<char>,
    other_table: Seq<char>,
)
    ensures
        table_of(with_table(dbs, db, table, value), db, table) == Some(value),
        other_db != db || other_table != table ==> table_of(
            with_table(dbs, db, table, value),
            other_db,
            other_table,
        ) == table_of(dbs, other_db, other_table),
{
    let after = with_table(dbs, db, table, value);
    lemma_db_position(dbs, db);
    lemma_db_position(dbs, other_db);
    lemma_db_position(after, db);
    lemma_db_position(after, other_db);
    let i = db_position(dbs, db);
    if i < dbs.len() {
        lemma_table_position(dbs[i].tables, table);
        lemma_table_position(dbs[i].tables, other_table);
        lemma_table_position(after[i].tables, table);
        lemma_table_position(after[i].tables, other_table);
        assert forall|k: int| 0 <= k < dbs.len() implies (#[trigger] after[k]).name
            == dbs[k].name by {}
        lemma_same_db_position(dbs, after, db);
        lemma_same_db_position(dbs, after, other_db);
        let j = table_position(dbs[i].tables, table);
        lemma_put_table_position(dbs[i].tables, table, value, table);
        lemma_put_table_position(dbs[i].tables, table, value, other_table);
    } else {
        lemma_push_db_position(dbs, after.last(), db);
        lemma_push_db_position(dbs, after.last(), other_db);
        assert(after.last().tables =~= seq![(table, value)]);
        lemma_table_position(after.last().tables, table);
        lemma_table_position(after.last().tables, other_table);
    }
}

/// A table that a lookup finds stands in its database.
pub proof fn lemma_table_is_listed(dbs: Seq<DatabaseModel>, db: Seq<char>, table: Seq<char>)
    ensures
        table_of(dbs, db, table) matches Some(t) ==> exists|i: int, j: int|
            0 <= i < dbs.len() && 0 <= j < dbs[i].tables.len() && (#[trigger] dbs[i].tables[j]).1
                == t,
{
    let i = db_position(dbs, db);
    lemma_db_position(dbs, db);
    if i < dbs.len() {
        let j = table_position(dbs[i].tables, table);
        lemma_table_position(dbs[i].tables, table);
        if j < dbs[i].tables.len() {
            assert(dbs[i].tables[j].1 == table_of(dbs, db, table)->0);
        }
    }
}

/// Putting a table lets no database and no table of one stand twice.
pub proof fn putting_keeps_names_once(
    dbs: Seq<DatabaseModel>,
    db: Seq<char>,
    table: Seq<char>,
    value: chunk::TableModel,
)
    requires
        names_once(dbs),
    ensures
        names_once(with_table(dbs, db, table, value)),
{
    let after = with_table(dbs, db, table, value);
    let k = db_position(dbs, db);
    lemma_db_position(dbs, db);
    assert forall|i: int, j: int|
        #![trigger after[i], after[j]]
        0 <= i < j < after.len() implies after[i].name != after[j].name by {
        if j < dbs.len() {
            assert(after[i].name == dbs[i].name && after[j].name == dbs[j].name);
        } else {
            assert(after[i] == dbs[i]);
        }
    }
    assert forall|i: int| 0 <= i < after.len() implies tables_once((#[trigger] after[i]).tables) by {
        if i == k && k < dbs.len() {
            let tables = dbs[k].tables;
            let changed = after[k].tables;
            lemma_table_position(tables, table);
            assert(tables_once(tables));
            assert forall|a: int, b: int|
                #![trigger changed[a], changed[b]]
                0 <= a < b < changed.len() implies changed[a].0 != changed[b].0 by {
                if b < tables.len() {
                    assert(changed[a].0 == tables[a].0 && changed[b].0 == tables[b].0);
                } else {
                    assert(changed[a] == tables[a]);
                }
            }
        } else if i < dbs.len() {
            assert(after[i] == dbs[i]);
        }
    }
}

/// Putting a table that has no two chunks of one time leaves no table with two.
pub proof fn putting_keeps_chunk_times_once(
    dbs: Seq<DatabaseModel>,
    db: Seq<char>,
    table: Seq<char>,
    value: chunk::TableModel,
)
    requires
        chunk_times_once(dbs),
        chunk::times_once(value.chunks),
    ensures
        chunk_times_once(with_table(dbs, db, table, value)),
{
    let after = with_table(dbs, db, table, value);
    let k = db_position(dbs, db);
    lemma_db_position(dbs, db);
    assert forall|i: int, j: int|
        0 <= i < after.len() && 0 <= j < after[i].tables.len() implies chunk::times_once(
        (#[trigger] after[i].tables[j]).1.chunks,
    ) by {
        if i < dbs.len() {
            if i == k {
                lemma_table_position(dbs[k].tables, table);
                let p = table_position(dbs[k].tables, table);
                if j != p {
                    assert(after[i].tables[j] == dbs[i].tables[j]);
                }
            } else {
                assert(after[i].tables[j] == dbs[i].tables[j]);
            }
        }
    }
}

proof fn lemma_same_db_position(a: Seq<DatabaseModel>, b: Seq<DatabaseModel>, name: Seq<char>)
    requires
        a.len() == b.len(),
        forall|k: int| 0 <= k < a.len() ==> (#[trigger] b[k]).name == a[k].name,
    ensures
        db_position(a, name) == db_position(b, name),
{
    lemma_db_position(a, name);
    lemma_db_position(b, name);
    let i = db_position(a, name);
    let j = db_position(b, name);
    if i < j {
        assert(b[i].name == a[i].name);
    }
    if j < i {
        assert(b[j].name == a[j].name);
    }
}

proof fn lemma_push_db_position(a: Seq<DatabaseModel>, d: DatabaseModel, name: Seq<char>)
    ensures
        db_position(a.push(d), name) == (if db_position(a, name) < a.len() || d.name == name {
            db_position(a, name)
        } else {
            a.len() as int + 1
        }),
{
    let b = a.push(d);
    lemma_db_position(a, name);
    lemma_db_position(b, name);
    let i = db_position(a, name);
    let j = db_position(b, name);
    if i < j && i < a.len() {
        assert(b[i] == a[i]);
    }
    if j < i {
        assert(b[j] == a[j]);
    }
    if i == a.len() && j > i {
        assert(b[i] == d);
    }
}

proof fn lemma_put_table_position(
    tables: Seq<(Seq<char>, chunk::TableModel)>,
    table: Seq<char>,
    value: chunk::TableModel,
    name: Seq<char>,
)
    ensures
        ({
            let j = table_position(tables, table);
            let changed = if j < tables.len() {
                tables.update(j, (table, value))
            } else {
                tables.push((table, value))
            };
            let k = table_position(changed, name);
            if name == table {
                k < changed.len() && changed[k].1 == value
            } else if table_position(tables, name) < tables.len() {
                k < changed.len() && changed[k] == tables[table_position(tables, name)]
            } else {
                k == changed.len()
            }
        }),
{
    let j = table_position(tables, table);
    let changed = if j < tables.len() {
        tables.update(j, (table, value))
    } else {
        tables.push((table, value))
    };
    lemma_table_position(tables, table);
    lemma_table_position(tables, name);
    lemma_table_position(changed, name);
    let p = table_position(tables, name);
    let k = table_position(changed, name);
    assert(forall|n: int| 0 <= n < tables.len() ==> (#[trigger] changed[n]).0 == tables[n].0);
    if name == table {
        assert(changed[j].0 == table);
        if k < j {
            assert(changed[k].0 == tables[k].0);
        }
    } else {
        if k < p && k < tables.len() {
            assert(changed[k].0 == tables[k].0);
        }
        if p < tables.len() && p < k {
            assert(changed[p].0 == tables[p].0);
        }
        if k < changed.len() && k >= tables.len() {
            assert(changed[k].0 == table);
        }
    }
}

impl Database {
    pub open spec fn wf(&self) -> bool {
        forall|j: int| 0 <= j < self.tables@.len() ==> (#[trigger] self.tables@[j]).wf()
    }

    /// The position of the table `name`, or the number of tables.
    fn position(&self, name: &str) -> (r: usize)
        ensures
            r == table_position(self@.tables, name@),
            r <= self.tables@.len(),
    {
        proof {
            lemma_table_position(self@.tables, name@);
        }
        let mut j: usize = 0;
        while j < self.tables.len()
            invariant
                j <= self.tables@.len(),
                forall|k: int| 0 <= k < j ==> (#[trigger] self@.tables[k]).0 != name@,
                j <= table_position(self@.tables, name@) <= self@.tables.len(),
                forall|k: int|
                    0 <= k < table_position(self@.tables, name@) ==> (#[trigger] self@.tables[k]).0
                        != name@,
                table_position(self@.tables, name@) < self@.tables.len() ==> self@.tables[table_position(
                self@.tables, name@)].0 == name@,
            decreases self.tables@.len() - j,
        {
            assert(self@.tables[j as int].0 == self.tables@[j as int].name@);
            if text::same(self.tables[j].name.as_str(), name) {
                return j;
            }
            j += 1;
        }
        j
    }
}

impl Buffer {
    /// Every chunk of every table has a well-formed index.
    pub open spec fn wf(&self) -> bool {
        forall|i: int| 0 <= i < self.databases@.len() ==> (#[trigger] self.databases@[i]).wf()
    }

    pub fn new() -> (r: Buffer)
        ensures
            r@ == Seq::<DatabaseModel>::empty(),
            r.wf(),
    {
        let r = Buffer { databases: Vec::new() };
        assert(r@ =~= Seq::<DatabaseModel>::empty());
        r
    }

    /// The position of the database `name`, or the number of databases.
    fn position(&self, name: &str) -> (r: usize)
        ensures
            r == db_position(self@, name@),
            r <= self.databases@.len(),
    {
        proof {
            lemma_db_position(self@, name@);
        }
        let mut i: usize = 0;
        while i < self.databases.len()
            invariant
                i <= self.databases@.len(),
                i <= db_position(self@, name@) <= self@.len(),
                forall|k: int| 0 <= k < db_position(self@, name@) ==> (#[trigger] self@[k]).name != name@,
                db_position(self@, name@) < self@.len() ==> self@[db_position(self@, name@)].name
                    == name@,
            decreases self.databases@.len() - i,
        {
            assert(self@[i as int].name == self.databases@[i as int].name@);
            if text::same(self.databases[i].name.as_str(), name) {
                return i;
            }
            i += 1;
        }
        i
    }

    pub fn get_table(&self, db: &str, table: &str) -> (r: Option<&Table>)
        ensures
            r is Some == table_of(self@, db@, table@) is Some,
            r is Some ==> r->0@ == table_of(self@, db@, table@)->0 && r->0.name@ == table@,
            r is Some && self.wf() ==> r->0.wf(),
    {
        proof {
            lemma_db_position(self@, db@);
        }
        let i = self.position(db);
        if i < self.databases.len() {
            let d = &self.databases[i];
            assert(self@[i as int] == d@);
            proof {
                lemma_table_position(d@.tables, table@);
            }
            let j = d.position(table);
            if j < d.tables.len() {
                assert(d@.tables[j as int] == table_entry(d.tables@[j as int]));
                return Some(&d.tables[j]);
            }
        }
        None
    }

    pub fn get_table_mut(&mut self, db: &str, table: &str) -> (r: Option<&mut Table>)
        ensures
            r is Some == table_of(old(self)@, db@, table@) is Some,
            r is None ==> *final(self) == *old(self),
            r is Some ==> r->0@ == table_of(old(self)@, db@, table@)->0 && r->0.name@ == table@,
            r is Some && old(self).wf() ==> r->0.wf(),
            r is Some && final(r->0).name@ == table@ ==> final(self)@ =~~= with_table(
                old(self)@,
                db@,
                table@,
                final(r->0)@,
            ),
            r is Some && old(self).wf() && final(r->0).wf() ==> final(self).wf(),
    {
        proof {
            lemma_db_position(self@, db@);
        }
        let i = self.position(db);
        if i < self.databases.len() {
            assert(self@[i as int] == self.databases@[i as int]@);
            proof {
                lemma_table_position(self@[i as int].tables, table@);
            }
            let j = self.databases[i].position(table);
            if j < self.databases[i].tables.len() {
                assert(self@[i as int].tables[j as int] == table_entry(
                    self.databases@[i as int].tables@[j as int],
                ));
                return Some(&mut self.databases[i].tables[j]);
            }
        }
        None
    }

    /// The table `table` of the database `db`, made where there is none.
    pub fn get_or_create_table(&mut self, db: &str, table: &str) -> (r: &mut Table)
        ensures
            r@ == (match table_of(old(self)@, db@, table@) {
                Some(t) => t,
                None => chunk::new_table(),
            }),
            r.name@ == table@,
            old(self).wf() ==> r.wf(),
            final(r).name@ == table@ ==> final(self)@ =~~= with_table(
                old(self)@,
                db@,
                table@,
                final(r)@,
            ),
            old(self).wf() && final(r).wf() ==> final(self).wf(),
    {
        proof {
            lemma_db_position(self@, db@);
        }
        let ghost before = self@;
        let i = self.position(db);
        if i == self.databases.len() {
            self.databases.push(Database { name: db.to_owned(), tables: Vec::new() });
        }
        assert(i < before.len() ==> self.databases@[i as int]@ == before[i as int]);
        let ghost middle = self.databases@[i as int];
        proof {
            lemma_table_position(middle@.tables, table@);
        }
        let j = self.databases[i].position(table);
        if j == self.databases[i].tables.len() {
            self.databases[i].tables.push(Table::new(table));
        }
        assert(j < middle@.tables.len() ==> self.databases@[i as int].tables@[j as int]
            == middle.tables@[j as int]);
        assert(j < middle@.tables.len() ==> middle@.tables[j as int] == table_entry(
            middle.tables@[j as int],
        ));
        &mut self.databases[i].tables[j]
    }

    /// The estimated bytes of all rows.
    pub fn total_estimated_size(&self) -> (r: usize)
        ensures
            r == chunk::capped(dbs_size(self@)),
    {
        let mut total: usize = 0;
        let mut i: usize = 0;
        while i < self.databases.len()
            invariant
                i <= self.databases@.len(),
                total == chunk::capped(dbs_size(self@.take(i as int))),
            decreases self.databases@.len() - i,
        {
            let d = &self.databases[i];
            let mut j: usize = 0;
            assert(d@.tables.take(0) =~= Seq::<(Seq<char>, chunk::TableModel)>::empty());
            while j < d.tables.len()
                invariant
                    i < self.databases@.len(),
                    *d == self.databases@[i as int],
                    j <= d.tables@.len(),
                    total == chunk::capped(
                        dbs_size(self@.take(i as int)) + tables_size(d@.tables.take(j as int)),
                    ),
                decreases d.tables@.len() - j,
            {
                let size = d.tables[j].estimated_size();
                assert(d@.tables.take(j + 1).drop_last() =~= d@.tables.take(j as int));
                total = total.saturating_add(size);
                j += 1;
            }
            assert(d@.tables.take(j as int) =~= d@.tables);
            assert(self@.take(i + 1).drop_last() =~= self@.take(i as int));
            i += 1;
        }
        assert(self@.take(i as int) =~= self@);
        total
    }
}

pub open spec fn tables_size(tables: Seq<(Seq<char>, chunk::TableModel)>) -> nat
    decreases tables.len(),
{
    if tables.len() == 0 {
        0
    } else {
        tables_size(tables.drop_last()) + chunk::chunks_size(tables.last().1.chunks)
    }
}

/// The estimated bytes of all rows of the databases.
pub open spec fn dbs_size(dbs: Seq<DatabaseModel>) -> nat
    decreases dbs.len(),
{
    if dbs.len() == 0 {
        0
    } else {
        dbs_size(dbs.drop_last()) + tables_size(dbs.last().tables)
    }
}

} // verus!
