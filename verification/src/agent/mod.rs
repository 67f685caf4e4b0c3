//! The agent: what it reports to the server, and what it makes of the answers.

use crate::agent::buffer::chunk::{FieldDef, TableSchema};
use crate::agent::buffer::Buffer;
use crate::config::Config;
use crate::text;
use vstd::prelude::*;

pub mod acceptance;
pub mod accounts;
pub mod buffer;
pub mod federation_query;
pub mod flush;
pub mod hot_config;
pub mod model;
pub mod points;
pub mod readings;
pub mod recovery;
pub mod service;
pub mod status;
pub mod system;
pub mod wal;
pub mod write;

verus! {

/// The schema of a table, as a heartbeat reports it.
#[derive(Debug)]
pub struct SchemaChange {
    pub db: String,
    pub table: String,
    pub tag_keys: Vec<String>,
    /// Name and type of each field.
    pub field_defs: Vec<(String, String)>,
}

#[verifier::ext_equal]
pub struct Reported {
    pub tag_keys: Seq<Seq<char>>,
    pub field_defs: Seq<(Seq<char>, Seq<char>)>,
}

#[verifier::ext_equal]
pub struct ChangeModel {
    pub db: Seq<char>,
    pub table: Seq<char>,
    pub schema: Reported,
}

impl View for SchemaChange {
    type V = ChangeModel;

    open spec fn view(&self) -> ChangeModel {
        ChangeModel {
            db: self.db@,
            table: self.table@,
            schema: Reported {
                tag_keys: text::views(self.tag_keys@),
                field_defs: text::pair_views(self.field_defs@),
            },
        }
    }
}

/// What was reported last of one table.
#[derive(Debug)]
pub struct ReportedSchema {
    pub db: String,
    pub table: String,
    pub tag_keys: Vec<String>,
    pub field_defs: Vec<(String, String)>,
}

pub open spec fn entry_key(e: ReportedSchema) -> (Seq<char>, Seq<char>) {
    (e.db@, e.table@)
}

pub open spec fn reported_of(e: ReportedSchema) -> Reported {
    Reported {
        tag_keys: text::views(e.tag_keys@),
        field_defs: text::pair_views(e.field_defs@),
    }
}

/// What was reported last of every table.
#[derive(Debug)]
pub struct SchemaState {
    pub entries: Vec<ReportedSchema>,
}

pub open spec fn state_map(entries: Seq<ReportedSchema>) -> Map<(Seq<char>, Seq<char>), Reported>
    decreases entries.len(),
{
    if entries.len() == 0 {
        Map::empty()
    } else {
        state_map(entries.drop_last()).insert(
            entry_key(entries.last()),
            reported_of(entries.last()),
        )
    }
}

impl SchemaState {
    /// No key stands twice.
    pub open spec fn wf(&self) -> bool {
        forall|i: int, j: int|
            #![trigger self.entries@[i], self.entries@[j]]
            0 <= i < j < self.entries@.len() ==> entry_key(self.entries@[i]) != entry_key(
                self.entries@[j],
            )
    }
}

impl View for SchemaState {
    type V = Map<(Seq<char>, Seq<char>), Reported>;

    open spec fn view(&self) -> Map<(Seq<char>, Seq<char>), Reported> {
        state_map(self.entries@)
    }
}

/// A table of the buffer with its schema as it is reported.
#[verifier::ext_equal]
pub struct TableReport {
    pub db: Seq<char>,
    pub table: Seq<char>,
    pub schema: Reported,
}

/// The schema of a table as it is reported.
pub open spec fn report_of(s: buffer::chunk::SchemaModel) -> Reported {
    Reported {
        tag_keys: s.tag_keys,
        field_defs: s.fields.map_values(
            |f: (Seq<char>, buffer::chunk::FieldType)| (f.0, f.1.spec_name()),
        ),
    }
}

pub open spec fn db_reports(
    db: Seq<char>,
    tables: Seq<(Seq<char>, buffer::chunk::TableModel)>,
) -> Seq<TableReport> {
    tables.map_values(
        |t: (Seq<char>, buffer::chunk::TableModel)|
            TableReport { db, table: t.0, schema: report_of(t.1.schema) },
    )
}

/// The tables of the buffer, one after the other.
pub open spec fn all_reports(dbs: Seq<buffer::DatabaseModel>) -> Seq<TableReport>
    decreases dbs.len(),
{
    if dbs.len() == 0 {
        Seq::empty()
    } else {
        all_reports(dbs.drop_last()) + db_reports(dbs.last().name, dbs.last().tables)
    }
}

pub open spec fn report_key(t: TableReport) -> (Seq<char>, Seq<char>) {
    (t.db, t.table)
}

/// The report of a table.
pub open spec fn change_of(t: TableReport) -> ChangeModel {
    ChangeModel { db: t.db, table: t.table, schema: t.schema }
}

/// Whether a table is to be reported: nothing or something else was reported of it.
pub open spec fn is_news(state: Map<(Seq<char>, Seq<char>), Reported>, t: TableReport) -> bool {
    !state.contains_key(report_key(t)) || state[report_key(t)] != t.schema
}

/// What was reported last, after the tables were looked at in turn.
pub open spec fn state_after(
    state: Map<(Seq<char>, Seq<char>), Reported>,
    tables: Seq<TableReport>,
) -> Map<(Seq<char>, Seq<char>), Reported>
    decreases tables.len(),
{
    if tables.len() == 0 {
        state
    } else {
        let before = state_after(state, tables.drop_last());
        if is_news(before, tables.last()) {
            before.insert(report_key(tables.last()), tables.last().schema)
        } else {
            before
        }
    }
}

/// The tables that are reported, when the tables are looked at in turn.
pub open spec fn changes_in(
    state: Map<(Seq<char>, Seq<char>), Reported>,
    tables: Seq<TableReport>,
) -> Seq<ChangeModel>
    decreases tables.len(),
{
    if tables.len() == 0 {
        Seq::empty()
    } else {
        let last = tables.last();
        let before = changes_in(state, tables.drop_last());
        if is_news(state_after(state, tables.drop_last()), last) {
            before.push(change_of(last))
        } else {
            before
        }
    }
}

proof fn lemma_state_has(entries: Seq<ReportedSchema>, i: int)
    requires
        0 <= i < entries.len(),
        forall|a: int, b: int|
            #![trigger entries[a], entries[b]]
            0 <= a < b < entries.len() ==> entry_key(entries[a]) != entry_key(entries[b]),
    ensures
        state_map(entries).contains_key(entry_key(entries[i])),
        state_map(entries)[entry_key(entries[i])] == reported_of(entries[i]),
    decreases entries.len(),
{
    if i < entries.len() - 1 {
        assert(entries.drop_last()[i] == entries[i]);
        lemma_state_has(entries.drop_last(), i);
    }
}

proof fn lemma_state_lacks(entries: Seq<ReportedSchema>, key: (Seq<char>, Seq<char>))
    requires
        forall|i: int| 0 <= i < entries.len() ==> entry_key(#[trigger] entries[i]) != key,
    ensures
        !state_map(entries).contains_key(key),
    decreases entries.len(),
{
    if entries.len() > 0 {
        lemma_state_lacks(entries.drop_last(), key);
    }
}

proof fn lemma_state_update(entries: Seq<ReportedSchema>, i: int, entry: ReportedSchema)
    requires
        0 <= i < entries.len(),
        entry_key(entry) == entry_key(entries[i]),
        forall|a: int, b: int|
            #![trigger entries[a], entries[b]]
            0 <= a < b < entries.len() ==> entry_key(entries[a]) != entry_key(entries[b]),
    ensures
        state_map(entries.update(i, entry)) == state_map(entries).insert(
            entry_key(entry),
            reported_of(entry),
        ),
    decreases entries.len(),
{
    let changed = entries.update(i, entry);
    if i == entries.len() - 1 {
        assert(changed.drop_last() =~= entries.drop_last());
        assert(state_map(changed) =~= state_map(entries).insert(
            entry_key(entry),
            reported_of(entry),
        ));
    } else {
        assert(changed.drop_last() =~= entries.drop_last().update(i, entry));
        lemma_state_update(entries.drop_last(), i, entry);
        assert(entry_key(entries[i]) != entry_key(entries[entries.len() - 1]));
        assert(state_map(changed) =~= state_map(entries).insert(
            entry_key(entry),
            reported_of(entry),
        ));
    }
}

fn same_pairs(a: &Vec<(String, String)>, b: &Vec<(String, String)>) -> (r: bool)
    ensures
        r == (text::pair_views(a@) == text::pair_views(b@)),
{
    if a.len() != b.len() {
        assert(text::pair_views(a@).len() != text::pair_views(b@).len());
        return false;
    }
    let mut i: usize = 0;
    while i < a.len()
        invariant
            i <= a@.len(),
            a@.len() == b@.len(),
            forall|k: int|
                0 <= k < i ==> (#[trigger] a@[k]).0@ == b@[k].0@ && a@[k].1@ == b@[k].1@,
        decreases a@.len() - i,
    {
        if !text::same(a[i].0.as_str(), b[i].0.as_str()) || !text::same(
            a[i].1.as_str(),
            b[i].1.as_str(),
        ) {
            assert(text::pair_views(a@)[i as int] != text::pair_views(
                b@,
            )[i as int]);
            return false;
        }
        i += 1;
    }
    assert(text::pair_views(a@) =~= text::pair_views(b@));
    true
}

impl SchemaState {
    /// A state in which nothing was reported.
    pub fn new() -> (r: SchemaState)
        ensures
            r.wf(),
            r@ == Map::<(Seq<char>, Seq<char>), Reported>::empty(),
    {
        SchemaState { entries: Vec::new() }
    }

    /// The position of the entry of a table.
    fn find(&self, db: &str, table: &str) -> (r: Option<usize>)
        ensures
            match r {
                Some(i) => i < self.entries@.len() && entry_key(self.entries@[i as int]) == (
                    db@,
                    table@,
                ),
                None => forall|i: int|
                    0 <= i < self.entries@.len() ==> entry_key(#[trigger] self.entries@[i]) != (
                        db@,
                        table@,
                    ),
            },
    {
        let mut i: usize = 0;
        while i < self.entries.len()
            invariant
                i <= self.entries@.len(),
                forall|k: int|
                    0 <= k < i ==> entry_key(#[trigger] self.entries@[k]) != (db@, table@),
            decreases self.entries@.len() - i,
        {
            if text::same(self.entries[i].db.as_str(), db) && text::same(
                self.entries[i].table.as_str(),
                table,
            ) {
                return Some(i);
            }
            i += 1;
        }
        None
    }

    /// Notes the schema of a table; returns the change to report where it is news.
    fn note(&mut self, db: &str, table: &str, schema: &TableSchema) -> (r: Option<SchemaChange>)
        requires
            old(self).wf(),
        ensures
            final(self).wf(),
            ({
                let t = TableReport { db: db@, table: table@, schema: report_of(schema@) };
                if is_news(old(self)@, t) {
                    &&& r is Some
                    &&& r->0@ == change_of(t)
                    &&& final(self)@ == old(self)@.insert(report_key(t), t.schema)
                } else {
                    r is None && *final(self) == *old(self)
                }
            }),
    {
        let ghost t = TableReport { db: db@, table: table@, schema: report_of(schema@) };
        let ghost before = self.entries@;
        let tag_keys = text::copy_list(&schema.tag_keys);
        let field_defs = status::fields_of(&schema.field_defs);
        assert(text::pair_views(field_defs@) =~= t.schema.field_defs);
        assert(text::views(tag_keys@) =~= t.schema.tag_keys);
        let change = SchemaChange {
            db: db.to_owned(),
            table: table.to_owned(),
            tag_keys: text::copy_list(&schema.tag_keys),
            field_defs: status::fields_of(&schema.field_defs),
        };
        assert(text::pair_views(change.field_defs@) =~= t.schema.field_defs);
        assert(change@ =~= ChangeModel { db: t.db, table: t.table, schema: t.schema });
        if let Some(i) = self.find(db, table) {
            proof {
                lemma_state_has(before, i as int);
            }
            let e = &self.entries[i];
            if text::same_list(&e.tag_keys, &tag_keys) && same_pairs(&e.field_defs, &field_defs) {
                assert(reported_of(*e) =~= t.schema);
                return None;
            }
            assert(reported_of(*e) != t.schema);
            let entry = ReportedSchema {
            db: db.to_owned(),
            table: table.to_owned(),
            tag_keys,
            field_defs,
        };
            assert(reported_of(entry) =~= t.schema);
            self.entries.set(i, entry);
            proof {
                lemma_state_update(before, i as int, entry);
            }
            return Some(change);
        }
        proof {
            lemma_state_lacks(before, report_key(t));
        }
        let entry = ReportedSchema {
            db: db.to_owned(),
            table: table.to_owned(),
            tag_keys,
            field_defs,
        };
        assert(reported_of(entry) =~= t.schema);
        self.entries.push(entry);
        assert(self.entries@.drop_last() =~= before);
        Some(change)
    }
}

pub open spec fn change_models(changes: Seq<SchemaChange>) -> Seq<ChangeModel> {
    changes.map_values(|c: SchemaChange| c@)
}

/// The tables whose schema is not what was reported last. Nothing reported yet, every
/// table is reported.
pub fn compute_schema_changes(buffer: &Buffer, last_state: &mut SchemaState) -> (r: Vec<
    SchemaChange,
>)
    requires
        old(last_state).wf(),
    ensures
        final(last_state).wf(),
        change_models(r@) == changes_in(old(last_state)@, all_reports(buffer@)),
        final(last_state)@ == state_after(old(last_state)@, all_reports(buffer@)),
{
    let ghost dbs = buffer@;
    let ghost start = last_state@;
    let mut r: Vec<SchemaChange> = Vec::new();
    let mut i: usize = 0;
    assert(all_reports(dbs.take(0)) =~= Seq::<TableReport>::empty());
    assert(change_models(r@) =~= changes_in(start, all_reports(dbs.take(0))));
    while i < buffer.databases.len()
        invariant
            i <= buffer.databases@.len(),
            dbs == buffer@,
            last_state.wf(),
            change_models(r@) == changes_in(start, all_reports(dbs.take(i as int))),
            last_state@ == state_after(start, all_reports(dbs.take(i as int))),
        decreases buffer.databases@.len() - i,
    {
        let d = &buffer.databases[i];
        let ghost done = all_reports(dbs.take(i as int));
        let ghost here = db_reports(d@.name, d@.tables);
        assert(dbs.take(i + 1).drop_last() =~= dbs.take(i as int));
        assert(dbs.take(i + 1).last() == d@);
        let mut j: usize = 0;
        assert(done + here.take(0) =~= done);
        while j < d.tables.len()
            invariant
                i < buffer.databases@.len(),
                *d == buffer.databases@[i as int],
                here == db_reports(d@.name, d@.tables),
                j <= d.tables@.len(),
                last_state.wf(),
                change_models(r@) == changes_in(start, done + here.take(j as int)),
                last_state@ == state_after(start, done + here.take(j as int)),
            decreases d.tables@.len() - j,
        {
            let ghost next = done + here.take(j + 1);
            let ghost was = r@;
            assert(next.drop_last() =~= done + here.take(j as int));
            assert(d@.tables[j as int] == buffer::table_entry(d.tables@[j as int]));
            assert(next.last() == (TableReport {
                db: d.name@,
                table: d.tables@[j as int].name@,
                schema: report_of(d.tables@[j as int].schema@),
            }));
            match last_state.note(
                d.name.as_str(),
                d.tables[j].name.as_str(),
                &d.tables[j].schema,
            ) {
                Some(change) => {
                    r.push(change);
                    assert(change_models(r@) =~= change_models(was).push(change@));
                },
                None => {},
            }
            j += 1;
        }
        assert(here.take(j as int) =~= here);
        i += 1;
    }
    assert(dbs.take(i as int) =~= dbs);
    r
}

/// Whether no two tables have the same key.
spec fn keys_distinct(tables: Seq<TableReport>) -> bool {
    forall|i: int, j: int|
        #![trigger tables[i], tables[j]]
        0 <= i < j < tables.len() ==> report_key(tables[i]) != report_key(tables[j])
}

proof fn lemma_reports_of(dbs: Seq<buffer::DatabaseModel>, i: int)
    requires
        0 <= i < all_reports(dbs).len(),
    ensures
        exists|k: int| 0 <= k < dbs.len() && (#[trigger] dbs[k]).name == all_reports(dbs)[i].db,
    decreases dbs.len(),
{
    let rest = dbs.drop_last();
    if i < all_reports(rest).len() {
        lemma_reports_of(rest, i);
        let k = choose|k: int|
            0 <= k < rest.len() && (#[trigger] rest[k]).name == all_reports(rest)[i].db;
        assert(dbs[k].name == all_reports(dbs)[i].db);
    } else {
        assert(dbs[dbs.len() - 1].name == all_reports(dbs)[i].db);
    }
}

proof fn lemma_keys_distinct(dbs: Seq<buffer::DatabaseModel>)
    requires
        buffer::names_once(dbs),
    ensures
        keys_distinct(all_reports(dbs)),
    decreases dbs.len(),
{
    if dbs.len() > 0 {
        let rest = dbs.drop_last();
        let before = all_reports(rest);
        let last = dbs[dbs.len() - 1];
        let all = all_reports(dbs);
        assert(buffer::names_once(rest)) by {
            assert forall|i: int, j: int|
                #![trigger rest[i], rest[j]]
                0 <= i < j < rest.len() implies rest[i].name != rest[j].name by {
                assert(rest[i] == dbs[i] && rest[j] == dbs[j]);
            }
            assert forall|i: int| 0 <= i < rest.len() implies buffer::tables_once(
                (#[trigger] rest[i]).tables,
            ) by {
                assert(rest[i] == dbs[i]);
            }
        }
        lemma_keys_distinct(rest);
        assert(buffer::tables_once(last.tables));
        assert forall|i: int, j: int|
            #![trigger all[i], all[j]]
            0 <= i < j < all.len() implies report_key(all[i]) != report_key(all[j]) by {
            if j < before.len() {
                assert(all[i] == before[i] && all[j] == before[j]);
            } else if i < before.len() {
                assert(all[i] == before[i]);
                lemma_reports_of(rest, i);
                let k = choose|k: int|
                    0 <= k < rest.len() && (#[trigger] rest[k]).name == before[i].db;
                assert(dbs[k].name == before[i].db);
            } else {
                let (x, y) = (i - before.len(), j - before.len());
                assert(last.tables[x].0 != last.tables[y].0);
            }
        }
    }
}

proof fn lemma_state_after(
    state: Map<(Seq<char>, Seq<char>), Reported>,
    tables: Seq<TableReport>,
    n: int,
)
    requires
        keys_distinct(tables),
        0 <= n <= tables.len(),
    ensures
        forall|i: int|
            0 <= i < n ==> !is_news(state_after(state, tables.take(n)), #[trigger] tables[i]),
    decreases n,
{
    if n > 0 {
        lemma_state_after(state, tables, n - 1);
        assert(tables.take(n).drop_last() =~= tables.take(n - 1));
        assert(tables.take(n).last() == tables[n - 1]);
        assert forall|i: int| 0 <= i < n implies !is_news(
            state_after(state, tables.take(n)),
            #[trigger] tables[i],
        ) by {
            if i < n - 1 {
                assert(report_key(tables[i]) != report_key(tables[n - 1]));
            }
        }
    }
}

proof fn lemma_no_news(state: Map<(Seq<char>, Seq<char>), Reported>, tables: Seq<TableReport>)
    requires
        forall|i: int| 0 <= i < tables.len() ==> !is_news(state, #[trigger] tables[i]),
    ensures
        state_after(state, tables) == state,
        changes_in(state, tables) == Seq::<ChangeModel>::empty(),
    decreases tables.len(),
{
    if tables.len() > 0 {
        assert forall|i: int| 0 <= i < tables.drop_last().len() implies !is_news(
            state,
            #[trigger] tables.drop_last()[i],
        ) by {
            assert(tables.drop_last()[i] == tables[i]);
        }
        lemma_no_news(state, tables.drop_last());
    }
}

/// What was reported is not reported again: with the buffer unchanged, a second look finds
/// no change, whatever was reported before the first.
pub proof fn unchanged_schema_is_not_reported_again(
    state: Map<(Seq<char>, Seq<char>), Reported>,
    dbs: Seq<buffer::DatabaseModel>,
)
    requires
        buffer::names_once(dbs),
    ensures
        changes_in(state_after(state, all_reports(dbs)), all_reports(dbs)) == Seq::<
            ChangeModel,
        >::empty(),
        state_after(state_after(state, all_reports(dbs)), all_reports(dbs)) == state_after(
            state,
            all_reports(dbs),
        ),
{
    let tables = all_reports(dbs);
    lemma_keys_distinct(dbs);
    lemma_state_after(state, tables, tables.len() as int);
    assert(tables.take(tables.len() as int) =~= tables);
    lemma_no_news(state_after(state, tables), tables);
}

proof fn lemma_untouched_key(
    state: Map<(Seq<char>, Seq<char>), Reported>,
    tables: Seq<TableReport>,
    key: (Seq<char>, Seq<char>),
)
    requires
        forall|i: int| 0 <= i < tables.len() ==> report_key(#[trigger] tables[i]) != key,
    ensures
        state_after(state, tables).contains_key(key) == state.contains_key(key),
        state.contains_key(key) ==> state_after(state, tables)[key] == state[key],
    decreases tables.len(),
{
    if tables.len() > 0 {
        let rest = tables.drop_last();
        assert forall|i: int| 0 <= i < rest.len() implies report_key(#[trigger] rest[i])
            != key by {
            assert(rest[i] == tables[i]);
        }
        lemma_untouched_key(state, rest, key);
        assert(report_key(tables[tables.len() - 1]) != key);
    }
}

proof fn lemma_news_among(state: Map<(Seq<char>, Seq<char>), Reported>, tables: Seq<TableReport>)
    requires
        keys_distinct(tables),
    ensures
        changes_in(state, tables) == tables.filter(
            |t: TableReport| is_news(state, t),
        ).map_values(|t: TableReport| change_of(t)),
    decreases tables.len(),
{
    reveal(Seq::filter);
    let news = |t: TableReport| is_news(state, t);
    let change = |t: TableReport| change_of(t);
    if tables.len() > 0 {
        let rest = tables.drop_last();
        let last = tables.last();
        assert forall|i: int| 0 <= i < rest.len() implies report_key(#[trigger] rest[i])
            != report_key(last) by {
            assert(rest[i] == tables[i]);
            assert(last == tables[tables.len() - 1]);
        }
        assert(keys_distinct(rest)) by {
            assert forall|i: int, j: int|
                #![trigger rest[i], rest[j]]
                0 <= i < j < rest.len() implies report_key(rest[i]) != report_key(rest[j]) by {
                assert(rest[i] == tables[i] && rest[j] == tables[j]);
            }
        }
        lemma_news_among(state, rest);
        lemma_untouched_key(state, rest, report_key(last));
        if is_news(state, last) {
            assert(tables.filter(news) == rest.filter(news).push(last));
            assert(rest.filter(news).push(last).map_values(change) =~= rest.filter(
                news,
            ).map_values(change).push(change_of(last)));
        } else {
            assert(tables.filter(news) == rest.filter(news));
        }
    } else {
        assert(tables.filter(news).map_values(change) =~= Seq::<ChangeModel>::empty());
    }
}

/// A table is reported where nothing or something else was reported of it before, and only
/// there; the reports come in the order of the tables.
pub proof fn news_is_reported_and_nothing_else(
    state: Map<(Seq<char>, Seq<char>), Reported>,
    dbs: Seq<buffer::DatabaseModel>,
)
    requires
        buffer::names_once(dbs),
    ensures
        changes_in(state, all_reports(dbs)) == all_reports(dbs).filter(
            |t: TableReport| is_news(state, t),
        ).map_values(|t: TableReport| change_of(t)),
{
    lemma_keys_distinct(dbs);
    lemma_news_among(state, all_reports(dbs));
}

proof fn lemma_all_news(tables: Seq<TableReport>)
    ensures
        tables.filter(|t: TableReport| is_news(Map::empty(), t)) == tables,
    decreases tables.len(),
{
    reveal(Seq::filter);
    if tables.len() > 0 {
        lemma_all_news(tables.drop_last());
        assert(tables.drop_last().push(tables.last()) =~= tables);
    }
}

/// With nothing reported yet, every table is reported, one after the other.
pub proof fn first_look_reports_every_table(dbs: Seq<buffer::DatabaseModel>)
    requires
        buffer::names_once(dbs),
    ensures
        changes_in(Map::empty(), all_reports(dbs)) == all_reports(dbs).map_values(
            |t: TableReport| change_of(t),
        ),
{
    lemma_keys_distinct(dbs);
    lemma_news_among(Map::empty(), all_reports(dbs));
    lemma_all_news(all_reports(dbs));
}

/// What an agent sends to register.
#[derive(Debug)]
pub struct RegisterRequest {
    pub id: String,
    pub version: String,
    pub hostname: String,
    pub arch: String,
    pub listen_addr: String,
}

/// What an agent sends as its heartbeat.
#[derive(Debug)]
pub struct HeartbeatRequest {
    pub id: String,
    pub config_version: u64,
    pub schema_changes: Vec<SchemaChange>,
}

/// The part of an agent that talks to the server.
pub struct AgentClient {
    pub config: Config,
    pub listen_addr: String,
    /// Heartbeats that the server refused since the last one that it took.
    pub heartbeat_failures: u64,
}

/// Whether `r` is the outcome of a heartbeat, and `after` the number of refused ones after
/// it. A status outside 200 to 299 counts as refused; one inside ends the count.
pub open spec fn beat_taken(
    sent: Result<(u16, String), String>,
    before: u64,
    after: u64,
    r: Result<(), String>,
) -> bool {
    match sent {
        Ok((status, status_text)) => if 200 <= status <= 299 {
            r is Ok && after == 0
        } else {
            &&& r is Err
            &&& r->Err_0@ == "heartbeat failed: "@ + status_text@
            &&& after == (before + 1) % 0x1_0000_0000_0000_0000
        },
        Err(e) => r is Err && r->Err_0@ == "heartbeat request: "@ + e@ && after == before,
    }
}

impl AgentClient {
    pub fn new(config: Config, listen_addr: String) -> (r: AgentClient)
        ensures
            r.config == config,
            r.listen_addr == listen_addr,
            r.heartbeat_failures == 0,
    {
        AgentClient { config, listen_addr, heartbeat_failures: 0 }
    }

    /// The address and the content of a registration; refused without an agent in the
    /// configuration.
    pub fn register(&self, version: &str, hostname: &str, arch: &str) -> (r: Result<
        (String, RegisterRequest),
        String,
    >)
        ensures
            match self.config.agent {
                Some(a) => {
                    &&& r matches Ok((url, req))
                    &&& url@ == a.server_url@ + "/api/v1/agents/register"@
                    &&& req.id@ == a.id@
                    &&& req.version@ == version@
                    &&& req.hostname@ == hostname@
                    &&& req.arch@ == arch@
                    &&& req.listen_addr@ == self.listen_addr@
                },
                None => r matches Err(e) && e@ == "missing [agent] config"@,
            },
    {
        match &self.config.agent {
            Some(a) => {
                let req = RegisterRequest {
                    id: a.id.clone(),
                    version: version.to_owned(),
                    hostname: hostname.to_owned(),
                    arch: arch.to_owned(),
                    listen_addr: self.listen_addr.clone(),
                };
                Ok((text::join2(a.server_url.as_str(), "/api/v1/agents/register"), req))
            },
            None => Err("missing [agent] config".to_owned()),
        }
    }

    /// The address and the content of a heartbeat; refused without an agent in the
    /// configuration.
    pub fn heartbeat(&self, config_version: u64, schema_changes: Vec<SchemaChange>) -> (r: Result<
        (String, HeartbeatRequest),
        String,
    >)
        ensures
            match self.config.agent {
                Some(a) => {
                    &&& r matches Ok((url, req))
                    &&& url@ == a.server_url@ + "/api/v1/agents/heartbeat"@
                    &&& req.id@ == a.id@
                    &&& req.config_version == config_version
                    &&& req.schema_changes == schema_changes
                },
                None => r matches Err(e) && e@ == "missing [agent] config"@,
            },
    {
        match &self.config.agent {
            Some(a) => {
                let req = HeartbeatRequest { id: a.id.clone(), config_version, schema_changes };
                Ok((text::join2(a.server_url.as_str(), "/api/v1/agents/heartbeat"), req))
            },
            None => Err("missing [agent] config".to_owned()),
        }
    }

    /// Takes what came of sending a heartbeat: the status with its text, or the error. A
    /// status outside 200 to 299 counts as a failure; one inside ends the count.
    pub fn heartbeat_sent(&mut self, sent: &Result<(u16, String), String>) -> (r: Result<
        (),
        String,
    >)
        ensures
            final(self).config == old(self).config,
            final(self).listen_addr == old(self).listen_addr,
            beat_taken(
                *sent,
                old(self).heartbeat_failures,
                final(self).heartbeat_failures,
                r,
            ),
    {
        match sent {
            Ok((status, status_text)) => if 200 <= *status && *status <= 299 {
                self.heartbeat_failures = 0;
                Ok(())
            } else {
                self.heartbeat_failures = self.heartbeat_failures.wrapping_add(1);
                Err(text::join2("heartbeat failed: ", status_text.as_str()))
            },
            Err(e) => Err(text::join2("heartbeat request: ", e.as_str())),
        }
    }
}

/// Takes what came of sending a registration: the status with its text, or the error.
pub fn register_sent(sent: &Result<(u16, String), String>) -> (r: Result<(), String>)
    ensures
        match *sent {
            Ok((status, status_text)) => if 200 <= status <= 299 {
                r is Ok
            } else {
                r is Err && r->Err_0@ == "register failed: "@ + status_text@
            },
            Err(e) => r is Err && r->Err_0@ == "register request: "@ + e@,
        },
{
    match sent {
        Ok((status, status_text)) => if 200 <= *status && *status <= 299 {
            Ok(())
        } else {
            Err(text::join2("register failed: ", status_text.as_str()))
        },
        Err(e) => Err(text::join2("register request: ", e.as_str())),
    }
}

} // verus!
