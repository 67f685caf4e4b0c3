//! Databases, tables and fields that the server knows of, with the statistics of the tables.

use crate::text;
use vstd::prelude::*;

verus! {

#[derive(Debug)]
pub struct TableSummary {
    pub name: String,
    pub row_count: i64,
    pub time_min: Option<i64>,
    pub time_max: Option<i64>,
    pub tag_keys: Vec<String>,
    pub field_count: i64,
}

#[derive(Debug)]
pub struct TableDetail {
    pub database: String,
    pub table: String,
    pub tag_keys: Vec<String>,
    pub fields: Vec<FieldMeta>,
    pub time_min: Option<i64>,
    pub time_max: Option<i64>,
    pub row_count: i64,
    pub sources: Vec<String>,
    pub updated_at: Option<i64>,
}

#[derive(Debug)]
pub struct FieldMeta {
    pub name: String,
    pub value_type: String,
}

/// A field or a tag of a table.
#[derive(Debug)]
pub struct FieldRecord {
    pub name: String,
    pub value_type: String,
    pub is_tag: bool,
}

#[derive(Debug)]
pub struct TableRecord {
    pub db: String,
    pub table: String,
    pub time_min: Option<i64>,
    pub time_max: Option<i64>,
    pub total_rows: i64,
    pub updated_at: Option<i64>,
    /// Fields and tags, in the order in which they were first told.
    pub fields: Vec<FieldRecord>,
    /// The agents that the table has rows from.
    pub sources: Vec<String>,
}

/// What the server knows of its tables.
#[derive(Debug)]
pub struct MetadataStore {
    pub databases: Vec<String>,
    pub tables: Vec<TableRecord>,
    pub tombstones: Vec<Tombstone>,
}

/// A file whose rows were merged into another file: an upload of it again must not bring
/// the rows back.
#[derive(Debug)]
pub struct Tombstone {
    pub db: String,
    pub table: String,
    pub file_name: String,
    pub created_at: i64,
}

#[verifier::ext_equal]
pub struct TombstoneRow {
    pub db: Seq<char>,
    pub table: Seq<char>,
    pub file_name: Seq<char>,
    pub created_at: i64,
}

impl View for Tombstone {
    type V = TombstoneRow;

    open spec fn view(&self) -> TombstoneRow {
        TombstoneRow {
            db: self.db@,
            table: self.table@,
            file_name: self.file_name@,
            created_at: self.created_at,
        }
    }
}

pub open spec fn tombstone_rows(tombstones: Seq<Tombstone>) -> Seq<TombstoneRow> {
    tombstones.map_values(|t: Tombstone| t@)
}

#[verifier::ext_equal]
pub struct FieldRow {
    pub name: Seq<char>,
    pub value_type: Seq<char>,
    pub is_tag: bool,
}

#[verifier::ext_equal]
pub struct TableRow {
    pub db: Seq<char>,
    pub table: Seq<char>,
    pub time_min: Option<i64>,
    pub time_max: Option<i64>,
    pub total_rows: i64,
    pub updated_at: Option<i64>,
    pub fields: Seq<FieldRow>,
    pub sources: Seq<Seq<char>>,
}

#[verifier::ext_equal]
pub struct StoreModel {
    pub databases: Seq<Seq<char>>,
    pub tables: Seq<TableRow>,
    pub tombstones: Seq<TombstoneRow>,
}

impl View for FieldRecord {
    type V = FieldRow;

    open spec fn view(&self) -> FieldRow {
        FieldRow { name: self.name@, value_type: self.value_type@, is_tag: self.is_tag }
    }
}

pub open spec fn field_rows(fields: Seq<FieldRecord>) -> Seq<FieldRow> {
    fields.map_values(|f: FieldRecord| f@)
}

impl View for TableRecord {
    type V = TableRow;

    open spec fn view(&self) -> TableRow {
        TableRow {
            db: self.db@,
            table: self.table@,
            time_min: self.time_min,
            time_max: self.time_max,
            total_rows: self.total_rows,
            updated_at: self.updated_at,
            fields: field_rows(self.fields@),
            sources: text::views(self.sources@),
        }
    }
}

impl View for MetadataStore {
    type V = StoreModel;

    open spec fn view(&self) -> StoreModel {
        StoreModel {
            databases: text::views(self.databases@),
            tables: self.tables@.map_values(|t: TableRecord| t@),
            tombstones: tombstone_rows(self.tombstones@),
        }
    }
}

/// The position of the first table of given names, or the number of tables.
pub open spec fn row_position(tables: Seq<TableRow>, db: Seq<char>, table: Seq<char>) -> int
    decreases tables.len(),
{
    if tables.len() == 0 || (tables[0].db == db && tables[0].table == table) {
        0
    } else {
        1 + row_position(tables.drop_first(), db, table)
    }
}

/// What is known of a table.
pub open spec fn row_of(s: StoreModel, db: Seq<char>, table: Seq<char>) -> Option<TableRow> {
    let i = row_position(s.tables, db, table);
    if i < s.tables.len() {
        Some(s.tables[i])
    } else {
        None
    }
}

pub open spec fn new_row(db: Seq<char>, table: Seq<char>) -> TableRow {
    TableRow {
        db,
        table,
        time_min: None,
        time_max: None,
        total_rows: 0,
        updated_at: None,
        fields: Seq::empty(),
        sources: Seq::empty(),
    }
}

/// The names with one more, where it is new.
pub open spec fn with_name(names: Seq<Seq<char>>, name: Seq<char>) -> Seq<Seq<char>> {
    if names.contains(name) {
        names
    } else {
        names.push(name)
    }
}

/// The store with `row` for its table, and with its database.
pub open spec fn with_row(s: StoreModel, row: TableRow) -> StoreModel {
    let i = row_position(s.tables, row.db, row.table);
    StoreModel {
        databases: with_name(s.databases, row.db),
        tables: if i < s.tables.len() {
            s.tables.update(i, row)
        } else {
            s.tables.push(row)
        },
        ..s
    }
}

/// What is known of a table, or a table of which nothing is known.
pub open spec fn row_or_new(s: StoreModel, db: Seq<char>, table: Seq<char>) -> TableRow {
    match row_of(s, db, table) {
        Some(row) => row,
        None => new_row(db, table),
    }
}

pub open spec fn has_field(fields: Seq<FieldRow>, name: Seq<char>, is_tag: bool) -> bool {
    exists|i: int|
        0 <= i < fields.len() && (#[trigger] fields[i]).name == name && fields[i].is_tag == is_tag
}

/// The fields with one more, where it is new; one that is known keeps its type.
pub open spec fn with_field(fields: Seq<FieldRow>, field: FieldRow) -> Seq<FieldRow> {
    if has_field(fields, field.name, field.is_tag) {
        fields
    } else {
        fields.push(field)
    }
}

/// The fields with some more, given by name and type.
pub open spec fn with_fields(fields: Seq<FieldRow>, defs: Seq<(Seq<char>, Seq<char>)>) -> Seq<
    FieldRow,
>
    decreases defs.len(),
{
    if defs.len() == 0 {
        fields
    } else {
        with_field(
            with_fields(fields, defs.drop_last()),
            FieldRow { name: defs.last().0, value_type: defs.last().1, is_tag: false },
        )
    }
}

/// The fields with some tags.
pub open spec fn with_tags(fields: Seq<FieldRow>, keys: Seq<Seq<char>>) -> Seq<FieldRow>
    decreases keys.len(),
{
    if keys.len() == 0 {
        fields
    } else {
        with_field(
            with_tags(fields, keys.drop_last()),
            FieldRow { name: keys.last(), value_type: "String"@, is_tag: true },
        )
    }
}

pub open spec fn merged_min(a: Option<i64>, b: i64) -> i64 {
    match a {
        Some(v) => if b < v {
            b
        } else {
            v
        },
        None => b,
    }
}

pub open spec fn merged_max(a: Option<i64>, b: i64) -> i64 {
    match a {
        Some(v) => if b > v {
            b
        } else {
            v
        },
        None => b,
    }
}

/// The table after new rows within a range of time.
pub open spec fn counted(
    row: TableRow,
    time_min: i64,
    time_max: i64,
    row_count: usize,
    defs: Seq<(Seq<char>, Seq<char>)>,
    tag_keys: Seq<Seq<char>>,
    now_ms: i64,
) -> TableRow {
    TableRow {
        time_min: Some(merged_min(row.time_min, time_min)),
        time_max: Some(merged_max(row.time_max, time_max)),
        total_rows: (row.total_rows + row_count as i64) as i64,
        updated_at: Some(now_ms),
        fields: with_tags(with_fields(row.fields, defs), tag_keys),
        ..row
    }
}

/// The table after an agent told of its schema.
pub open spec fn merged(
    row: TableRow,
    agent_id: Seq<char>,
    agent_known: bool,
    tag_keys: Seq<Seq<char>>,
    defs: Seq<(Seq<char>, Seq<char>)>,
) -> TableRow {
    TableRow {
        sources: if agent_known {
            with_name(row.sources, agent_id)
        } else {
            row.sources
        },
        fields: with_tags(with_fields(row.fields, defs), tag_keys),
        ..row
    }
}

pub open spec fn without_name(names: Seq<Seq<char>>, name: Seq<char>) -> Seq<Seq<char>>
    decreases names.len(),
{
    if names.len() == 0 {
        names
    } else if names.last() == name {
        without_name(names.drop_last(), name)
    } else {
        without_name(names.drop_last(), name).push(names.last())
    }
}

/// The names of the tags among the fields.
pub open spec fn tag_names(fields: Seq<FieldRow>) -> Seq<Seq<char>>
    decreases fields.len(),
{
    if fields.len() == 0 {
        Seq::empty()
    } else if fields.last().is_tag {
        tag_names(fields.drop_last()).push(fields.last().name)
    } else {
        tag_names(fields.drop_last())
    }
}

/// Name and type of the fields that are no tags.
pub open spec fn plain_fields(fields: Seq<FieldRow>) -> Seq<(Seq<char>, Seq<char>)>
    decreases fields.len(),
{
    if fields.len() == 0 {
        Seq::empty()
    } else if fields.last().is_tag {
        plain_fields(fields.drop_last())
    } else {
        plain_fields(fields.drop_last()).push((fields.last().name, fields.last().value_type))
    }
}

/// The names of the tables of a database.
pub open spec fn table_names(tables: Seq<TableRow>, db: Seq<char>) -> Seq<Seq<char>>
    decreases tables.len(),
{
    if tables.len() == 0 {
        Seq::empty()
    } else if tables.last().db == db {
        table_names(tables.drop_last(), db).push(tables.last().table)
    } else {
        table_names(tables.drop_last(), db)
    }
}

/// Whether `r` is the summary of a table; its tags stand in order.
pub open spec fn summary_right(row: TableRow, r: TableSummary) -> bool {
    &&& r.name@ == row.table
    &&& r.row_count == row.total_rows
    &&& r.time_min == row.time_min
    &&& r.time_max == row.time_max
    &&& text::views(r.tag_keys@) == text::sorted_names(tag_names(row.fields))
    &&& r.field_count == plain_fields(row.fields).len() as i64
}

/// Whether `r` is the summary of the table of given names.
pub open spec fn summarizes(
    s: StoreModel,
    db: Seq<char>,
    table: Seq<char>,
    r: TableSummary,
) -> bool {
    match row_of(s, db, table) {
        Some(row) => summary_right(row, r),
        None => false,
    }
}

pub open spec fn field_meta_views(fields: Seq<FieldMeta>) -> Seq<(Seq<char>, Seq<char>)> {
    fields.map_values(|f: FieldMeta| (f.name@, f.value_type@))
}

/// Whether `r` tells all that is known of a table; names stand in order.
pub open spec fn detail_right(row: TableRow, r: TableDetail) -> bool {
    &&& r.database@ == row.db
    &&& r.table@ == row.table
    &&& text::views(r.tag_keys@) == text::sorted_names(tag_names(row.fields))
    &&& field_meta_views(r.fields@) == text::sorted_pairs(plain_fields(row.fields))
    &&& r.time_min == row.time_min
    &&& r.time_max == row.time_max
    &&& r.row_count == row.total_rows
    &&& text::views(r.sources@) == text::sorted_names(row.sources)
    &&& r.updated_at == row.updated_at
}

pub proof fn lemma_row_position(tables: Seq<TableRow>, db: Seq<char>, table: Seq<char>)
    ensures
        0 <= row_position(tables, db, table) <= tables.len(),
        forall|i: int|
            0 <= i < row_position(tables, db, table) ==> (#[trigger] tables[i]).db != db
                || tables[i].table != table,
        row_position(tables, db, table) < tables.len() ==> tables[row_position(
            tables,
            db,
            table,
        )].db == db && tables[row_position(tables, db, table)].table == table,
    decreases tables.len(),
{
    if tables.len() > 0 && !(tables[0].db == db && tables[0].table == table) {
        let rest = tables.drop_first();
        lemma_row_position(rest, db, table);
        assert forall|i: int| 0 <= i < row_position(tables, db, table) implies (
        #[trigger] tables[i]).db != db || tables[i].table != table by {
            if i > 0 {
                assert(rest[i - 1] == tables[i]);
            }
        }
    }
}

/// Adds a name where it is new.
fn add_name(names: &mut Vec<String>, name: &str)
    ensures
        text::views(final(names)@) == with_name(text::views(old(names)@), name@),
{
    let ghost before = text::views(names@);
    match text::position_of(names, name) {
        Some(i) => {
            assert(before[i as int] == name@);
        },
        None => {
            assert(!before.contains(name@)) by {
                if before.contains(name@) {
                    let k = choose|k: int| 0 <= k < before.len() && before[k] == name@;
                    assert(names@[k]@ == name@);
                }
            }
            names.push(name.to_owned());
            assert(text::views(names@) =~= before.push(name@));
        },
    }
}

/// Adds a field or a tag where it is new.
fn add_field(fields: &mut Vec<FieldRecord>, name: &str, value_type: &str, is_tag: bool)
    ensures
        field_rows(final(fields)@) == with_field(
            field_rows(old(fields)@),
            FieldRow { name: name@, value_type: value_type@, is_tag },
        ),
{
    let ghost before = field_rows(fields@);
    let mut i: usize = 0;
    while i < fields.len()
        invariant
            i <= fields@.len(),
            *fields == *old(fields),
            before == field_rows(fields@),
            forall|k: int|
                0 <= k < i ==> (#[trigger] before[k]).name != name@ || before[k].is_tag != is_tag,
        decreases fields@.len() - i,
    {
        if fields[i].is_tag == is_tag && text::same(fields[i].name.as_str(), name) {
            assert(before[i as int].name == name@ && before[i as int].is_tag == is_tag);
            return;
        }
        assert(before[i as int] == fields@[i as int]@);
        i += 1;
    }
    let field = FieldRecord { name: name.to_owned(), value_type: value_type.to_owned(), is_tag };
    fields.push(field);
    assert(field_rows(fields@) =~= before.push(field@));
}

/// Adds fields, given by name and type, and tags.
fn add_fields(fields: &mut Vec<FieldRecord>, defs: &Vec<(String, String)>, tag_keys: &Vec<String>)
    ensures
        field_rows(final(fields)@) == with_tags(
            with_fields(field_rows(old(fields)@), text::pair_views(defs@)),
            text::views(tag_keys@),
        ),
{
    let ghost before = field_rows(fields@);
    let ghost pairs = text::pair_views(defs@);
    let mut i: usize = 0;
    assert(pairs.take(0) =~= Seq::<(Seq<char>, Seq<char>)>::empty());
    while i < defs.len()
        invariant
            i <= defs@.len(),
            pairs == text::pair_views(defs@),
            field_rows(fields@) == with_fields(before, pairs.take(i as int)),
        decreases defs@.len() - i,
    {
        assert(pairs.take(i + 1).drop_last() =~= pairs.take(i as int));
        assert(pairs.take(i + 1).last() == (defs@[i as int].0@, defs@[i as int].1@));
        add_field(fields, defs[i].0.as_str(), defs[i].1.as_str(), false);
        i += 1;
    }
    assert(pairs.take(i as int) =~= pairs);
    let ghost middle = field_rows(fields@);
    let ghost keys = text::views(tag_keys@);
    let mut j: usize = 0;
    assert(keys.take(0) =~= Seq::<Seq<char>>::empty());
    while j < tag_keys.len()
        invariant
            j <= tag_keys@.len(),
            keys == text::views(tag_keys@),
            field_rows(fields@) == with_tags(middle, keys.take(j as int)),
        decreases tag_keys@.len() - j,
    {
        assert(keys.take(j + 1).drop_last() =~= keys.take(j as int));
        assert(keys.take(j + 1).last() == tag_keys@[j as int]@);
        add_field(fields, tag_keys[j].as_str(), "String", true);
        j += 1;
    }
    assert(keys.take(j as int) =~= keys);
}

/// The names of the tags.
fn tags_of(fields: &Vec<FieldRecord>) -> (r: Vec<String>)
    ensures
        text::views(r@) == tag_names(field_rows(fields@)),
{
    let ghost all = field_rows(fields@);
    let mut r: Vec<String> = Vec::new();
    let mut i: usize = 0;
    assert(text::views(r@) =~= tag_names(all.take(0)));
    while i < fields.len()
        invariant
            i <= fields@.len(),
            all == field_rows(fields@),
            text::views(r@) == tag_names(all.take(i as int)),
        decreases fields@.len() - i,
    {
        assert(all.take(i + 1).drop_last() =~= all.take(i as int));
        assert(all.take(i + 1).last() == fields@[i as int]@);
        if fields[i].is_tag {
            let ghost was = r@;
            r.push(fields[i].name.clone());
            assert(text::views(r@) =~= text::views(was).push(fields@[i as int].name@));
        }
        i += 1;
    }
    assert(all.take(i as int) =~= all);
    r
}

/// Name and type of the fields that are no tags.
fn fields_of(fields: &Vec<FieldRecord>) -> (r: Vec<(String, String)>)
    ensures
        text::pair_views(r@) == plain_fields(field_rows(fields@)),
{
    let ghost all = field_rows(fields@);
    let mut r: Vec<(String, String)> = Vec::new();
    let mut i: usize = 0;
    assert(text::pair_views(r@) =~= plain_fields(all.take(0)));
    while i < fields.len()
        invariant
            i <= fields@.len(),
            all == field_rows(fields@),
            text::pair_views(r@) == plain_fields(all.take(i as int)),
        decreases fields@.len() - i,
    {
        assert(all.take(i + 1).drop_last() =~= all.take(i as int));
        assert(all.take(i + 1).last() == fields@[i as int]@);
        if !fields[i].is_tag {
            let ghost was = r@;
            let pair = (fields[i].name.clone(), fields[i].value_type.clone());
            r.push(pair);
            assert(text::pair_views(r@) =~= text::pair_views(was).push((pair.0@, pair.1@)));
        }
        i += 1;
    }
    assert(all.take(i as int) =~= all);
    r
}

fn summary_of(t: &TableRecord) -> (r: TableSummary)
    ensures
        summary_right(t@, r),
{
    let plain = fields_of(&t.fields);
    assert(text::pair_views(plain@).len() == plain@.len());
    TableSummary {
        name: t.table.clone(),
        row_count: t.total_rows,
        time_min: t.time_min,
        time_max: t.time_max,
        tag_keys: text::sort_names(&tags_of(&t.fields)),
        field_count: plain.len() as i64,
    }
}

impl MetadataStore {
    pub fn new() -> (r: MetadataStore)
        ensures
            r@ == (StoreModel {
                databases: Seq::empty(),
                tables: Seq::empty(),
                tombstones: Seq::empty(),
            }),
    {
        let r = MetadataStore {
            databases: Vec::new(),
            tables: Vec::new(),
            tombstones: Vec::new(),
        };
        assert(r@ =~= StoreModel {
            databases: Seq::empty(),
            tables: Seq::empty(),
            tombstones: Seq::empty(),
        });
        r
    }

    /// The position of a table, or the number of tables.
    fn position(&self, db: &str, table: &str) -> (r: usize)
        ensures
            r == row_position(self@.tables, db@, table@),
            r <= self.tables@.len(),
    {
        let ghost tables = self@.tables;
        proof {
            lemma_row_position(tables, db@, table@);
        }
        let mut i: usize = 0;
        while i < self.tables.len()
            invariant
                i <= self.tables@.len(),
                tables == self@.tables,
                i <= row_position(tables, db@, table@) <= tables.len(),
                forall|k: int|
                    0 <= k < row_position(tables, db@, table@) ==> (#[trigger] tables[k]).db != db@
                        || tables[k].table != table@,
                row_position(tables, db@, table@) < tables.len() ==> tables[row_position(
                    tables,
                    db@,
                    table@,
                )].db == db@ && tables[row_position(tables, db@, table@)].table == table@,
            decreases self.tables@.len() - i,
        {
            assert(tables[i as int] == self.tables@[i as int]@);
            if text::same(self.tables[i].db.as_str(), db) && text::same(
                self.tables[i].table.as_str(),
                table,
            ) {
                return i;
            }
            i += 1;
        }
        i
    }

    /// Makes a table known where it is not, with its database. Returns its position.
    fn ensure_table(&mut self, db: &str, table: &str) -> (r: usize)
        ensures
            r == row_position(old(self)@.tables, db@, table@),
            r < final(self)@.tables.len(),
            final(self)@ == with_row(old(self)@, row_or_new(old(self)@, db@, table@)),
            final(self)@.tables[r as int] == row_or_new(old(self)@, db@, table@),
    {
        let ghost before = self@;
        proof {
            lemma_row_position(before.tables, db@, table@);
        }
        let i = self.position(db, table);
        add_name(&mut self.databases, db);
        if i == self.tables.len() {
            self.tables.push(
                TableRecord {
                    db: db.to_owned(),
                    table: table.to_owned(),
                    time_min: None,
                    time_max: None,
                    total_rows: 0,
                    updated_at: None,
                    fields: Vec::new(),
                    sources: Vec::new(),
                },
            );
            assert(self.tables@[i as int]@ =~= new_row(db@, table@));
            assert(self@.tables =~= before.tables.push(new_row(db@, table@)));
        } else {
            assert(self@.tables =~= before.tables.update(i as int, before.tables[i as int]));
        }
        i
    }

    /// Whether the number of rows of a table can grow by `row_count`.
    pub fn can_count(&self, db_name: &str, table_name: &str, row_count: usize) -> (r: bool)
        ensures
            r == (i64::MIN <= row_or_new(self@, db_name@, table_name@).total_rows
                + row_count as i64 <= i64::MAX),
    {
        proof {
            lemma_row_position(self@.tables, db_name@, table_name@);
        }
        let i = self.position(db_name, table_name);
        if i < self.tables.len() {
            assert(self@.tables[i as int] == self.tables@[i as int]@);
            self.tables[i].total_rows.checked_add(row_count as i64).is_some()
        } else {
            true
        }
    }

    /// Counts new rows of a table: widens its range of time, adds to its number of rows,
    /// and adds the fields and tags that are new.
    pub fn update_stats(
        &mut self,
        db_name: &str,
        table_name: &str,
        time_min: i64,
        time_max: i64,
        row_count: usize,
        field_defs: &Vec<(String, String)>,
        tag_keys: &Vec<String>,
        now_ms: i64,
    )
        requires
            i64::MIN <= row_or_new(old(self)@, db_name@, table_name@).total_rows + row_count as i64
                <= i64::MAX,
        ensures
            final(self)@ == with_row(
                old(self)@,
                counted(
                    row_or_new(old(self)@, db_name@, table_name@),
                    time_min,
                    time_max,
                    row_count,
                    text::pair_views(field_defs@),
                    text::views(tag_keys@),
                    now_ms,
                ),
            ),
    {
        let ghost before = self@;
        let i = self.ensure_table(db_name, table_name);
        let ghost middle = self@;
        let ghost row = row_or_new(before, db_name@, table_name@);
        proof {
            lemma_row_position(before.tables, db_name@, table_name@);
        }
        assert(self.tables@[i as int]@ == row);
        let t_min = match self.tables[i].time_min {
            Some(v) => if time_min < v {
                time_min
            } else {
                v
            },
            None => time_min,
        };
        let t_max = match self.tables[i].time_max {
            Some(v) => if time_max > v {
                time_max
            } else {
                v
            },
            None => time_max,
        };
        self.tables[i].time_min = Some(t_min);
        self.tables[i].time_max = Some(t_max);
        self.tables[i].total_rows = self.tables[i].total_rows + row_count as i64;
        self.tables[i].updated_at = Some(now_ms);
        add_fields(&mut self.tables[i].fields, field_defs, tag_keys);
        assert(self.tables@[i as int]@ =~= counted(
            row,
            time_min,
            time_max,
            row_count,
            text::pair_views(field_defs@),
            text::views(tag_keys@),
            now_ms,
        ));
        assert(self@.tables =~= middle.tables.update(i as int, self.tables@[i as int]@));
        assert(self@.tables =~= with_row(before, self.tables@[i as int]@).tables);
    }

    /// Merges the schema that an agent told of a table; a registered agent is noted as a
    /// source of the table.
    pub fn merge_schema(
        &mut self,
        db_name: &str,
        table_name: &str,
        agent_id: &str,
        agent_known: bool,
        tag_keys: &Vec<String>,
        field_defs: &Vec<(String, String)>,
    )
        ensures
            final(self)@ == with_row(
                old(self)@,
                merged(
                    row_or_new(old(self)@, db_name@, table_name@),
                    agent_id@,
                    agent_known,
                    text::views(tag_keys@),
                    text::pair_views(field_defs@),
                ),
            ),
    {
        let ghost before = self@;
        let i = self.ensure_table(db_name, table_name);
        let ghost middle = self@;
        let ghost row = row_or_new(before, db_name@, table_name@);
        proof {
            lemma_row_position(before.tables, db_name@, table_name@);
        }
        assert(self.tables@[i as int]@ == row);
        if agent_known {
            add_name(&mut self.tables[i].sources, agent_id);
        }
        add_fields(&mut self.tables[i].fields, field_defs, tag_keys);
        assert(self.tables@[i as int]@ =~= merged(
            row,
            agent_id@,
            agent_known,
            text::views(tag_keys@),
            text::pair_views(field_defs@),
        ));
        assert(self@.tables =~= middle.tables.update(i as int, self.tables@[i as int]@));
        assert(self@.tables =~= with_row(before, self.tables@[i as int]@).tables);
    }

    /// Forgets an agent as a source of tables.
    pub fn remove_agent(&mut self, agent_id: &str)
        ensures
            final(self)@.databases == old(self)@.databases,
            final(self)@.tombstones == old(self)@.tombstones,
            final(self)@.tables == old(self)@.tables.map_values(
                |t: TableRow| TableRow { sources: without_name(t.sources, agent_id@), ..t },
            ),
    {
        let ghost before = self@.tables;
        let ghost f = |t: TableRow| TableRow { sources: without_name(t.sources, agent_id@), ..t };
        let mut i: usize = 0;
        while i < self.tables.len()
            invariant
                i <= self.tables@.len(),
                self.tables@.len() == before.len(),
                self.databases == old(self).databases,
                self.tombstones == old(self).tombstones,
                f == (|t: TableRow| TableRow { sources: without_name(t.sources, agent_id@), ..t }),
                forall|k: int| 0 <= k < i ==> (#[trigger] self.tables@[k])@ == f(before[k]),
                forall|k: int| i <= k < before.len() ==> (#[trigger] self.tables@[k])@ == before[k],
            decreases self.tables@.len() - i,
        {
            let ghost names = before[i as int].sources;
            let mut kept: Vec<String> = Vec::new();
            let mut j: usize = 0;
            assert(names.take(0) =~= Seq::<Seq<char>>::empty());
            assert(text::views(kept@) =~= without_name(names.take(0), agent_id@));
            assert(self.tables@[i as int]@ == before[i as int]);
            while j < self.tables[i].sources.len()
                invariant
                    i < self.tables@.len(),
                    names == text::views(self.tables@[i as int].sources@),
                    j <= self.tables@[i as int].sources@.len(),
                    text::views(kept@) == without_name(names.take(j as int), agent_id@),
                decreases self.tables@[i as int].sources@.len() - j,
            {
                assert(names.take(j + 1).drop_last() =~= names.take(j as int));
                assert(names.take(j + 1).last() == self.tables@[i as int].sources@[j as int]@);
                if !text::same(self.tables[i].sources[j].as_str(), agent_id) {
                    let ghost was = kept@;
                    let name = self.tables[i].sources[j].clone();
                    kept.push(name);
                    assert(text::views(kept@) =~= text::views(was).push(name@));
                }
                j += 1;
            }
            assert(names.take(j as int) =~= names);
            self.tables[i].sources = kept;
            assert(self.tables@[i as int]@ =~= f(before[i as int]));
            i += 1;
        }
        assert(self@.tables =~= before.map_values(f));
    }

    /// The databases, in order.
    pub fn list_databases(&self) -> (r: Vec<String>)
        ensures
            text::views(r@) == text::sorted_names(self@.databases),
    {
        text::sort_names(&self.databases)
    }

    /// The summaries of the tables of a database, in the order of the names.
    pub fn list_tables(&self, db_name: &str) -> (r: Vec<TableSummary>)
        ensures
            ({
                let names = text::sorted_names(table_names(self@.tables, db_name@));
                &&& r@.len() == names.len()
                &&& forall|i: int|
                    0 <= i < r@.len() ==> summarizes(self@, db_name@, names[i], #[trigger] r@[i])
            }),
    {
        let ghost tables = self@.tables;
        let mut found: Vec<String> = Vec::new();
        let mut i: usize = 0;
        assert(text::views(found@) =~= table_names(tables.take(0), db_name@));
        while i < self.tables.len()
            invariant
                i <= self.tables@.len(),
                tables == self@.tables,
                text::views(found@) == table_names(tables.take(i as int), db_name@),
            decreases self.tables@.len() - i,
        {
            assert(tables.take(i + 1).drop_last() =~= tables.take(i as int));
            assert(tables.take(i + 1).last() == self.tables@[i as int]@);
            if text::same(self.tables[i].db.as_str(), db_name) {
                let ghost was = found@;
                found.push(self.tables[i].table.clone());
                assert(text::views(found@) =~= text::views(was).push(
                    self.tables@[i as int].table@,
                ));
            }
            i += 1;
        }
        assert(tables.take(i as int) =~= tables);
        let names = text::sort_names(&found);
        let ghost sorted = text::sorted_names(table_names(tables, db_name@));
        assert(text::views(names@).len() == names@.len());
        let mut r: Vec<TableSummary> = Vec::new();
        let mut j: usize = 0;
        while j < names.len()
            invariant
                j <= names@.len(),
                tables == self@.tables,
                sorted == text::views(names@),
                sorted.len() == names@.len(),
                sorted == text::sorted_names(table_names(tables, db_name@)),
                r@.len() == j,
                forall|k: int|
                    0 <= k < j ==> summarizes(self@, db_name@, sorted[k], #[trigger] r@[k]),
            decreases names@.len() - j,
        {
            let at = self.position(db_name, names[j].as_str());
            proof {
                assert(sorted[j as int] == names@[j as int]@);
                lemma_sorted_has(table_names(tables, db_name@), j as int);
                lemma_named_table(tables, db_name@, sorted[j as int]);
                assert(tables[at as int] == self.tables@[at as int]@);
            }
            let summary = summary_of(&self.tables[at]);
            assert(row_of(self@, db_name@, sorted[j as int]) == Some(tables[at as int]));
            assert(summarizes(self@, db_name@, sorted[j as int], summary));
            r.push(summary);
            j += 1;
        }
        r
    }

    /// All that is known of a table.
    pub fn get_table(&self, db_name: &str, table_name: &str) -> (r: Option<TableDetail>)
        ensures
            r is Some == row_of(self@, db_name@, table_name@) is Some,
            r is Some ==> detail_right(row_of(self@, db_name@, table_name@)->0, r->0),
    {
        proof {
            lemma_row_position(self@.tables, db_name@, table_name@);
        }
        let i = self.position(db_name, table_name);
        if i == self.tables.len() {
            return None;
        }
        let t = &self.tables[i];
        assert(self@.tables[i as int] == t@);
        let pairs = text::sort_pairs(&fields_of(&t.fields));
        let ghost sorted = text::sorted_pairs(plain_fields(t@.fields));
        let mut fields: Vec<FieldMeta> = Vec::new();
        let mut j: usize = 0;
        while j < pairs.len()
            invariant
                j <= pairs@.len(),
                sorted == text::pair_views(pairs@),
                fields@.len() == j,
                forall|k: int|
                    0 <= k < j ==> (#[trigger] fields@[k]).name@ == sorted[k].0
                        && fields@[k].value_type@ == sorted[k].1,
            decreases pairs@.len() - j,
        {
            fields.push(FieldMeta { name: pairs[j].0.clone(), value_type: pairs[j].1.clone() });
            assert(sorted[j as int] == (pairs@[j as int].0@, pairs@[j as int].1@));
            j += 1;
        }
        assert(field_meta_views(fields@) =~= sorted);
        Some(
            TableDetail {
                database: db_name.to_owned(),
                table: table_name.to_owned(),
                tag_keys: text::sort_names(&tags_of(&t.fields)),
                fields,
                time_min: t.time_min,
                time_max: t.time_max,
                row_count: t.total_rows,
                sources: text::sort_names(&t.sources),
                updated_at: t.updated_at,
            },
        )
    }
}

/// The agents that a table has rows from, in the order in which they were noted.
pub open spec fn table_agents(s: StoreModel, db: Seq<char>, table: Seq<char>) -> Seq<Seq<char>> {
    match row_of(s, db, table) {
        Some(row) => row.sources,
        None => Seq::empty(),
    }
}

impl MetadataStore {
    /// The agents that a table has rows from.
    pub fn list_table_agents(&self, db_name: &str, table_name: &str) -> (r: Vec<String>)
        ensures
            text::views(r@) == table_agents(self@, db_name@, table_name@),
    {
        proof {
            lemma_row_position(self@.tables, db_name@, table_name@);
        }
        let i = self.position(db_name, table_name);
        if i == self.tables.len() {
            let r: Vec<String> = Vec::new();
            assert(text::views(r@) =~= Seq::<Seq<char>>::empty());
            return r;
        }
        assert(self@.tables[i as int] == self.tables@[i as int]@);
        text::copy_list(&self.tables[i].sources)
    }
}

/// Whether a file was merged into another file.
pub open spec fn is_tombstoned(
    s: StoreModel,
    db: Seq<char>,
    table: Seq<char>,
    file_name: Seq<char>,
) -> bool {
    exists|i: int|
        0 <= i < s.tombstones.len() && tombstone_for(
            #[trigger] s.tombstones[i],
            db,
            table,
            file_name,
        )
}

pub open spec fn tombstone_for(
    t: TombstoneRow,
    db: Seq<char>,
    table: Seq<char>,
    file_name: Seq<char>,
) -> bool {
    t.db == db && t.table == table && t.file_name == file_name
}

/// The tombstones with those of some files of a table.
pub open spec fn with_tombstones(
    tombstones: Seq<TombstoneRow>,
    db: Seq<char>,
    table: Seq<char>,
    names: Seq<Seq<char>>,
    now_ms: i64,
) -> Seq<TombstoneRow> {
    tombstones + names.map_values(
        |n: Seq<char>| TombstoneRow { db, table, file_name: n, created_at: now_ms },
    )
}

/// The tombstones from a time on.
pub open spec fn tombstones_from(tombstones: Seq<TombstoneRow>, cutoff_ms: i64) -> Seq<
    TombstoneRow,
>
    decreases tombstones.len(),
{
    if tombstones.len() == 0 {
        tombstones
    } else if tombstones.last().created_at < cutoff_ms {
        tombstones_from(tombstones.drop_last(), cutoff_ms)
    } else {
        tombstones_from(tombstones.drop_last(), cutoff_ms).push(tombstones.last())
    }
}

/// What a file tells of its rows.
#[derive(Debug, Clone, Copy)]
pub struct FileRange {
    pub time_min: i64,
    pub time_max: i64,
    pub row_count: usize,
}

pub open spec fn files_min(files: Seq<FileRange>) -> Option<i64>
    decreases files.len(),
{
    if files.len() == 0 {
        None
    } else {
        Some(merged_min(files_min(files.drop_last()), files.last().time_min))
    }
}

pub open spec fn files_max(files: Seq<FileRange>) -> Option<i64>
    decreases files.len(),
{
    if files.len() == 0 {
        None
    } else {
        Some(merged_max(files_max(files.drop_last()), files.last().time_max))
    }
}

pub open spec fn files_rows(files: Seq<FileRange>) -> nat
    decreases files.len(),
{
    if files.len() == 0 {
        0
    } else {
        files_rows(files.drop_last()) + files.last().row_count as nat
    }
}

/// Whether the rows of some files can be counted.
pub fn rows_fit(files: &Vec<FileRange>) -> (r: bool)
    ensures
        r == (files_rows(files@) <= i64::MAX),
{
    let mut rows: u64 = 0;
    let mut k: usize = 0;
    assert(files@.take(0) =~= Seq::<FileRange>::empty());
    while k < files.len()
        invariant
            k <= files@.len(),
            rows == files_rows(files@.take(k as int)),
            rows <= i64::MAX,
        decreases files@.len() - k,
    {
        assert(files@.take(k + 1).drop_last() =~= files@.take(k as int));
        proof {
            lemma_files_rows_prefix(files@, k + 1);
        }
        match rows.checked_add(files[k].row_count as u64) {
            Some(n) => {
                if n > i64::MAX as u64 {
                    return false;
                }
                rows = n;
            },
            None => {
                return false;
            },
        }
        k += 1;
    }
    assert(files@.take(k as int) =~= files@);
    true
}

impl MetadataStore {
    /// Notes files of a table whose rows were merged into another file.
    pub fn tombstone_files(&mut self, db: &str, table: &str, names: &Vec<String>, now_ms: i64)
        ensures
            final(self)@ == (StoreModel {
                tombstones: with_tombstones(
                    old(self)@.tombstones,
                    db@,
                    table@,
                    text::views(names@),
                    now_ms,
                ),
                ..old(self)@
            }),
    {
        let ghost before = self@.tombstones;
        let ghost f = |n: Seq<char>|
            TombstoneRow { db: db@, table: table@, file_name: n, created_at: now_ms };
        let ghost all = text::views(names@).map_values(f);
        let mut i: usize = 0;
        assert(before =~= before + all.take(0));
        while i < names.len()
            invariant
                i <= names@.len(),
                f == (|n: Seq<char>|
                    TombstoneRow { db: db@, table: table@, file_name: n, created_at: now_ms }),
                all == text::views(names@).map_values(f),
                self.databases == old(self).databases,
                self.tables == old(self).tables,
                tombstone_rows(self.tombstones@) == before + all.take(i as int),
            decreases names@.len() - i,
        {
            let ghost was = self.tombstones@;
            let t = Tombstone {
                db: db.to_owned(),
                table: table.to_owned(),
                file_name: names[i].clone(),
                created_at: now_ms,
            };
            self.tombstones.push(t);
            assert(tombstone_rows(self.tombstones@) =~= tombstone_rows(was).push(t@));
            assert(t@ =~= all[i as int]);
            assert(all.take(i + 1) =~= all.take(i as int).push(all[i as int]));
            i += 1;
        }
        assert(all.take(i as int) =~= all);
    }

    /// Forgets the tombstones from before a time.
    pub fn prune_tombstones(&mut self, cutoff_ms: i64)
        ensures
            final(self)@ == (StoreModel {
                tombstones: tombstones_from(old(self)@.tombstones, cutoff_ms),
                ..old(self)@
            }),
    {
        let ghost before = self@.tombstones;
        let mut kept: Vec<Tombstone> = Vec::new();
        let mut i: usize = 0;
        assert(tombstone_rows(kept@) =~= tombstones_from(before.take(0), cutoff_ms));
        while i < self.tombstones.len()
            invariant
                i <= self.tombstones@.len(),
                *self == *old(self),
                before == tombstone_rows(self.tombstones@),
                tombstone_rows(kept@) == tombstones_from(before.take(i as int), cutoff_ms),
            decreases self.tombstones@.len() - i,
        {
            let t = &self.tombstones[i];
            assert(before.take(i + 1).drop_last() =~= before.take(i as int));
            assert(before.take(i + 1).last() == t@);
            if t.created_at >= cutoff_ms {
                let ghost was = kept@;
                let copy = Tombstone {
                    db: t.db.clone(),
                    table: t.table.clone(),
                    file_name: t.file_name.clone(),
                    created_at: t.created_at,
                };
                kept.push(copy);
                assert(tombstone_rows(kept@) =~= tombstone_rows(was).push(copy@));
            }
            i += 1;
        }
        assert(before.take(i as int) =~= before);
        self.tombstones = kept;
    }

    /// Whether a file was merged into another file.
    pub fn tombstoned(&self, db: &str, table: &str, file_name: &str) -> (r: bool)
        ensures
            r == is_tombstoned(self@, db@, table@, file_name@),
    {
        let ghost rows = self@.tombstones;
        let mut i: usize = 0;
        while i < self.tombstones.len()
            invariant
                i <= self.tombstones@.len(),
                rows == self@.tombstones,
                forall|k: int|
                    0 <= k < i ==> !tombstone_for(#[trigger] rows[k], db@, table@, file_name@),
            decreases self.tombstones@.len() - i,
        {
            let t = &self.tombstones[i];
            assert(rows[i as int] == t@);
            if text::same(t.db.as_str(), db) && text::same(t.table.as_str(), table) && text::same(
                t.file_name.as_str(),
                file_name,
            ) {
                assert(tombstone_for(rows[i as int], db@, table@, file_name@));
                return true;
            }
            i += 1;
        }
        false
    }

    /// Replaces the statistics of a table by those of its files.
    pub fn recount_table(&mut self, db: &str, table: &str, files: &Vec<FileRange>, now_ms: i64)
        requires
            files_rows(files@) <= i64::MAX,
        ensures
            final(self)@ == with_row(
                old(self)@,
                TableRow {
                    time_min: files_min(files@),
                    time_max: files_max(files@),
                    total_rows: files_rows(files@) as i64,
                    updated_at: Some(now_ms),
                    ..row_or_new(old(self)@, db@, table@)
                },
            ),
    {
        let mut time_min: Option<i64> = None;
        let mut time_max: Option<i64> = None;
        let mut rows: i64 = 0;
        let mut k: usize = 0;
        assert(files@.take(0) =~= Seq::<FileRange>::empty());
        while k < files.len()
            invariant
                k <= files@.len(),
                files_rows(files@) <= i64::MAX,
                time_min == files_min(files@.take(k as int)),
                time_max == files_max(files@.take(k as int)),
                rows == files_rows(files@.take(k as int)),
            decreases files@.len() - k,
        {
            let f = files[k];
            assert(files@.take(k + 1).drop_last() =~= files@.take(k as int));
            assert(files@.take(k + 1).last() == f);
            proof {
                lemma_files_rows_prefix(files@, k + 1);
            }
            time_min = Some(
                match time_min {
                    Some(v) => if f.time_min < v {
                        f.time_min
                    } else {
                        v
                    },
                    None => f.time_min,
                },
            );
            time_max = Some(
                match time_max {
                    Some(v) => if f.time_max > v {
                        f.time_max
                    } else {
                        v
                    },
                    None => f.time_max,
                },
            );
            rows = rows + f.row_count as i64;
            k += 1;
        }
        assert(files@.take(k as int) =~= files@);
        let ghost before = self@;
        let i = self.ensure_table(db, table);
        let ghost middle = self@;
        let ghost row = row_or_new(before, db@, table@);
        proof {
            lemma_row_position(before.tables, db@, table@);
        }
        assert(self.tables@[i as int]@ == row);
        self.tables[i].time_min = time_min;
        self.tables[i].time_max = time_max;
        self.tables[i].total_rows = rows;
        self.tables[i].updated_at = Some(now_ms);
        let ghost after = TableRow {
            time_min: files_min(files@),
            time_max: files_max(files@),
            total_rows: files_rows(files@) as i64,
            updated_at: Some(now_ms),
            ..row
        };
        assert(self.tables@[i as int]@ =~= after);
        assert(self@.tables =~= middle.tables.update(i as int, after));
        assert(self@.tables =~= with_row(before, after).tables);
    }
}

proof fn lemma_files_rows_prefix(files: Seq<FileRange>, n: int)
    requires
        0 <= n <= files.len(),
    ensures
        files_rows(files.take(n)) <= files_rows(files),
    decreases files.len() - n,
{
    if n < files.len() {
        lemma_files_rows_prefix(files, n + 1);
        assert(files.take(n + 1).drop_last() =~= files.take(n));
    } else {
        assert(files.take(n) =~= files);
    }
}

proof fn lemma_sorted_has(names: Seq<Seq<char>>, i: int)
    requires
        0 <= i < text::sorted_names(names).len(),
    ensures
        names.contains(text::sorted_names(names)[i]),
{
    broadcast use vstd::seq_lib::group_to_multiset_ensures;

    text::sorting_orders_the_names(names);
    let sorted = text::sorted_names(names);
    assert(sorted.contains(sorted[i]));
    assert(sorted.to_multiset().count(sorted[i]) > 0);
    assert(names.to_multiset().count(sorted[i]) > 0);
}

proof fn lemma_named_table(tables: Seq<TableRow>, db: Seq<char>, name: Seq<char>)
    requires
        table_names(tables, db).contains(name),
    ensures
        row_position(tables, db, name) < tables.len(),
    decreases tables.len(),
{
    lemma_row_position(tables, db, name);
    let names = table_names(tables, db);
    let k = choose|k: int| 0 <= k < names.len() && names[k] == name;
    if tables.len() > 0 {
        let rest = tables.drop_last();
        if tables.last().db == db && k == names.len() - 1 {
            assert(tables[tables.len() - 1].table == name);
        } else {
            assert(table_names(rest, db)[k] == name);
            lemma_named_table(rest, db, name);
            lemma_row_position(rest, db, name);
            let p = row_position(rest, db, name);
            assert(tables[p] == rest[p]);
        }
    }
}

/// What is told of a table is read back, and every other table stays as it is.
pub proof fn put_then_read(s: StoreModel, row: TableRow, db: Seq<char>, table: Seq<char>)
    ensures
        row_of(with_row(s, row), row.db, row.table) == Some(row),
        db != row.db || table != row.table ==> row_of(with_row(s, row), db, table) == row_of(
            s,
            db,
            table,
        ),
        with_row(s, row).databases.contains(row.db),
{
    let after = with_row(s, row).tables;
    let before = s.tables;
    lemma_row_position(before, row.db, row.table);
    lemma_row_position(after, row.db, row.table);
    lemma_row_position(before, db, table);
    lemma_row_position(after, db, table);
    let i = row_position(before, row.db, row.table);
    let k = row_position(after, row.db, row.table);
    assert(forall|n: int|
        0 <= n < before.len() ==> (#[trigger] after[n]).db == before[n].db && after[n].table
            == before[n].table);
    assert(after[i] == row);
    if k < i {
        assert(after[k].db == before[k].db);
    }
    let dbs = with_row(s, row).databases;
    if !s.databases.contains(row.db) {
        assert(dbs.last() == row.db);
    }
    if db != row.db || table != row.table {
        let p = row_position(before, db, table);
        let q = row_position(after, db, table);
        if q < p && q < before.len() {
            assert(after[q].db == before[q].db);
        }
        if p < q && p < before.len() {
            assert(after[p].db == before[p].db);
        }
        if q < after.len() && q >= before.len() {
            assert(after[q] == row);
        }
    }
}

/// The range of time of a table only widens, and covers what was counted.
pub proof fn counting_widens_the_range(
    row: TableRow,
    time_min: i64,
    time_max: i64,
    row_count: usize,
    defs: Seq<(Seq<char>, Seq<char>)>,
    tag_keys: Seq<Seq<char>>,
    now_ms: i64,
)
    ensures
        ({
            let after = counted(row, time_min, time_max, row_count, defs, tag_keys, now_ms);
            &&& after.time_min is Some && after.time_min->0 <= time_min
            &&& after.time_max is Some && after.time_max->0 >= time_max
            &&& row.time_min is Some ==> after.time_min->0 <= row.time_min->0
            &&& row.time_max is Some ==> after.time_max->0 >= row.time_max->0
        }),
{
}

pub open spec fn fields_distinct(fields: Seq<FieldRow>) -> bool {
    forall|i: int, j: int|
        #![trigger fields[i], fields[j]]
        0 <= i < j < fields.len() ==> fields[i].name != fields[j].name || fields[i].is_tag
            != fields[j].is_tag
}

proof fn lemma_with_field(fields: Seq<FieldRow>, field: FieldRow)
    requires
        fields_distinct(fields),
    ensures
        fields_distinct(with_field(fields, field)),
        fields.is_prefix_of(with_field(fields, field)),
{
    let after = with_field(fields, field);
    assert forall|i: int, j: int|
        #![trigger after[i], after[j]]
        0 <= i < j < after.len() implies after[i].name != after[j].name || after[i].is_tag
        != after[j].is_tag by {
        assert(after[i] == fields[i]);
        if j < fields.len() {
            assert(after[j] == fields[j]);
        }
    }
}

/// No field is known twice, and what is known of a field never changes.
pub proof fn fields_are_only_added(
    fields: Seq<FieldRow>,
    defs: Seq<(Seq<char>, Seq<char>)>,
    tag_keys: Seq<Seq<char>>,
)
    requires
        fields_distinct(fields),
    ensures
        fields_distinct(with_tags(with_fields(fields, defs), tag_keys)),
        fields.is_prefix_of(with_tags(with_fields(fields, defs), tag_keys)),
    decreases defs.len() + tag_keys.len(),
{
    if tag_keys.len() > 0 {
        fields_are_only_added(fields, defs, tag_keys.drop_last());
        lemma_with_field(
            with_tags(with_fields(fields, defs), tag_keys.drop_last()),
            FieldRow { name: tag_keys.last(), value_type: "String"@, is_tag: true },
        );
    } else if defs.len() > 0 {
        fields_are_only_added(fields, defs.drop_last(), tag_keys);
        assert(with_tags(with_fields(fields, defs.drop_last()), tag_keys) == with_fields(
            fields,
            defs.drop_last(),
        ));
        lemma_with_field(
            with_fields(fields, defs.drop_last()),
            FieldRow { name: defs.last().0, value_type: defs.last().1, is_tag: false },
        );
    }
}

/// A file that was merged into another is known as such from then on.
pub proof fn merged_files_are_known(
    s: StoreModel,
    db: Seq<char>,
    table: Seq<char>,
    names: Seq<Seq<char>>,
    now_ms: i64,
    name: Seq<char>,
)
    requires
        names.contains(name),
    ensures
        is_tombstoned(
            StoreModel {
                tombstones: with_tombstones(s.tombstones, db, table, names, now_ms),
                ..s
            },
            db,
            table,
            name,
        ),
{
    let after = StoreModel {
        tombstones: with_tombstones(s.tombstones, db, table, names, now_ms),
        ..s
    };
    let k = choose|k: int| 0 <= k < names.len() && names[k] == name;
    let row = after.tombstones[s.tombstones.len() + k];
    assert(row.file_name == name);
    assert(tombstone_for(row, db, table, name));
}

/// Forgetting old tombstones keeps those from the given time on, and no others.
pub proof fn fresh_tombstones_stay(
    tombstones: Seq<TombstoneRow>,
    cutoff_ms: i64,
    t: TombstoneRow,
)
    ensures
        tombstones_from(tombstones, cutoff_ms).contains(t) <==> tombstones.contains(t)
            && t.created_at >= cutoff_ms,
    decreases tombstones.len(),
{
    if tombstones.len() > 0 {
        let front = tombstones.drop_last();
        fresh_tombstones_stay(front, cutoff_ms, t);
        assert(tombstones =~= front.push(tombstones.last()));
        vstd::seq_lib::lemma_seq_contains_after_push(front, tombstones.last(), t);
        vstd::seq_lib::lemma_seq_contains_after_push(
            tombstones_from(front, cutoff_ms),
            tombstones.last(),
            t,
        );
    }
}

} // verus!
