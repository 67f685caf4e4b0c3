//! The rows that an agent holds in memory: chunks of rows, tables of chunks.

use crate::text;
use vstd::prelude::*;

verus! {

#[derive(Debug, Clone, Copy, PartialEq, Eq, Structural)]
pub enum FieldType {
    F64,
    I64,
    U64,
    Bool,
    String,
}

/// The value of a field. `F64` holds the bits of a floating-point number.
#[derive(Debug)]
pub enum FieldValue {
    F64(u64),
    I64(i64),
    U64(u64),
    Bool(bool),
    String(String),
}

/// What a field value is, its text as a sequence of characters.
pub enum FieldModel {
    F64(u64),
    I64(i64),
    U64(u64),
    Bool(bool),
    Text(Seq<char>),
}

#[derive(Debug)]
pub struct FieldDef {
    pub name: String,
    pub value_type: FieldType,
}

/// One point: its time in nanoseconds, the values of its tags and of its fields.
#[derive(Debug)]
pub struct Row {
    pub time: i64,
    pub tag_values: Vec<String>,
    pub field_values: Vec<Option<FieldValue>>,
}

#[verifier::ext_equal]
pub struct RowModel {
    pub time: i64,
    pub tags: Seq<Seq<char>>,
    pub fields: Seq<Option<FieldModel>>,
}

/// The rows of a chunk that have one value of one tag.
#[derive(Debug)]
pub struct TagEntry {
    pub key: String,
    pub value: String,
    pub rows: Vec<usize>,
}

/// For each tag and each of its values, the positions of the rows that have it.
#[derive(Debug)]
pub struct TagIndex {
    pub entries: Vec<TagEntry>,
}

/// The rows of one table that belong to one interval of time.
#[derive(Debug)]
pub struct Chunk {
    pub chunk_time: i64,
    pub rows: Vec<Row>,
    pub tag_index: TagIndex,
    /// Least time of an inserted row; `i64::MAX` without one.
    pub time_min: i64,
    /// Greatest time of an inserted row; `i64::MIN` without one.
    pub time_max: i64,
    /// Least number of a log file that holds a row; `u64::MAX` without one.
    pub min_wal_seq: u64,
    /// Greatest number of a log file that holds a row; 0 without one.
    pub max_wal_seq: u64,
}

#[verifier::ext_equal]
pub struct ChunkModel {
    pub chunk_time: i64,
    pub rows: Seq<RowModel>,
    pub index: spec_fn((Seq<char>, Seq<char>)) -> Seq<usize>,
    pub time_min: i64,
    pub time_max: i64,
    pub min_wal_seq: u64,
    pub max_wal_seq: u64,
}

#[derive(Debug)]
pub struct TableSchema {
    pub tag_keys: Vec<String>,
    pub field_defs: Vec<FieldDef>,
}

#[verifier::ext_equal]
pub struct SchemaModel {
    pub tag_keys: Seq<Seq<char>>,
    pub fields: Seq<(Seq<char>, FieldType)>,
}

#[derive(Debug)]
pub struct Table {
    pub name: String,
    pub schema: TableSchema,
    pub chunks: Vec<Chunk>,
}

#[verifier::ext_equal]
pub struct TableModel {
    pub schema: SchemaModel,
    pub chunks: Seq<ChunkModel>,
}

impl View for FieldValue {
    type V = FieldModel;

    open spec fn view(&self) -> FieldModel {
        match self {
            FieldValue::F64(bits) => FieldModel::F64(*bits),
            FieldValue::I64(n) => FieldModel::I64(*n),
            FieldValue::U64(n) => FieldModel::U64(*n),
            FieldValue::Bool(b) => FieldModel::Bool(*b),
            FieldValue::String(s) => FieldModel::Text(s@),
        }
    }
}

pub open spec fn field_model(v: Option<FieldValue>) -> Option<FieldModel> {
    match v {
        Some(value) => Some(value@),
        None => None,
    }
}

impl View for Row {
    type V = RowModel;

    open spec fn view(&self) -> RowModel {
        RowModel {
            time: self.time,
            tags: text::views(self.tag_values@),
            fields: self.field_values@.map_values(|v: Option<FieldValue>| field_model(v)),
        }
    }
}

pub open spec fn row_models(rows: Seq<Row>) -> Seq<RowModel> {
    rows.map_values(|r: Row| r@)
}

/// The positions that the entries list for a tag and a value; none without an entry.
pub open spec fn listed(entries: Seq<TagEntry>, key: Seq<char>, value: Seq<char>) -> Seq<usize>
    decreases entries.len(),
{
    if entries.len() == 0 {
        Seq::empty()
    } else if entries.last().key@ == key && entries.last().value@ == value {
        entries.last().rows@
    } else {
        listed(entries.drop_last(), key, value)
    }
}

impl TagIndex {
    /// No two entries are for the same tag and value.
    pub open spec fn wf(&self) -> bool {
        forall|i: int, j: int|
            #![trigger self.entries@[i], self.entries@[j]]
            0 <= i < j < self.entries@.len() ==> self.entries@[i].key@ != self.entries@[j].key@
                || self.entries@[i].value@ != self.entries@[j].value@
    }

    pub open spec fn rows_with(&self, key: Seq<char>, value: Seq<char>) -> Seq<usize> {
        listed(self.entries@, key, value)
    }
}

impl View for Chunk {
    type V = ChunkModel;

    open spec fn view(&self) -> ChunkModel {
        ChunkModel {
            chunk_time: self.chunk_time,
            rows: row_models(self.rows@),
            index: |p: (Seq<char>, Seq<char>)| self.tag_index.rows_with(p.0, p.1),
            time_min: self.time_min,
            time_max: self.time_max,
            min_wal_seq: self.min_wal_seq,
            max_wal_seq: self.max_wal_seq,
        }
    }
}

pub open spec fn new_chunk(chunk_time: i64) -> ChunkModel {
    ChunkModel {
        chunk_time,
        rows: Seq::empty(),
        index: |p: (Seq<char>, Seq<char>)| Seq::empty(),
        time_min: i64::MAX,
        time_max: i64::MIN,
        min_wal_seq: u64::MAX,
        max_wal_seq: 0,
    }
}

pub open spec fn min_i64(a: i64, b: i64) -> i64 {
    if b < a {
        b
    } else {
        a
    }
}

pub open spec fn max_i64(a: i64, b: i64) -> i64 {
    if b > a {
        b
    } else {
        a
    }
}

pub open spec fn min_u64(a: u64, b: u64) -> u64 {
    if b < a {
        b
    } else {
        a
    }
}

pub open spec fn max_u64(a: u64, b: u64) -> u64 {
    if b > a {
        b
    } else {
        a
    }
}

/// The chunk with one more row, from the log file `wal_seq`; the index is left as it is.
pub open spec fn with_row(c: ChunkModel, row: RowModel, wal_seq: u64) -> ChunkModel {
    ChunkModel {
        rows: c.rows.push(row),
        time_min: min_i64(c.time_min, row.time),
        time_max: max_i64(c.time_max, row.time),
        min_wal_seq: min_u64(c.min_wal_seq, wal_seq),
        max_wal_seq: max_u64(c.max_wal_seq, wal_seq),
        ..c
    }
}

impl View for TableSchema {
    type V = SchemaModel;

    open spec fn view(&self) -> SchemaModel {
        SchemaModel {
            tag_keys: text::views(self.tag_keys@),
            fields: self.field_defs@.map_values(|f: FieldDef| (f.name@, f.value_type)),
        }
    }
}

/// The schema with the tag `key`, appended where it is new.
pub open spec fn with_tag(s: SchemaModel, key: Seq<char>) -> SchemaModel {
    if s.tag_keys.contains(key) {
        s
    } else {
        SchemaModel { tag_keys: s.tag_keys.push(key), ..s }
    }
}

pub open spec fn has_field(s: SchemaModel, name: Seq<char>) -> bool {
    exists|i: int| 0 <= i < s.fields.len() && (#[trigger] s.fields[i]).0 == name
}

/// The schema with the field `name`, appended where it is new; a field keeps its first type.
pub open spec fn with_field(s: SchemaModel, name: Seq<char>, value_type: FieldType) -> SchemaModel {
    if has_field(s, name) {
        s
    } else {
        SchemaModel { fields: s.fields.push((name, value_type)), ..s }
    }
}

impl View for Table {
    type V = TableModel;

    open spec fn view(&self) -> TableModel {
        TableModel { schema: self.schema@, chunks: chunk_models(self.chunks@) }
    }
}

pub open spec fn chunk_models(chunks: Seq<Chunk>) -> Seq<ChunkModel> {
    chunks.map_values(|c: Chunk| c@)
}

pub open spec fn new_table() -> TableModel {
    TableModel {
        schema: SchemaModel { tag_keys: Seq::empty(), fields: Seq::empty() },
        chunks: Seq::empty(),
    }
}

/// The position of the first chunk of a given time, or the number of chunks.
pub open spec fn chunk_position(chunks: Seq<ChunkModel>, chunk_time: i64) -> int
    decreases chunks.len(),
{
    if chunks.len() == 0 {
        0
    } else if chunks[0].chunk_time == chunk_time {
        0
    } else {
        1 + chunk_position(chunks.drop_first(), chunk_time)
    }
}

/// The chunks with one of a given time: as they are, or with a new one at the end.
pub open spec fn with_chunk(chunks: Seq<ChunkModel>, chunk_time: i64) -> Seq<ChunkModel> {
    if chunk_position(chunks, chunk_time) < chunks.len() {
        chunks
    } else {
        chunks.push(new_chunk(chunk_time))
    }
}

/// Whether no two chunks have the same time.
pub open spec fn times_once(chunks: Seq<ChunkModel>) -> bool {
    forall|i: int, j: int|
        #![trigger chunks[i], chunks[j]]
        0 <= i < j < chunks.len() ==> chunks[i].chunk_time != chunks[j].chunk_time
}

/// The position of the first chunk of a given time, by what it says of the chunks before it.
pub proof fn lemma_chunk_position(chunks: Seq<ChunkModel>, chunk_time: i64)
    ensures
        0 <= chunk_position(chunks, chunk_time) <= chunks.len(),
        forall|i: int|
            0 <= i < chunk_position(chunks, chunk_time) ==> (#[trigger] chunks[i]).chunk_time
                != chunk_time,
        chunk_position(chunks, chunk_time) < chunks.len() ==> chunks[chunk_position(
            chunks,
            chunk_time,
        )].chunk_time == chunk_time,
    decreases chunks.len(),
{
    if chunks.len() > 0 && chunks[0].chunk_time != chunk_time {
        let rest = chunks.drop_first();
        lemma_chunk_position(rest, chunk_time);
        assert forall|i: int| 0 <= i < chunk_position(chunks, chunk_time) implies (
        #[trigger] chunks[i]).chunk_time != chunk_time by {
            if i > 0 {
                assert(rest[i - 1] == chunks[i]);
            }
        }
    }
}

/// The estimated bytes of a field value.
pub open spec fn field_size(f: Option<FieldModel>) -> nat {
    match f {
        Some(FieldModel::Text(s)) => vstd::utf8::encode_utf8(s).len(),
        Some(FieldModel::Bool(_)) => 1,
        Some(_) => 8,
        None => 0,
    }
}

pub open spec fn fields_size(fields: Seq<Option<FieldModel>>) -> nat
    decreases fields.len(),
{
    if fields.len() == 0 {
        0
    } else {
        fields_size(fields.drop_last()) + field_size(fields.last())
    }
}

pub open spec fn tags_size(tags: Seq<Seq<char>>) -> nat
    decreases tags.len(),
{
    if tags.len() == 0 {
        0
    } else {
        tags_size(tags.drop_last()) + vstd::utf8::encode_utf8(tags.last()).len()
    }
}

/// The estimated bytes of some rows: time, tags and fields of each.
pub open spec fn rows_size(rows: Seq<RowModel>) -> nat
    decreases rows.len(),
{
    if rows.len() == 0 {
        0
    } else {
        rows_size(rows.drop_last()) + 8 + tags_size(rows.last().tags) + fields_size(
            rows.last().fields,
        )
    }
}

pub open spec fn chunks_size(chunks: Seq<ChunkModel>) -> nat
    decreases chunks.len(),
{
    if chunks.len() == 0 {
        0
    } else {
        chunks_size(chunks.drop_last()) + rows_size(chunks.last().rows)
    }
}

/// A size as the machine holds it: at most the greatest number of its word.
pub open spec fn capped(n: nat) -> usize {
    if n <= usize::MAX {
        n as usize
    } else {
        usize::MAX
    }
}

impl FieldType {
    /// The name by which a schema report writes the type.
    pub open spec fn spec_name(self) -> Seq<char> {
        match self {
            FieldType::F64 => "F64"@,
            FieldType::I64 => "I64"@,
            FieldType::U64 => "U64"@,
            FieldType::Bool => "Bool"@,
            FieldType::String => "String"@,
        }
    }

    pub fn name(&self) -> (r: &'static str)
        ensures
            r@ == self.spec_name(),
    {
        match self {
            FieldType::F64 => "F64",
            FieldType::I64 => "I64",
            FieldType::U64 => "U64",
            FieldType::Bool => "Bool",
            FieldType::String => "String",
        }
    }
}

/// The type of a field value.
pub open spec fn type_of(v: FieldModel) -> FieldType {
    match v {
        FieldModel::F64(_) => FieldType::F64,
        FieldModel::I64(_) => FieldType::I64,
        FieldModel::U64(_) => FieldType::U64,
        FieldModel::Bool(_) => FieldType::Bool,
        FieldModel::Text(_) => FieldType::String,
    }
}

impl FieldValue {
    pub fn field_type(&self) -> (r: FieldType)
        ensures
            r == type_of(self@),
    {
        match self {
            FieldValue::F64(_) => FieldType::F64,
            FieldValue::I64(_) => FieldType::I64,
            FieldValue::U64(_) => FieldType::U64,
            FieldValue::Bool(_) => FieldType::Bool,
            FieldValue::String(_) => FieldType::String,
        }
    }
}

impl Clone for FieldValue {
    fn clone(&self) -> (r: Self)
        ensures
            r == *self,
    {
        match self {
            FieldValue::F64(bits) => FieldValue::F64(*bits),
            FieldValue::I64(n) => FieldValue::I64(*n),
            FieldValue::U64(n) => FieldValue::U64(*n),
            FieldValue::Bool(b) => FieldValue::Bool(*b),
            FieldValue::String(s) => FieldValue::String(s.clone()),
        }
    }
}

impl Clone for FieldDef {
    fn clone(&self) -> (r: Self)
        ensures
            r == *self,
    {
        FieldDef { name: self.name.clone(), value_type: self.value_type }
    }
}

impl Clone for Row {
    fn clone(&self) -> (r: Self)
        ensures
            r@ == self@,
    {
        let mut field_values: Vec<Option<FieldValue>> = Vec::new();
        let mut i: usize = 0;
        while i < self.field_values.len()
            invariant
                i <= self.field_values@.len(),
                field_values@ == self.field_values@.take(i as int),
            decreases self.field_values@.len() - i,
        {
            let v = match &self.field_values[i] {
                Some(value) => Some(value.clone()),
                None => None,
            };
            field_values.push(v);
            assert(self.field_values@.take(i + 1) =~= self.field_values@.take(i as int).push(v));
            i += 1;
        }
        assert(self.field_values@.take(i as int) =~= self.field_values@);
        Row { time: self.time, tag_values: text::copy_list(&self.tag_values), field_values }
    }
}

impl Clone for TagIndex {
    fn clone(&self) -> (r: Self)
        ensures
            self.wf() ==> r.wf(),
            forall|key: Seq<char>, value: Seq<char>|
                #[trigger] r.rows_with(key, value) == self.rows_with(key, value),
    {
        let mut entries: Vec<TagEntry> = Vec::new();
        let mut i: usize = 0;
        while i < self.entries.len()
            invariant
                i <= self.entries@.len(),
                entries@.len() == i,
                forall|k: int|
                    0 <= k < i ==> (#[trigger] entries@[k]).key@ == self.entries@[k].key@
                        && entries@[k].value@ == self.entries@[k].value@ && entries@[k].rows@
                        == self.entries@[k].rows@,
            decreases self.entries@.len() - i,
        {
            let e = &self.entries[i];
            entries.push(
                TagEntry { key: e.key.clone(), value: e.value.clone(), rows: copy_positions(&e.rows) },
            );
            i += 1;
        }
        let r = TagIndex { entries };
        assert forall|key: Seq<char>, value: Seq<char>| #[trigger]
            r.rows_with(key, value) == self.rows_with(key, value) by {
            lemma_listed_same(r.entries@, self.entries@, key, value);
        }
        r
    }
}

proof fn lemma_listed_same(
    a: Seq<TagEntry>,
    b: Seq<TagEntry>,
    key: Seq<char>,
    value: Seq<char>,
)
    requires
        a.len() == b.len(),
        forall|k: int|
            0 <= k < a.len() ==> (#[trigger] a[k]).key@ == b[k].key@ && a[k].value@ == b[k].value@
                && a[k].rows@ == b[k].rows@,
    ensures
        listed(a, key, value) == listed(b, key, value),
    decreases a.len(),
{
    if a.len() > 0 {
        lemma_listed_same(a.drop_last(), b.drop_last(), key, value);
    }
}

/// A copy of a list of row positions.
pub fn copy_positions(list: &Vec<usize>) -> (r: Vec<usize>)
    ensures
        r@ == list@,
{
    let mut r: Vec<usize> = Vec::new();
    let mut i: usize = 0;
    while i < list.len()
        invariant
            i <= list@.len(),
            r@ == list@.take(i as int),
        decreases list@.len() - i,
    {
        r.push(list[i]);
        assert(list@.take(i + 1) =~= list@.take(i as int).push(list@[i as int]));
        i += 1;
    }
    assert(list@.take(i as int) =~= list@);
    r
}

/// A copy of a list of rows.
pub fn copy_rows(list: &Vec<Row>) -> (r: Vec<Row>)
    ensures
        row_models(r@) == row_models(list@),
{
    let mut r: Vec<Row> = Vec::new();
    let mut i: usize = 0;
    while i < list.len()
        invariant
            i <= list@.len(),
            r@.len() == i,
            forall|k: int| 0 <= k < i ==> (#[trigger] r@[k])@ == list@[k]@,
        decreases list@.len() - i,
    {
        r.push(list[i].clone());
        i += 1;
    }
    assert(row_models(r@) =~= row_models(list@));
    r
}

impl Clone for Chunk {
    fn clone(&self) -> (r: Self)
        ensures
            r@ == self@,
            self.tag_index.wf() ==> r.tag_index.wf(),
    {
        let r = Chunk {
            chunk_time: self.chunk_time,
            rows: copy_rows(&self.rows),
            tag_index: self.tag_index.clone(),
            time_min: self.time_min,
            time_max: self.time_max,
            min_wal_seq: self.min_wal_seq,
            max_wal_seq: self.max_wal_seq,
        };
        assert(r@.index =~= self@.index);
        r
    }
}

/// An entry's positions are what the index lists for its tag and value.
proof fn lemma_listed_at(entries: Seq<TagEntry>, i: int)
    requires
        0 <= i < entries.len(),
        forall|a: int, b: int|
            #![trigger entries[a], entries[b]]
            0 <= a < b < entries.len() ==> entries[a].key@ != entries[b].key@ || entries[a].value@
                != entries[b].value@,
    ensures
        listed(entries, entries[i].key@, entries[i].value@) == entries[i].rows@,
    decreases entries.len(),
{
    if i < entries.len() - 1 {
        lemma_listed_at(entries.drop_last(), i);
        assert(entries.drop_last()[i] == entries[i]);
    }
}

/// Without an entry for a tag and value, nothing is listed for them.
proof fn lemma_listed_none(entries: Seq<TagEntry>, key: Seq<char>, value: Seq<char>)
    requires
        forall|i: int|
            0 <= i < entries.len() ==> (#[trigger] entries[i]).key@ != key || entries[i].value@
                != value,
    ensures
        listed(entries, key, value) == Seq::<usize>::empty(),
    decreases entries.len(),
{
    if entries.len() > 0 {
        lemma_listed_none(entries.drop_last(), key, value);
    }
}

/// Changing the positions of one entry changes nothing for other tags and values.
proof fn lemma_listed_update(
    entries: Seq<TagEntry>,
    i: int,
    entry: TagEntry,
    key: Seq<char>,
    value: Seq<char>,
)
    requires
        0 <= i < entries.len(),
        entry.key@ == entries[i].key@,
        entry.value@ == entries[i].value@,
        entry.key@ != key || entry.value@ != value,
    ensures
        listed(entries.update(i, entry), key, value) == listed(entries, key, value),
    decreases entries.len(),
{
    let changed = entries.update(i, entry);
    if i == entries.len() - 1 {
        assert(changed.drop_last() =~= entries.drop_last());
    } else {
        assert(changed.drop_last() =~= entries.drop_last().update(i, entry));
        lemma_listed_update(entries.drop_last(), i, entry, key, value);
    }
}

impl TagIndex {
    pub fn new() -> (r: TagIndex)
        ensures
            r.wf(),
            forall|key: Seq<char>, value: Seq<char>|
                #[trigger] r.rows_with(key, value) == Seq::<usize>::empty(),
    {
        TagIndex { entries: Vec::new() }
    }

    /// The position of the entry for a tag and value.
    fn find(&self, key: &str, value: &str) -> (r: Option<usize>)
        ensures
            match r {
                Some(i) => i < self.entries@.len() && self.entries@[i as int].key@ == key@
                    && self.entries@[i as int].value@ == value@,
                None => forall|i: int|
                    0 <= i < self.entries@.len() ==> (#[trigger] self.entries@[i]).key@ != key@
                        || self.entries@[i].value@ != value@,
            },
    {
        let mut i: usize = 0;
        while i < self.entries.len()
            invariant
                i <= self.entries@.len(),
                forall|k: int|
                    0 <= k < i ==> (#[trigger] self.entries@[k]).key@ != key@
                        || self.entries@[k].value@ != value@,
            decreases self.entries@.len() - i,
        {
            if text::same(self.entries[i].key.as_str(), key) && text::same(
                self.entries[i].value.as_str(),
                value,
            ) {
                return Some(i);
            }
            i += 1;
        }
        None
    }

    /// The positions of the rows with `value` for the tag `key`, where there is one.
    pub fn get(&self, key: &str, value: &str) -> (r: Option<&Vec<usize>>)
        requires
            self.wf(),
        ensures
            match r {
                Some(rows) => rows@ == self.rows_with(key@, value@),
                None => self.rows_with(key@, value@).len() == 0,
            },
    {
        match self.find(key, value) {
            Some(i) => {
                proof {
                    lemma_listed_at(self.entries@, i as int);
                }
                Some(&self.entries[i].rows)
            },
            None => {
                proof {
                    lemma_listed_none(self.entries@, key@, value@);
                }
                None
            },
        }
    }

    /// Lists one more row for a tag and value.
    pub fn add(&mut self, key: &str, value: &str, row: usize)
        requires
            old(self).wf(),
        ensures
            final(self).wf(),
            final(self).rows_with(key@, value@) == old(self).rows_with(key@, value@).push(row),
            forall|k: Seq<char>, v: Seq<char>|
                k != key@ || v != value@ ==> #[trigger] final(self).rows_with(k, v) == old(
                    self,
                ).rows_with(k, v),
    {
        let ghost before = self.entries@;
        match self.find(key, value) {
            Some(i) => {
                let mut rows = copy_positions(&self.entries[i].rows);
                rows.push(row);
                let entry = TagEntry {
                    key: self.entries[i].key.clone(),
                    value: self.entries[i].value.clone(),
                    rows,
                };
                self.entries.set(i, entry);
                proof {
                    lemma_listed_at(before, i as int);
                    lemma_listed_at(self.entries@, i as int);
                    assert forall|k: Seq<char>, v: Seq<char>|
                        k != key@ || v != value@ implies #[trigger] self.rows_with(k, v) == listed(
                        before,
                        k,
                        v,
                    ) by {
                        lemma_listed_update(before, i as int, entry, k, v);
                    }
                }
            },
            None => {
                let mut rows: Vec<usize> = Vec::new();
                rows.push(row);
                proof {
                    lemma_listed_none(before, key@, value@);
                }
                self.entries.push(
                    TagEntry { key: key.to_owned(), value: value.to_owned(), rows },
                );
                assert(self.entries@.drop_last() =~= before);
                assert(rows@ =~= Seq::<usize>::empty().push(row));
            },
        }
    }
}

impl Chunk {
    pub open spec fn wf(&self) -> bool {
        self.tag_index.wf()
    }

    pub fn new(chunk_time: i64) -> (r: Chunk)
        ensures
            r@ == new_chunk(chunk_time),
            r.wf(),
    {
        let r = Chunk {
            chunk_time,
            rows: Vec::new(),
            tag_index: TagIndex::new(),
            time_min: i64::MAX,
            time_max: i64::MIN,
            min_wal_seq: u64::MAX,
            max_wal_seq: 0,
        };
        assert(r@.index =~= new_chunk(chunk_time).index);
        r
    }

    pub fn row_count(&self) -> (r: usize)
        ensures
            r == self@.rows.len(),
    {
        self.rows.len()
    }

    /// Adds a row that the log file `wal_seq` holds.
    pub fn insert(&mut self, row: Row, wal_seq: u64)
        ensures
            final(self)@ == with_row(old(self)@, row@, wal_seq),
            final(self).tag_index == old(self).tag_index,
    {
        let ghost before = *self;
        if row.time < self.time_min {
            self.time_min = row.time;
        }
        if row.time > self.time_max {
            self.time_max = row.time;
        }
        if wal_seq < self.min_wal_seq {
            self.min_wal_seq = wal_seq;
        }
        if wal_seq > self.max_wal_seq {
            self.max_wal_seq = wal_seq;
        }
        self.rows.push(row);
        assert(row_models(self.rows@) =~= row_models(before.rows@).push(row@));
        assert(self@.index =~= before@.index);
    }

    /// The estimated bytes of the rows.
    pub fn estimated_size(&self) -> (r: usize)
        ensures
            r == capped(rows_size(self@.rows)),
    {
        let mut total: usize = 0;
        let mut i: usize = 0;
        while i < self.rows.len()
            invariant
                i <= self.rows@.len(),
                total == capped(rows_size(self@.rows.take(i as int))),
            decreases self.rows@.len() - i,
        {
            let size = row_size(&self.rows[i]);
            assert(self@.rows.take(i + 1).drop_last() =~= self@.rows.take(i as int));
            total = total.saturating_add(size);
            i += 1;
        }
        assert(self@.rows.take(i as int) =~= self@.rows);
        total
    }
}

/// The estimated bytes of one row.
fn row_size(row: &Row) -> (r: usize)
    ensures
        r == capped(8 + tags_size(row@.tags) + fields_size(row@.fields)),
{
    let mut total: usize = 8;
    let mut i: usize = 0;
    while i < row.tag_values.len()
        invariant
            i <= row.tag_values@.len(),
            total == capped(8 + tags_size(row@.tags.take(i as int))),
        decreases row.tag_values@.len() - i,
    {
        let bytes = row.tag_values[i].as_str().as_bytes();
        assert(row@.tags.take(i + 1).drop_last() =~= row@.tags.take(i as int));
        total = total.saturating_add(bytes.len());
        i += 1;
    }
    assert(row@.tags.take(i as int) =~= row@.tags);
    let mut j: usize = 0;
    while j < row.field_values.len()
        invariant
            j <= row.field_values@.len(),
            total == capped(8 + tags_size(row@.tags) + fields_size(row@.fields.take(j as int))),
        decreases row.field_values@.len() - j,
    {
        let size: usize = match &row.field_values[j] {
            Some(FieldValue::String(s)) => s.as_str().as_bytes().len(),
            Some(FieldValue::Bool(_)) => 1,
            Some(_) => 8,
            None => 0,
        };
        assert(row@.fields.take(j + 1).drop_last() =~= row@.fields.take(j as int));
        total = total.saturating_add(size);
        j += 1;
    }
    assert(row@.fields.take(j as int) =~= row@.fields);
    total
}

impl TableSchema {
    pub fn new() -> (r: TableSchema)
        ensures
            r@ == new_table().schema,
    {
        let r = TableSchema { tag_keys: Vec::new(), field_defs: Vec::new() };
        assert(r@ =~= new_table().schema);
        r
    }

    /// Adds the tag `key` where it is new.
    pub fn ensure_tag_key(&mut self, key: &str)
        ensures
            final(self)@ == with_tag(old(self)@, key@),
    {
        let ghost before = self@;
        match text::position_of(&self.tag_keys, key) {
            Some(i) => {
                assert(before.tag_keys[i as int] == key@);
            },
            None => {
                assert(!before.tag_keys.contains(key@)) by {
                    if before.tag_keys.contains(key@) {
                        let k = choose|k: int|
                            0 <= k < before.tag_keys.len() && before.tag_keys[k] == key@;
                        assert(self.tag_keys@[k]@ == key@);
                    }
                }
                self.tag_keys.push(key.to_owned());
                assert(self@ =~= with_tag(before, key@));
            },
        }
    }

    /// Adds the field `name` where it is new. A field that exists keeps its type; a
    /// different one is refused with the type that the field has.
    pub fn ensure_field(&mut self, name: &str, value_type: FieldType) -> (r: Result<(), FieldType>)
        ensures
            final(self)@ == with_field(old(self)@, name@, value_type),
            r is Err ==> r->Err_0 != value_type && exists|i: int|
                0 <= i < old(self)@.fields.len() && #[trigger] old(self)@.fields[i] == (name@, r->Err_0),
            r is Ok ==> !has_field(old(self)@, name@) || exists|i: int|
                0 <= i < old(self)@.fields.len() && #[trigger] old(self)@.fields[i] == (
                    name@,
                    value_type,
                ),
    {
        let ghost before = self@;
        let mut i: usize = 0;
        while i < self.field_defs.len()
            invariant
                i <= self.field_defs@.len(),
                before == self@,
                *self == *old(self),
                forall|k: int| 0 <= k < i ==> (#[trigger] before.fields[k]).0 != name@,
            decreases self.field_defs@.len() - i,
        {
            if text::same(self.field_defs[i].name.as_str(), name) {
                assert(before.fields[i as int].0 == name@);
                if self.field_defs[i].value_type == value_type {
                    return Ok(());
                }
                return Err(self.field_defs[i].value_type);
            }
            i += 1;
        }
        self.field_defs.push(FieldDef { name: name.to_owned(), value_type });
        assert(self@ =~= with_field(before, name@, value_type));
        Ok(())
    }
}

impl Table {
    pub open spec fn wf(&self) -> bool {
        forall|i: int| 0 <= i < self.chunks@.len() ==> (#[trigger] self.chunks@[i]).wf()
    }

    pub fn new(name: &str) -> (r: Table)
        ensures
            r.name@ == name@,
            r@ == new_table(),
            r.wf(),
    {
        let r = Table { name: name.to_owned(), schema: TableSchema::new(), chunks: Vec::new() };
        assert(r@ =~= new_table());
        r
    }

    /// The chunk of a given time, made where there is none.
    pub fn get_or_create_chunk(&mut self, chunk_time: i64) -> (r: &mut Chunk)
        requires
            old(self).wf(),
        ensures
            r@ == with_chunk(old(self)@.chunks, chunk_time)[chunk_position(
                old(self)@.chunks,
                chunk_time,
            )],
            r.wf(),
            final(self)@ == (TableModel {
                chunks: with_chunk(old(self)@.chunks, chunk_time).update(
                    chunk_position(old(self)@.chunks, chunk_time),
                    final(r)@,
                ),
                ..old(self)@
            }),
            final(self).name == old(self).name,
            final(self).schema == old(self).schema,
            final(r).wf() ==> final(self).wf(),
    {
        let ghost before = self@;
        let ghost before_chunks = self.chunks@;
        proof {
            lemma_chunk_position(before.chunks, chunk_time);
        }
        let mut i: usize = 0;
        while i < self.chunks.len() && self.chunks[i].chunk_time != chunk_time
            invariant
                i <= self.chunks@.len(),
                *self == *old(self),
                forall|k: int| 0 <= k < i ==> (#[trigger] self.chunks@[k]).chunk_time != chunk_time,
            decreases self.chunks@.len() - i,
        {
            i += 1;
        }
        assert(i == chunk_position(before.chunks, chunk_time)) by {
            let p = chunk_position(before.chunks, chunk_time);
            if p < i {
                assert(before.chunks[p].chunk_time == before_chunks[p].chunk_time);
            }
            if i < p {
                assert(before.chunks[i as int].chunk_time == before_chunks[i as int].chunk_time);
            }
        }
        if i == self.chunks.len() {
            self.chunks.push(Chunk::new(chunk_time));
        }
        assert(self@.chunks =~= with_chunk(before.chunks, chunk_time));
        let r = &mut self.chunks[i];
        r
    }

    /// The estimated bytes of all rows.
    pub fn estimated_size(&self) -> (r: usize)
        ensures
            r == capped(chunks_size(self@.chunks)),
    {
        let mut total: usize = 0;
        let mut i: usize = 0;
        while i < self.chunks.len()
            invariant
                i <= self.chunks@.len(),
                total == capped(chunks_size(self@.chunks.take(i as int))),
            decreases self.chunks@.len() - i,
        {
            let size = self.chunks[i].estimated_size();
            assert(self@.chunks.take(i + 1).drop_last() =~= self@.chunks.take(i as int));
            total = total.saturating_add(size);
            i += 1;
        }
        assert(self@.chunks.take(i as int) =~= self@.chunks);
        total
    }
}

} // verus!
