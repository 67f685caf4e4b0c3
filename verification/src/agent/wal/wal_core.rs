//! Buffering, flushing, replay and clean-up of the write-ahead log.

use crate::agent::buffer;
use crate::agent::buffer::chunk;
use crate::agent::buffer::chunk::{Chunk, FieldType, TableSchema};
use crate::agent::buffer::Buffer;
use crate::agent::hot_config::HotConfig;
use crate::agent::wal;
use crate::agent::wal::{WalOp, WriteBatch};
use crate::config::WalConfig;
use crate::decimal;
use crate::text;
use vstd::prelude::*;

verus! {

/// The schema after the tags `keys`.
pub open spec fn with_tags(s: chunk::SchemaModel, keys: Seq<Seq<char>>) -> chunk::SchemaModel
    decreases keys.len(),
{
    if keys.len() == 0 {
        s
    } else {
        chunk::with_tag(with_tags(s, keys.drop_last()), keys.last())
    }
}

/// The position of the first occurrence of `name`, or the number of names.
pub open spec fn name_position(names: Seq<Seq<char>>, name: Seq<char>) -> int
    decreases names.len(),
{
    if names.len() == 0 || names[0] == name {
        0
    } else {
        1 + name_position(names.drop_first(), name)
    }
}

/// The type of the value at `position` in the first row that has one there.
pub open spec fn first_type(rows: Seq<chunk::RowModel>, position: int) -> Option<FieldType>
    decreases rows.len(),
{
    if rows.len() == 0 {
        None
    } else if position < rows[0].fields.len() && rows[0].fields[position] is Some {
        Some(chunk::type_of(rows[0].fields[position]->0))
    } else {
        first_type(rows.drop_first(), position)
    }
}

/// The schema after the first `n` of the field names, each with the type that the rows
/// show for it; a name without a value in any row is left out.
pub open spec fn with_fields(
    s: chunk::SchemaModel,
    names: Seq<Seq<char>>,
    rows: Seq<chunk::RowModel>,
    n: int,
) -> chunk::SchemaModel
    decreases n,
{
    if n <= 0 {
        s
    } else {
        let before = with_fields(s, names, rows, n - 1);
        match first_type(rows, name_position(names, names[n - 1])) {
            Some(value_type) => chunk::with_field(before, names[n - 1], value_type),
            None => before,
        }
    }
}

/// The schema of a table after a batch.
pub open spec fn evolved(s: chunk::SchemaModel, batch: wal::BatchModel) -> chunk::SchemaModel {
    with_fields(
        with_tags(s, batch.tag_keys),
        batch.field_names,
        batch.rows,
        batch.field_names.len() as int,
    )
}

/// The chunk with more rows, all from the log file `wal_seq`.
pub open spec fn with_rows(
    c: chunk::ChunkModel,
    rows: Seq<chunk::RowModel>,
    wal_seq: u64,
) -> chunk::ChunkModel
    decreases rows.len(),
{
    if rows.len() == 0 {
        c
    } else {
        chunk::with_row(with_rows(c, rows.drop_last(), wal_seq), rows.last(), wal_seq)
    }
}

/// `row` once for each of the first keys that is `key` and has `value` in the row.
pub open spec fn hits(
    keys: Seq<Seq<char>>,
    tags: Seq<Seq<char>>,
    pair: (Seq<char>, Seq<char>),
    row: usize,
) -> Seq<usize>
    decreases keys.len(),
{
    if keys.len() == 0 {
        Seq::empty()
    } else {
        let j = keys.len() - 1;
        let before = hits(keys.drop_last(), tags, pair, row);
        if keys[j] == pair.0 && j < tags.len() && tags[j] == pair.1 {
            before.push(row)
        } else {
            before
        }
    }
}

/// The positions, counted from `base`, of the rows that have the value for the tag.
pub open spec fn matching(
    base: nat,
    rows: Seq<chunk::RowModel>,
    keys: Seq<Seq<char>>,
    pair: (Seq<char>, Seq<char>),
) -> Seq<usize>
    decreases rows.len(),
{
    if rows.len() == 0 {
        Seq::empty()
    } else {
        matching(base, rows.drop_last(), keys, pair) + hits(
            keys,
            rows.last().tags,
            pair,
            (base + rows.len() - 1) as usize,
        )
    }
}

/// The chunk with more rows, each listed in the index for its tags.
pub open spec fn filled(
    c: chunk::ChunkModel,
    rows: Seq<chunk::RowModel>,
    keys: Seq<Seq<char>>,
    wal_seq: u64,
) -> chunk::ChunkModel {
    chunk::ChunkModel {
        index: |pair: (Seq<char>, Seq<char>)|
            (c.index)(pair) + matching(c.rows.len(), rows, keys, pair),
        ..with_rows(c, rows, wal_seq)
    }
}

/// The table after a batch that the log file `wal_seq` holds.
pub open spec fn applied(
    t: chunk::TableModel,
    batch: wal::BatchModel,
    wal_seq: u64,
) -> chunk::TableModel {
    let schema = evolved(t.schema, batch);
    let chunks = chunk::with_chunk(t.chunks, batch.chunk_time);
    let p = chunk::chunk_position(t.chunks, batch.chunk_time);
    chunk::TableModel {
        schema,
        chunks: chunks.update(p, filled(chunks[p], batch.rows, schema.tag_keys, wal_seq)),
    }
}

/// The databases after a batch.
pub open spec fn after_batch(
    dbs: Seq<buffer::DatabaseModel>,
    batch: wal::BatchModel,
    wal_seq: u64,
) -> Seq<buffer::DatabaseModel> {
    let t = match buffer::table_of(dbs, batch.db, batch.table) {
        Some(t) => t,
        None => chunk::new_table(),
    };
    buffer::with_table(dbs, batch.db, batch.table, applied(t, batch, wal_seq))
}

/// The databases after the operations of one log file.
pub open spec fn after_ops(
    dbs: Seq<buffer::DatabaseModel>,
    ops: Seq<wal::OpModel>,
    wal_seq: u64,
) -> Seq<buffer::DatabaseModel>
    decreases ops.len(),
{
    if ops.len() == 0 {
        dbs
    } else {
        let before = after_ops(dbs, ops.drop_last(), wal_seq);
        match ops.last() {
            wal::OpModel::Write(batch) => after_batch(before, batch, wal_seq),
            wal::OpModel::Noop => before,
        }
    }
}

proof fn lemma_name_position(names: Seq<Seq<char>>, name: Seq<char>)
    ensures
        0 <= name_position(names, name) <= names.len(),
        forall|i: int| 0 <= i < name_position(names, name) ==> #[trigger] names[i] != name,
        name_position(names, name) < names.len() ==> names[name_position(names, name)] == name,
    decreases names.len(),
{
    if names.len() > 0 && names[0] != name {
        let rest = names.drop_first();
        lemma_name_position(rest, name);
        assert forall|i: int| 0 <= i < name_position(names, name) implies #[trigger] names[i]
            != name by {
            if i > 0 {
                assert(rest[i - 1] == names[i]);
            }
        }
    }
}

/// Whether no tag stands twice in the schema.
pub open spec fn tags_distinct(s: chunk::SchemaModel) -> bool {
    forall|i: int, j: int|
        #![trigger s.tag_keys[i], s.tag_keys[j]]
        0 <= i < j < s.tag_keys.len() ==> s.tag_keys[i] != s.tag_keys[j]
}

/// Whether `row` has `value` for the tag that stands at position `j` of the schema.
pub open spec fn row_has(
    keys: Seq<Seq<char>>,
    row: chunk::RowModel,
    pair: (Seq<char>, Seq<char>),
    j: int,
) -> bool {
    0 <= j < keys.len() && keys[j] == pair.0 && j < row.tags.len() && row.tags[j] == pair.1
}

/// Whether what the index of a chunk lists is right: positions of rows, in rising order,
/// each of a row that has the value for the tag.
pub open spec fn index_sound(keys: Seq<Seq<char>>, c: chunk::ChunkModel) -> bool {
    forall|pair: (Seq<char>, Seq<char>)| #[trigger] listing_sound(keys, c.rows, (c.index)(pair), pair)
}

pub open spec fn listing_sound(
    keys: Seq<Seq<char>>,
    rows: Seq<chunk::RowModel>,
    list: Seq<usize>,
    pair: (Seq<char>, Seq<char>),
) -> bool {
    &&& forall|n: int|
        #![trigger list[n]]
        0 <= n < list.len() ==> list[n] < rows.len() && exists|j: int|
        #[trigger] row_has(keys, rows[list[n] as int], pair, j)
    &&& forall|m: int, n: int|
        #![trigger list[m], list[n]]
        0 <= m < n < list.len() ==> list[m] < list[n]
}

pub open spec fn table_sound(t: chunk::TableModel) -> bool {
    &&& tags_distinct(t.schema)
    &&& forall|i: int|
        #![trigger t.chunks[i]]
        0 <= i < t.chunks.len() ==> index_sound(t.schema.tag_keys, t.chunks[i])
}

proof fn lemma_with_tags_extends(s: chunk::SchemaModel, keys: Seq<Seq<char>>)
    requires
        tags_distinct(s),
    ensures
        tags_distinct(with_tags(s, keys)),
        s.tag_keys.is_prefix_of(with_tags(s, keys).tag_keys),
    decreases keys.len(),
{
    if keys.len() > 0 {
        lemma_with_tags_extends(s, keys.drop_last());
        let before = with_tags(s, keys.drop_last());
        if !before.tag_keys.contains(keys.last()) {
            let after = with_tags(s, keys);
            assert forall|i: int, j: int|
                #![trigger after.tag_keys[i], after.tag_keys[j]]
                0 <= i < j < after.tag_keys.len() implies after.tag_keys[i] != after.tag_keys[j] by {
                assert(after.tag_keys[i] == before.tag_keys[i]);
                if j < before.tag_keys.len() {
                    assert(after.tag_keys[j] == before.tag_keys[j]);
                }
            }
        }
    }
}

proof fn lemma_with_fields_tags(
    s: chunk::SchemaModel,
    names: Seq<Seq<char>>,
    rows: Seq<chunk::RowModel>,
    n: int,
)
    ensures
        with_fields(s, names, rows, n).tag_keys == s.tag_keys,
    decreases n,
{
    if n > 0 {
        lemma_with_fields_tags(s, names, rows, n - 1);
    }
}

proof fn lemma_hits(
    keys: Seq<Seq<char>>,
    row: chunk::RowModel,
    pair: (Seq<char>, Seq<char>),
    position: usize,
)
    requires
        forall|i: int, j: int|
            #![trigger keys[i], keys[j]]
            0 <= i < j < keys.len() ==> keys[i] != keys[j],
    ensures
        hits(keys, row.tags, pair, position).len() <= 1,
        hits(keys, row.tags, pair, position).len() == 1 ==> hits(keys, row.tags, pair, position)[0]
            == position && exists|j: int| #[trigger] row_has(keys, row, pair, j),
        hits(keys, row.tags, pair, position).len() == 0 ==> forall|j: int|
            !(#[trigger] row_has(keys, row, pair, j)),
    decreases keys.len(),
{
    if keys.len() > 0 {
        let rest = keys.drop_last();
        lemma_hits(rest, row, pair, position);
        let last = keys.len() - 1;
        assert forall|j: int| #[trigger]
            row_has(keys, row, pair, j) == (row_has(rest, row, pair, j) || (j
            == last && row_has(keys, row, pair, last))) by {
            if 0 <= j < last {
                assert(rest[j] == keys[j]);
            }
        }
        if hits(rest, row.tags, pair, position).len() == 1 {
            let j = choose|j: int| #[trigger] row_has(rest, row, pair, j);
            assert(row_has(keys, row, pair, j));
            assert(rest[j] == keys[j]);
            assert(keys[j] != keys[last]);
        }
        if row_has(keys, row, pair, last) {
            assert(hits(keys, row.tags, pair, position).len() == 1);
        }
    }
}

proof fn lemma_filled_sound(
    keys: Seq<Seq<char>>,
    more: Seq<Seq<char>>,
    c: chunk::ChunkModel,
    rows: Seq<chunk::RowModel>,
    wal_seq: u64,
)
    requires
        index_sound(keys, c),
        keys.is_prefix_of(more),
        forall|i: int, j: int|
            #![trigger more[i], more[j]]
            0 <= i < j < more.len() ==> more[i] != more[j],
        c.rows.len() + rows.len() <= usize::MAX,
    ensures
        index_sound(more, filled(c, rows, more, wal_seq)),
    decreases rows.len(),
{
    let after = filled(c, rows, more, wal_seq);
    lemma_with_rows_index(c, rows, wal_seq);
    assert forall|pair: (Seq<char>, Seq<char>)| #[trigger]
        listing_sound(more, after.rows, (after.index)(pair), pair) by {
        assert(listing_sound(keys, c.rows, (c.index)(pair), pair));
        lemma_matching_sound(c.rows, rows, more, pair);
        let old_list = (c.index)(pair);
        let new_list = matching(c.rows.len(), rows, more, pair);
        let list = (after.index)(pair);
        assert(list == old_list + new_list);
        assert forall|n: int|
            #![trigger list[n]]
            0 <= n < list.len() implies list[n] < after.rows.len() && exists|j: int|
            #[trigger] row_has(more, after.rows[list[n] as int], pair, j) by {
            if n < old_list.len() {
                assert(list[n] == old_list[n]);
                let j = choose|j: int| #[trigger] row_has(keys, c.rows[old_list[n] as int], pair, j);
                assert(keys[j] == more[j]);
                assert(row_has(more, after.rows[list[n] as int], pair, j));
            } else {
                assert(list[n] == new_list[n - old_list.len()]);
            }
        }
        assert forall|m: int, n: int|
            #![trigger list[m], list[n]]
            0 <= m < n < list.len() implies list[m] < list[n] by {
            if n < old_list.len() {
                assert(list[m] == old_list[m] && list[n] == old_list[n]);
            } else if m >= old_list.len() {
                assert(list[m] == new_list[m - old_list.len()]);
                assert(list[n] == new_list[n - old_list.len()]);
            } else {
                assert(list[m] == old_list[m]);
                assert(list[n] == new_list[n - old_list.len()]);
            }
        }
    }
}

proof fn lemma_matching_sound(
    front: Seq<chunk::RowModel>,
    rows: Seq<chunk::RowModel>,
    keys: Seq<Seq<char>>,
    pair: (Seq<char>, Seq<char>),
)
    requires
        forall|i: int, j: int|
            #![trigger keys[i], keys[j]]
            0 <= i < j < keys.len() ==> keys[i] != keys[j],
        front.len() + rows.len() <= usize::MAX,
    ensures
        listing_sound(keys, front + rows, matching(front.len(), rows, keys, pair), pair),
        forall|n: int|
            0 <= n < matching(front.len(), rows, keys, pair).len() ==> front.len()
                <= #[trigger] matching(front.len(), rows, keys, pair)[n],
        forall|i: int, j: int|
            0 <= i < rows.len() && #[trigger] row_has(keys, rows[i], pair, j) ==> matching(
                front.len(),
                rows,
                keys,
                pair,
            ).contains((front.len() + i) as usize),
    decreases rows.len(),
{
    if rows.len() > 0 {
        let rest = rows.drop_last();
        lemma_matching_sound(front, rest, keys, pair);
        let last = (front.len() + rows.len() - 1) as usize;
        lemma_hits(keys, rows.last(), pair, last);
        let before = matching(front.len(), rest, keys, pair);
        let h = hits(keys, rows.last().tags, pair, last);
        let list = matching(front.len(), rows, keys, pair);
        let all = front + rows;
        assert(list == before + h);
        assert forall|n: int|
            #![trigger list[n]]
            0 <= n < list.len() implies list[n] < all.len() && exists|j: int|
            #[trigger] row_has(keys, all[list[n] as int], pair, j) by {
            if n < before.len() {
                assert(list[n] == before[n]);
                assert((front + rest)[before[n] as int] == all[list[n] as int]);
            } else {
                assert(list[n] == h[0]);
                assert(all[list[n] as int] == rows.last());
            }
        }
        assert forall|m: int, n: int|
            #![trigger list[m], list[n]]
            0 <= m < n < list.len() implies list[m] < list[n] by {
            assert(list[m] == before[m]);
            if n < before.len() {
                assert(list[n] == before[n]);
            } else {
                assert(before[m] < (front + rest).len());
                assert(list[n] == h[0]);
            }
        }
        assert forall|i: int, j: int|
            0 <= i < rows.len() && #[trigger] row_has(keys, rows[i], pair, j) implies list.contains(
            (front.len() + i) as usize,
        ) by {
            if i < rest.len() {
                assert(rest[i] == rows[i]);
                assert(row_has(keys, rest[i], pair, j));
                assert(before.contains((front.len() + i) as usize));
                let k = choose|k: int|
                    0 <= k < before.len() && before[k] == (front.len() + i) as usize;
                assert(list[k] == before[k]);
            } else {
                assert(list[before.len() as int] == h[0]);
            }
        }
    }
}

/// A batch keeps the index of every chunk right: it lists, in rising order, positions of
/// rows that have the value for the tag.
pub proof fn batch_keeps_index_sound(t: chunk::TableModel, batch: wal::BatchModel, wal_seq: u64)
    requires
        table_sound(t),
        forall|i: int|
            0 <= i < t.chunks.len() ==> (#[trigger] t.chunks[i]).rows.len() + batch.rows.len()
                <= usize::MAX,
        batch.rows.len() <= usize::MAX,
    ensures
        table_sound(applied(t, batch, wal_seq)),
{
    let tagged = with_tags(t.schema, batch.tag_keys);
    lemma_with_tags_extends(t.schema, batch.tag_keys);
    lemma_with_fields_tags(tagged, batch.field_names, batch.rows, batch.field_names.len() as int);
    chunk::lemma_chunk_position(t.chunks, batch.chunk_time);
    let after = applied(t, batch, wal_seq);
    let keys = t.schema.tag_keys;
    let more = after.schema.tag_keys;
    let chunks = chunk::with_chunk(t.chunks, batch.chunk_time);
    let p = chunk::chunk_position(t.chunks, batch.chunk_time);
    let none = Seq::<chunk::RowModel>::empty();
    assert forall|i: int|
        #![trigger after.chunks[i]]
        0 <= i < after.chunks.len() implies index_sound(more, after.chunks[i]) by {
        if i < t.chunks.len() {
            assert(chunks[i] == t.chunks[i]);
            if i == p {
                lemma_filled_sound(keys, more, chunks[p], batch.rows, wal_seq);
            } else {
                lemma_more_keys_sound(keys, more, t.chunks[i]);
            }
        } else {
            assert(chunks[i] == chunk::new_chunk(batch.chunk_time));
            lemma_filled_sound(keys, more, chunks[p], batch.rows, wal_seq);
        }
    }
}

proof fn lemma_more_keys_sound(keys: Seq<Seq<char>>, more: Seq<Seq<char>>, c: chunk::ChunkModel)
    requires
        index_sound(keys, c),
        keys.is_prefix_of(more),
    ensures
        index_sound(more, c),
{
    assert forall|pair: (Seq<char>, Seq<char>)| #[trigger]
        listing_sound(more, c.rows, (c.index)(pair), pair) by {
        assert(listing_sound(keys, c.rows, (c.index)(pair), pair));
        let list = (c.index)(pair);
        assert forall|n: int|
            #![trigger list[n]]
            0 <= n < list.len() implies list[n] < c.rows.len() && exists|j: int|
            #[trigger] row_has(more, c.rows[list[n] as int], pair, j) by {
            let j = choose|j: int| #[trigger] row_has(keys, c.rows[list[n] as int], pair, j);
            assert(keys[j] == more[j]);
            assert(row_has(more, c.rows[list[n] as int], pair, j));
        }
    }
}

/// A batch lists each of its rows: for each tag of the table that the row has a value
/// for, the position of the row in its chunk stands in the index.
pub proof fn batch_lists_its_rows(
    t: chunk::TableModel,
    batch: wal::BatchModel,
    wal_seq: u64,
    row: int,
    tag: int,
)
    requires
        tags_distinct(t.schema),
        0 <= row < batch.rows.len(),
        0 <= tag < applied(t, batch, wal_seq).schema.tag_keys.len(),
        tag < batch.rows[row].tags.len(),
        chunk::with_chunk(t.chunks, batch.chunk_time)[chunk::chunk_position(
            t.chunks,
            batch.chunk_time,
        )].rows.len() + batch.rows.len() <= usize::MAX,
    ensures
        ({
            let after = applied(t, batch, wal_seq);
            let p = chunk::chunk_position(t.chunks, batch.chunk_time);
            let front = chunk::with_chunk(t.chunks, batch.chunk_time)[p].rows;
            let c = after.chunks[p];
            &&& c.rows == front + batch.rows
            &&& (c.index)((after.schema.tag_keys[tag], batch.rows[row].tags[tag])).contains(
                (front.len() + row) as usize,
            )
        }),
{
    let tagged = with_tags(t.schema, batch.tag_keys);
    lemma_with_tags_extends(t.schema, batch.tag_keys);
    lemma_with_fields_tags(tagged, batch.field_names, batch.rows, batch.field_names.len() as int);
    chunk::lemma_chunk_position(t.chunks, batch.chunk_time);
    let after = applied(t, batch, wal_seq);
    let chunks = chunk::with_chunk(t.chunks, batch.chunk_time);
    let p = chunk::chunk_position(t.chunks, batch.chunk_time);
    let front = chunks[p].rows;
    let keys = after.schema.tag_keys;
    let pair = (keys[tag], batch.rows[row].tags[tag]);
    lemma_with_rows_index(chunks[p], batch.rows, wal_seq);
    lemma_matching_sound(front, batch.rows, keys, pair);
    assert(row_has(keys, batch.rows[row], pair, tag));
    let found = matching(front.len(), batch.rows, keys, pair);
    let k = choose|k: int| 0 <= k < found.len() && found[k] == (front.len() + row) as usize;
    let list = (after.chunks[p].index)(pair);
    assert(list == (chunks[p].index)(pair) + found);
    assert(list[(chunks[p].index)(pair).len() + k] == found[k]);
}

/// The type of the first value at `position` in a row.
fn find_type(rows: &Vec<chunk::Row>, position: usize) -> (r: Option<FieldType>)
    ensures
        r == first_type(chunk::row_models(rows@), position as int),
{
    let ghost models = chunk::row_models(rows@);
    let mut i: usize = 0;
    assert(models.skip(0) =~= models);
    while i < rows.len()
        invariant
            i <= rows@.len(),
            models == chunk::row_models(rows@),
            first_type(models, position as int) == first_type(
                models.skip(i as int),
                position as int,
            ),
        decreases rows@.len() - i,
    {
        let row = &rows[i];
        assert(models.skip(i as int)[0] == row@);
        if position < row.field_values.len() {
            match &row.field_values[position] {
                Some(value) => {
                    assert(row@.fields[position as int] == Some(value@));
                    return Some(value.field_type());
                },
                None => {},
            }
        }
        assert(models.skip(i as int).drop_first() =~= models.skip(i + 1));
        i += 1;
    }
    None
}

/// Adds the tags and fields of a batch to the schema.
fn evolve_schema(schema: &mut TableSchema, batch: &WriteBatch)
    ensures
        final(schema)@ == evolved(old(schema)@, batch@),
{
    let ghost before = schema@;
    let ghost keys = batch@.tag_keys;
    let mut i: usize = 0;
    assert(keys.take(0) =~= Seq::<Seq<char>>::empty());
    while i < batch.tag_keys.len()
        invariant
            i <= batch.tag_keys@.len(),
            keys == batch@.tag_keys,
            schema@ == with_tags(before, keys.take(i as int)),
        decreases batch.tag_keys@.len() - i,
    {
        schema.ensure_tag_key(batch.tag_keys[i].as_str());
        assert(keys.take(i + 1).drop_last() =~= keys.take(i as int));
        i += 1;
    }
    assert(keys.take(i as int) =~= keys);
    let ghost tagged = schema@;
    let ghost names = batch@.field_names;
    let mut n: usize = 0;
    while n < batch.field_names.len()
        invariant
            n <= batch.field_names@.len(),
            names == batch@.field_names,
            schema@ == with_fields(tagged, names, batch@.rows, n as int),
        decreases batch.field_names@.len() - n,
    {
        let name = batch.field_names[n].as_str();
        let position = match text::position_of(&batch.field_names, name) {
            Some(p) => p,
            None => 0,
        };
        assert(position == name_position(names, name@)) by {
            lemma_name_position(names, name@);
            assert(names[n as int] == name@);
            let p = name_position(names, name@);
            assert(names[position as int] == batch.field_names@[position as int]@);
            if p < names.len() {
                assert(names[p] == batch.field_names@[p]@);
            }
        }
        match find_type(&batch.rows, position) {
            Some(value_type) => {
                let _ = schema.ensure_field(name, value_type);
            },
            None => {},
        }
        n += 1;
    }
}

proof fn lemma_with_rows_index(c: chunk::ChunkModel, rows: Seq<chunk::RowModel>, wal_seq: u64)
    ensures
        with_rows(c, rows, wal_seq).index == c.index,
        with_rows(c, rows, wal_seq).rows == c.rows + rows,
        with_rows(c, rows, wal_seq).chunk_time == c.chunk_time,
    decreases rows.len(),
{
    if rows.len() > 0 {
        lemma_with_rows_index(c, rows.drop_last(), wal_seq);
        assert(c.rows + rows =~= (c.rows + rows.drop_last()).push(rows.last()));
    } else {
        assert(c.rows + rows =~= c.rows);
    }
}

/// The chunks of a table after a batch: each keeps its time, those of other times stay as
/// they are, and at most one is added, for the time of the batch.
pub proof fn lemma_applied_chunks(t: chunk::TableModel, batch: wal::BatchModel, wal_seq: u64)
    ensures
        t.chunks.len() <= applied(t, batch, wal_seq).chunks.len() <= t.chunks.len() + 1,
        forall|i: int|
            0 <= i < t.chunks.len() ==> (#[trigger] applied(t, batch, wal_seq).chunks[i]).chunk_time
                == t.chunks[i].chunk_time,
        forall|i: int|
            0 <= i < t.chunks.len() && t.chunks[i].chunk_time != batch.chunk_time
                ==> #[trigger] applied(t, batch, wal_seq).chunks[i] == t.chunks[i],
        forall|i: int|
            t.chunks.len() <= i < applied(t, batch, wal_seq).chunks.len() ==> (
            #[trigger] applied(t, batch, wal_seq).chunks[i]).chunk_time == batch.chunk_time,
{
    let chunks = chunk::with_chunk(t.chunks, batch.chunk_time);
    let p = chunk::chunk_position(t.chunks, batch.chunk_time);
    chunk::lemma_chunk_position(t.chunks, batch.chunk_time);
    lemma_with_rows_index(chunks[p], batch.rows, wal_seq);
}

/// A batch goes to the one chunk of its time: a table without two chunks of one time has
/// none afterwards either.
pub proof fn batch_keeps_times_once(t: chunk::TableModel, batch: wal::BatchModel, wal_seq: u64)
    requires
        chunk::times_once(t.chunks),
    ensures
        chunk::times_once(applied(t, batch, wal_seq).chunks),
{
    let after = applied(t, batch, wal_seq).chunks;
    chunk::lemma_chunk_position(t.chunks, batch.chunk_time);
    lemma_applied_chunks(t, batch, wal_seq);
    assert forall|i: int, j: int|
        #![trigger after[i], after[j]]
        0 <= i < j < after.len() implies after[i].chunk_time != after[j].chunk_time by {
        if j < t.chunks.len() {
            assert(t.chunks[i].chunk_time != t.chunks[j].chunk_time);
        } else {
            assert(t.chunks[i].chunk_time != batch.chunk_time);
        }
    }
}

/// The operations of a log file let no name stand twice, and give no table two chunks of
/// one time.
pub proof fn operations_keep_the_buffer_in_order(
    dbs: Seq<buffer::DatabaseModel>,
    ops: Seq<wal::OpModel>,
    wal_seq: u64,
)
    requires
        buffer::names_once(dbs),
        buffer::chunk_times_once(dbs),
    ensures
        buffer::names_once(after_ops(dbs, ops, wal_seq)),
        buffer::chunk_times_once(after_ops(dbs, ops, wal_seq)),
    decreases ops.len(),
{
    if ops.len() > 0 {
        let before = after_ops(dbs, ops.drop_last(), wal_seq);
        operations_keep_the_buffer_in_order(dbs, ops.drop_last(), wal_seq);
        match ops.last() {
            wal::OpModel::Write(batch) => {
                let t = match buffer::table_of(before, batch.db, batch.table) {
                    Some(t) => t,
                    None => chunk::new_table(),
                };
                assert(chunk::times_once(t.chunks)) by {
                    buffer::lemma_table_is_listed(before, batch.db, batch.table);
                }
                batch_keeps_times_once(t, batch, wal_seq);
                let value = applied(t, batch, wal_seq);
                buffer::putting_keeps_names_once(before, batch.db, batch.table, value);
                buffer::putting_keeps_chunk_times_once(before, batch.db, batch.table, value);
            },
            wal::OpModel::Noop => {},
        }
    }
}

/// Lists the newest row of a chunk in its index, once for each tag.
fn index_row(c: &mut Chunk, keys: &Vec<String>, row: &chunk::Row, position: usize)
    requires
        old(c).wf(),
    ensures
        final(c).wf(),
        final(c)@ == (chunk::ChunkModel {
            index: |pair: (Seq<char>, Seq<char>)|
                (old(c)@.index)(pair) + hits(text::views(keys@), row@.tags, pair, position),
            ..old(c)@
        }),
{
    let ghost before = c@;
    let ghost key_views = text::views(keys@);
    let mut j: usize = 0;
    assert forall|pair: (Seq<char>, Seq<char>)| #[trigger] (c@.index)(pair) =~= (before.index)(pair)
        + hits(key_views.take(0), row@.tags, pair, position) by {}
    while j < keys.len()
        invariant
            j <= keys@.len(),
            key_views == text::views(keys@),
            c.wf(),
            c@.chunk_time == before.chunk_time,
            c@.rows == before.rows,
            c@.time_min == before.time_min,
            c@.time_max == before.time_max,
            c@.min_wal_seq == before.min_wal_seq,
            c@.max_wal_seq == before.max_wal_seq,
            forall|pair: (Seq<char>, Seq<char>)| #[trigger]
                (c@.index)(pair) == (before.index)(pair) + hits(
                    key_views.take(j as int),
                    row@.tags,
                    pair,
                    position,
                ),
        decreases keys@.len() - j,
    {
        let ghost now = c@;
        let ghost taken = key_views.take(j as int);
        assert(key_views.take(j + 1).drop_last() =~= taken);
        assert(key_views.take(j + 1).last() == keys@[j as int]@);
        if j < row.tag_values.len() {
            assert(row@.tags[j as int] == row.tag_values@[j as int]@);
            c.tag_index.add(keys[j].as_str(), row.tag_values[j].as_str(), position);
            assert forall|pair: (Seq<char>, Seq<char>)| #[trigger] (c@.index)(pair)
                =~= (before.index)(pair) + hits(key_views.take(j + 1), row@.tags, pair, position) by {
                assert((c@.index)(pair) == c.tag_index.rows_with(pair.0, pair.1));
                assert((now.index)(pair) == (before.index)(pair) + hits(
                    taken,
                    row@.tags,
                    pair,
                    position,
                ));
            }
        }
        j += 1;
    }
    assert(key_views.take(j as int) =~= key_views);
    assert(c@.index =~= (|pair: (Seq<char>, Seq<char>)|
        (before.index)(pair) + hits(key_views, row@.tags, pair, position)));
}

/// Adds the rows of a batch to a chunk and lists them in its index.
fn fill_chunk(c: &mut Chunk, rows: &Vec<chunk::Row>, keys: &Vec<String>, wal_seq: u64)
    requires
        old(c).wf(),
    ensures
        final(c).wf(),
        final(c)@ == filled(old(c)@, chunk::row_models(rows@), text::views(keys@), wal_seq),
{
    let ghost before = c@;
    let ghost models = chunk::row_models(rows@);
    let ghost key_views = text::views(keys@);
    let mut i: usize = 0;
    assert(models.take(0) =~= Seq::<chunk::RowModel>::empty());
    assert(c@ =~= filled(before, models.take(0), key_views, wal_seq)) by {
        assert forall|pair: (Seq<char>, Seq<char>)| #[trigger]
            (before.index)(pair) =~= (before.index)(pair) + matching(
            before.rows.len(),
            models.take(0),
            key_views,
            pair,
        ) by {}
        assert(c@.index =~= filled(before, models.take(0), key_views, wal_seq).index);
    }
    while i < rows.len()
        invariant
            i <= rows@.len(),
            models == chunk::row_models(rows@),
            key_views == text::views(keys@),
            c.wf(),
            c@ == filled(before, models.take(i as int), key_views, wal_seq),
        decreases rows@.len() - i,
    {
        let ghost taken = models.take(i as int);
        let ghost next = models.take(i + 1);
        assert(next.drop_last() =~= taken);
        assert(next.last() == rows@[i as int]@);
        proof {
            lemma_with_rows_index(before, taken, wal_seq);
        }
        c.insert(rows[i].clone(), wal_seq);
        let ghost inserted = c@;
        assert(c@.rows.len() == c.rows@.len());
        let position: usize = c.rows.len() - 1;
        assert(position == before.rows.len() + i);
        index_row(c, keys, &rows[i], position);
        assert(c@.index =~= filled(before, next, key_views, wal_seq).index) by {
            assert forall|pair: (Seq<char>, Seq<char>)| #[trigger] (c@.index)(pair) =~= (
            before.index)(pair) + matching(before.rows.len(), next, key_views, pair) by {
                assert((inserted.index)(pair) == (before.index)(pair) + matching(
                    before.rows.len(),
                    taken,
                    key_views,
                    pair,
                ));
            }
        }
        assert(c@ =~= filled(before, next, key_views, wal_seq));
        i += 1;
    }
    assert(models.take(i as int) =~= models);
}

/// Applies a batch that the log file `wal_seq` holds to the buffer: makes the table and
/// the chunk where they are new, evolves the schema, and adds and indexes the rows.
pub fn apply_write_batch(buffer: &mut Buffer, batch: &WriteBatch, wal_seq: u64)
    requires
        old(buffer).wf(),
    ensures
        final(buffer).wf(),
        final(buffer)@ == after_batch(old(buffer)@, batch@, wal_seq),
{
    let table = buffer.get_or_create_table(batch.db_name.as_str(), batch.table_name.as_str());
    let ghost before = table@;
    evolve_schema(&mut table.schema, batch);
    let keys = text::copy_list(&table.schema.tag_keys);
    let c = table.get_or_create_chunk(batch.chunk_time);
    fill_chunk(c, &batch.rows, &keys, wal_seq);
    assert(table@ =~= applied(before, batch@, wal_seq));
}

/// Applies the operations of the log file `wal_seq` to the buffer, in order.
pub fn apply_ops(buffer: &mut Buffer, ops: &Vec<WalOp>, wal_seq: u64)
    requires
        old(buffer).wf(),
    ensures
        final(buffer).wf(),
        final(buffer)@ == after_ops(old(buffer)@, wal::op_models(ops@), wal_seq),
{
    let ghost models = wal::op_models(ops@);
    let ghost before = buffer@;
    let mut i: usize = 0;
    assert(models.take(0) =~= Seq::<wal::OpModel>::empty());
    while i < ops.len()
        invariant
            i <= ops@.len(),
            models == wal::op_models(ops@),
            buffer.wf(),
            buffer@ == after_ops(before, models.take(i as int), wal_seq),
        decreases ops@.len() - i,
    {
        assert(models.take(i + 1).drop_last() =~= models.take(i as int));
        assert(models.take(i + 1).last() == ops@[i as int]@);
        match &ops[i] {
            WalOp::Write(batch) => apply_write_batch(buffer, batch, wal_seq),
            WalOp::Noop => {},
        }
        i += 1;
    }
    assert(models.take(i as int) =~= models);
}

/// Errors of the log.
#[derive(Debug)]
pub enum WalError {
    /// The log's buffer has reached its limit.
    BufferFull(usize),
    /// Writing a log file failed.
    WriteError(String),
}

impl WalError {
    pub open spec fn spec_message(&self) -> Seq<char> {
        match self {
            WalError::BufferFull(n) => "WAL buffer full with "@ + decimal::numeral(*n as nat)
                + " ops"@,
            WalError::WriteError(e) => "WAL write error: "@ + e@,
        }
    }

    /// The error as a text for its reader.
    pub fn message(&self) -> (r: String)
        ensures
            r@ == self.spec_message(),
    {
        match self {
            WalError::BufferFull(n) => text::join3(
                "WAL buffer full with ",
                decimal::format_u64(*n as u64).as_str(),
                " ops",
            ),
            WalError::WriteError(e) => text::join2("WAL write error: ", e.as_str()),
        }
    }
}

/// The number of the log file of a given name, where it is the name of one.
pub open spec fn seq_of_name(name: Seq<char>) -> Option<nat> {
    if ".wal"@.is_suffix_of(name) {
        decimal::unsigned_value(name.take(name.len() - ".wal"@.len()), u64::MAX as nat)
    } else {
        None
    }
}

/// The name of the log file of a given number.
pub open spec fn name_of_seq(seq: nat) -> Seq<char> {
    decimal::padded_numeral(seq) + ".wal"@
}

/// The name that a log file is written under denotes its number.
pub proof fn log_file_name_reads_back(seq: u64)
    ensures
        seq_of_name(name_of_seq(seq as nat)) == Some(seq as nat),
{
    decimal::padded_numeral_reads_back(seq);
    let name = name_of_seq(seq as nat);
    assert(name.take(name.len() - ".wal"@.len()) =~= decimal::padded_numeral(seq as nat));
    assert(name.skip(name.len() - ".wal"@.len()) =~= ".wal"@);
    assert(".wal"@.is_suffix_of(name));
}

/// The greatest number of a log file among the names.
pub open spec fn max_seq(names: Seq<Seq<char>>) -> Option<nat>
    decreases names.len(),
{
    if names.len() == 0 {
        None
    } else {
        match (max_seq(names.drop_last()), seq_of_name(names.last())) {
            (Some(m), Some(n)) => Some(if n > m {
                n
            } else {
                m
            }),
            (None, Some(n)) => Some(n),
            (m, None) => m,
        }
    }
}

/// The number of the next log file: above every file's and above the flushed one.
pub open spec fn next_seq(names: Seq<Seq<char>>, flushed: u64) -> nat {
    match max_seq(names) {
        Some(m) => if m > flushed {
            m + 1
        } else {
            flushed as nat + 1
        },
        None => flushed as nat + 1,
    }
}

proof fn lemma_max_seq(names: Seq<Seq<char>>, i: int)
    requires
        0 <= i < names.len(),
        seq_of_name(names[i]) is Some,
    ensures
        max_seq(names) is Some,
        seq_of_name(names[i])->0 <= max_seq(names)->0,
    decreases names.len(),
{
    if i < names.len() - 1 {
        assert(names.drop_last()[i] == names[i]);
        lemma_max_seq(names.drop_last(), i);
    }
}

/// The sequence never restarts at or below what was flushed, nor at the number of a file
/// that is there.
pub proof fn next_seq_is_fresh(names: Seq<Seq<char>>, flushed: u64, i: int)
    ensures
        next_seq(names, flushed) > flushed,
        0 <= i < names.len() && seq_of_name(names[i]) is Some ==> next_seq(names, flushed)
            > seq_of_name(names[i])->0,
{
    if 0 <= i < names.len() && seq_of_name(names[i]) is Some {
        lemma_max_seq(names, i);
    }
}

/// The files with one more, behind those of the same or a lower number.
pub open spec fn insert_by_seq(files: Seq<(u64, Seq<char>)>, file: (u64, Seq<char>)) -> Seq<
    (u64, Seq<char>),
>
    decreases files.len(),
{
    if files.len() == 0 || files.last().0 <= file.0 {
        files.push(file)
    } else {
        insert_by_seq(files.drop_last(), file).push(files.last())
    }
}

/// The log files above the flushed number, in the order of their numbers.
pub open spec fn replay_order(names: Seq<Seq<char>>, flushed: u64) -> Seq<(u64, Seq<char>)>
    decreases names.len(),
{
    if names.len() == 0 {
        Seq::empty()
    } else {
        let before = replay_order(names.drop_last(), flushed);
        match seq_of_name(names.last()) {
            Some(n) => if n > flushed {
                insert_by_seq(before, (n as u64, names.last()))
            } else {
                before
            },
            None => before,
        }
    }
}

/// The log files up to the number `through`.
pub open spec fn cleanup_names(names: Seq<Seq<char>>, through: u64) -> Seq<Seq<char>>
    decreases names.len(),
{
    if names.len() == 0 {
        Seq::empty()
    } else {
        let before = cleanup_names(names.drop_last(), through);
        match seq_of_name(names.last()) {
            Some(n) => if n <= through {
                before.push(names.last())
            } else {
                before
            },
            None => before,
        }
    }
}

pub open spec fn sorted_by_seq(files: Seq<(u64, Seq<char>)>) -> bool {
    forall|i: int, j: int|
        #![trigger files[i], files[j]]
        0 <= i < j < files.len() ==> files[i].0 <= files[j].0
}

pub(crate) proof fn lemma_insert_by_seq(files: Seq<(u64, Seq<char>)>, file: (u64, Seq<char>))
    requires
        sorted_by_seq(files),
    ensures
        sorted_by_seq(insert_by_seq(files, file)),
        insert_by_seq(files, file).len() == files.len() + 1,
        insert_by_seq(files, file).to_multiset() =~= files.to_multiset().insert(file),
        forall|f: (u64, Seq<char>)|
            #![trigger insert_by_seq(files, file).contains(f)]
            insert_by_seq(files, file).contains(f) == (files.contains(f) || f == file),
    decreases files.len(),
{
    broadcast use vstd::seq_lib::group_to_multiset_ensures;

    let after = insert_by_seq(files, file);
    if files.len() == 0 || files.last().0 <= file.0 {
        assert forall|i: int, j: int|
            #![trigger after[i], after[j]]
            0 <= i < j < after.len() implies after[i].0 <= after[j].0 by {
            assert(after[i] == files[i]);
            if j < files.len() {
                assert(after[j] == files[j]);
            } else {
                assert(files[i].0 <= files.last().0);
            }
        }
        assert forall|f: (u64, Seq<char>)|
            #![trigger after.contains(f)]
            after.contains(f) == (files.contains(f) || f == file) by {
            if files.contains(f) {
                let k = choose|k: int| 0 <= k < files.len() && files[k] == f;
                assert(after[k] == f);
            }
            if f == file {
                assert(after[files.len() as int] == f);
            }
            if after.contains(f) && f != file {
                let k = choose|k: int| 0 <= k < after.len() && after[k] == f;
                assert(files[k] == f);
            }
        }
    } else {
        let rest = files.drop_last();
        lemma_insert_by_seq(rest, file);
        let inner = insert_by_seq(rest, file);
        assert(files =~= rest.push(files.last()));
        assert(after == inner.push(files.last()));
        assert forall|i: int, j: int|
            #![trigger after[i], after[j]]
            0 <= i < j < after.len() implies after[i].0 <= after[j].0 by {
            assert(after[i] == inner[i]);
            if j < inner.len() {
                assert(after[j] == inner[j]);
            } else {
                assert(inner.contains(inner[i]));
                assert(rest.contains(inner[i]) || inner[i] == file);
                if rest.contains(inner[i]) {
                    let k = choose|k: int| 0 <= k < rest.len() && rest[k] == inner[i];
                    assert(files[k] == rest[k]);
                    assert(files[k].0 <= files[files.len() - 1].0);
                }
            }
        }
        assert forall|f: (u64, Seq<char>)|
            #![trigger after.contains(f)]
            after.contains(f) == (files.contains(f) || f == file) by {
            if files.contains(f) {
                let k = choose|k: int| 0 <= k < files.len() && files[k] == f;
                if k < rest.len() {
                    assert(rest[k] == f);
                    assert(rest.contains(f));
                    assert(inner.contains(f));
                    let m = choose|m: int| 0 <= m < inner.len() && inner[m] == f;
                    assert(after[m] == f);
                } else {
                    assert(after[inner.len() as int] == f);
                }
            }
            if f == file {
                assert(inner.contains(f));
                let m = choose|m: int| 0 <= m < inner.len() && inner[m] == f;
                assert(after[m] == f);
            }
            if after.contains(f) {
                let k = choose|k: int| 0 <= k < after.len() && after[k] == f;
                if k < inner.len() {
                    assert(inner[k] == f);
                    assert(inner.contains(f));
                    if f != file {
                        let m = choose|m: int| 0 <= m < rest.len() && rest[m] == f;
                        assert(files[m] == f);
                    }
                } else {
                    assert(files[files.len() - 1] == f);
                }
            }
        }
    }
}

/// Replay reads exactly the log files above the flushed number, in rising order.
pub proof fn replay_reads_unflushed_files(names: Seq<Seq<char>>, flushed: u64)
    ensures
        sorted_by_seq(replay_order(names, flushed)),
        forall|seq: u64, name: Seq<char>| #[trigger]
            replay_order(names, flushed).contains((seq, name)) <==> (names.contains(name)
                && seq_of_name(name) == Some(seq as nat) && seq > flushed),
    decreases names.len(),
{
    let order = replay_order(names, flushed);
    if names.len() > 0 {
        let rest = names.drop_last();
        let last = names.last();
        let before = replay_order(rest, flushed);
        replay_reads_unflushed_files(rest, flushed);
        if seq_of_name(last) is Some && seq_of_name(last)->0 > flushed {
            lemma_insert_by_seq(before, (seq_of_name(last)->0 as u64, last));
        }
        assert forall|seq: u64, name: Seq<char>| #[trigger]
            order.contains((seq, name)) <==> (names.contains(name) && seq_of_name(name) == Some(
                seq as nat,
            ) && seq > flushed) by {
            assert(names.contains(name) <==> rest.contains(name) || name == last) by {
                if names.contains(name) && name != last {
                    let k = choose|k: int| 0 <= k < names.len() && names[k] == name;
                    assert(rest[k] == name);
                }
                if rest.contains(name) {
                    let k = choose|k: int| 0 <= k < rest.len() && rest[k] == name;
                    assert(names[k] == name);
                }
                if name == last {
                    assert(names[names.len() - 1] == name);
                }
            }
            assert(before.contains((seq, name)) <==> (rest.contains(name) && seq_of_name(name)
                == Some(seq as nat) && seq > flushed));
        }
    }
}

/// Clean-up removes exactly the log files up to its number.
pub proof fn cleanup_removes_flushed_files(names: Seq<Seq<char>>, through: u64)
    ensures
        forall|name: Seq<char>| #[trigger]
            cleanup_names(names, through).contains(name) <==> (names.contains(name)
                && seq_of_name(name) is Some && seq_of_name(name)->0 <= through),
    decreases names.len(),
{
    let removed = cleanup_names(names, through);
    if names.len() > 0 {
        let rest = names.drop_last();
        let last = names.last();
        let before = cleanup_names(rest, through);
        cleanup_removes_flushed_files(rest, through);
        assert forall|name: Seq<char>| #[trigger]
            removed.contains(name) <==> (names.contains(name) && seq_of_name(name) is Some
                && seq_of_name(name)->0 <= through) by {
            assert(names.contains(name) <==> rest.contains(name) || name == last) by {
                if names.contains(name) && name != last {
                    let k = choose|k: int| 0 <= k < names.len() && names[k] == name;
                    assert(rest[k] == name);
                }
                if rest.contains(name) {
                    let k = choose|k: int| 0 <= k < rest.len() && rest[k] == name;
                    assert(names[k] == name);
                }
                if name == last {
                    assert(names[names.len() - 1] == name);
                }
            }
            assert(before.contains(name) <==> (rest.contains(name) && seq_of_name(name) is Some
                && seq_of_name(name)->0 <= through));
            if removed != before {
                assert(removed =~= before.push(last));
                if before.contains(name) {
                    let k = choose|k: int| 0 <= k < before.len() && before[k] == name;
                    assert(removed[k] == name);
                }
                if name == last {
                    assert(removed[before.len() as int] == name);
                }
                if removed.contains(name) && name != last {
                    let k = choose|k: int| 0 <= k < removed.len() && removed[k] == name;
                    assert(before[k] == name);
                }
            }
        }
    }
}

/// A log file that a restarted log writes is read by the next replay: its number is above
/// what was flushed, so no clean-up up to the flushed number removes it.
pub proof fn new_log_file_is_replayed(
    names: Seq<Seq<char>>,
    flushed: u64,
    seq: u64,
    later: Seq<Seq<char>>,
)
    requires
        seq >= next_seq(names, flushed),
        later.contains(name_of_seq(seq as nat)),
    ensures
        replay_order(later, flushed).contains((seq, name_of_seq(seq as nat))),
        !cleanup_names(later, flushed).contains(name_of_seq(seq as nat)),
{
    log_file_name_reads_back(seq);
    next_seq_is_fresh(names, flushed, 0);
    replay_reads_unflushed_files(later, flushed);
    cleanup_removes_flushed_files(later, flushed);
}

/// The number of the log file of a given name, where it is the name of one.
pub fn log_file_seq(name: &str) -> (r: Option<u64>)
    ensures
        r is Some == seq_of_name(name@) is Some,
        r is Some ==> r->0 == seq_of_name(name@)->0,
{
    match text::strip_suffix(name, ".wal") {
        Some(stem) => {
            assert(name@.take(name@.len() - ".wal"@.len()) =~= stem@);
            decimal::parse_u64(stem.as_str())
        },
        None => None,
    }
}

/// The log files to replay: those above the flushed number, in the order of their numbers.
pub fn replay_files(names: &Vec<String>, flushed_seq: u64) -> (r: Vec<(u64, String)>)
    ensures
        r@.map_values(|f: (u64, String)| (f.0, f.1@)) == replay_order(
            text::views(names@),
            flushed_seq,
        ),
{
    let ghost all = text::views(names@);
    let ghost model = |f: (u64, String)| (f.0, f.1@);
    let mut r: Vec<(u64, String)> = Vec::new();
    let mut i: usize = 0;
    assert(all.take(0) =~= Seq::<Seq<char>>::empty());
    assert(r@.map_values(model) =~= Seq::<(u64, Seq<char>)>::empty());
    while i < names.len()
        invariant
            i <= names@.len(),
            all == text::views(names@),
            model == (|f: (u64, String)| (f.0, f.1@)),
            r@.map_values(model) == replay_order(all.take(i as int), flushed_seq),
        decreases names@.len() - i,
    {
        assert(all.take(i + 1).drop_last() =~= all.take(i as int));
        assert(all.take(i + 1).last() == names@[i as int]@);
        match log_file_seq(names[i].as_str()) {
            Some(seq) => if seq > flushed_seq {
                add_by_seq(&mut r, seq, names[i].clone());
            },
            None => {},
        }
        i += 1;
    }
    assert(all.take(i as int) =~= all);
    r
}

/// Adds a file behind those of the same or a lower number.
fn add_by_seq(files: &mut Vec<(u64, String)>, seq: u64, name: String)
    ensures
        final(files)@.map_values(|f: (u64, String)| (f.0, f.1@)) == insert_by_seq(
            old(files)@.map_values(|f: (u64, String)| (f.0, f.1@)),
            (seq, name@),
        ),
{
    let ghost model = |f: (u64, String)| (f.0, f.1@);
    let ghost before = files@.map_values(model);
    let mut at: usize = files.len();
    assert(before.take(at as int) =~= before);
    assert(before.skip(at as int) =~= Seq::<(u64, Seq<char>)>::empty());
    assert(insert_by_seq(before, (seq, name@)) =~= insert_by_seq(
        before.take(at as int),
        (seq, name@),
    ) + before.skip(at as int));
    while at > 0 && files[at - 1].0 > seq
        invariant
            at <= files@.len(),
            *files == *old(files),
            model == (|f: (u64, String)| (f.0, f.1@)),
            before == files@.map_values(model),
            insert_by_seq(before, (seq, name@)) == insert_by_seq(
                before.take(at as int),
                (seq, name@),
            ) + before.skip(at as int),
        decreases at,
    {
        let ghost front = before.take(at as int);
        assert(front.last() == before[at - 1]);
        assert(front.drop_last() =~= before.take(at - 1));
        assert(insert_by_seq(front.drop_last(), (seq, name@)).push(front.last()) + before.skip(
            at as int,
        ) =~= insert_by_seq(before.take(at - 1), (seq, name@)) + before.skip(at - 1));
        at -= 1;
    }
    assert(at > 0 ==> before.take(at as int).last() == before[at - 1]);
    files.insert(at, (seq, name));
    assert(files@.map_values(model) =~= before.take(at as int).push((seq, name@)) + before.skip(
        at as int,
    ));
}

/// The greatest number of a log file among the names.
pub fn max_wal_seq(names: &Vec<String>) -> (r: Option<u64>)
    ensures
        r is Some == max_seq(text::views(names@)) is Some,
        r is Some ==> r->0 == max_seq(text::views(names@))->0,
{
    let ghost all = text::views(names@);
    let mut max: Option<u64> = None;
    let mut i: usize = 0;
    assert(all.take(0) =~= Seq::<Seq<char>>::empty());
    while i < names.len()
        invariant
            i <= names@.len(),
            all == text::views(names@),
            max is Some == max_seq(all.take(i as int)) is Some,
            max is Some ==> max->0 == max_seq(all.take(i as int))->0,
        decreases names@.len() - i,
    {
        assert(all.take(i + 1).drop_last() =~= all.take(i as int));
        assert(all.take(i + 1).last() == names@[i as int]@);
        match log_file_seq(names[i].as_str()) {
            Some(seq) => {
                max = match max {
                    Some(m) => if seq > m {
                        Some(seq)
                    } else {
                        Some(m)
                    },
                    None => Some(seq),
                };
            },
            None => {},
        }
        i += 1;
    }
    assert(all.take(i as int) =~= all);
    max
}

/// The names of the log files up to the number `through_seq`.
pub fn cleanup_files(names: &Vec<String>, through_seq: u64) -> (r: Vec<String>)
    ensures
        text::views(r@) == cleanup_names(text::views(names@), through_seq),
{
    let ghost all = text::views(names@);
    let mut r: Vec<String> = Vec::new();
    let mut i: usize = 0;
    assert(all.take(0) =~= Seq::<Seq<char>>::empty());
    assert(text::views(r@) =~= Seq::<Seq<char>>::empty());
    while i < names.len()
        invariant
            i <= names@.len(),
            all == text::views(names@),
            text::views(r@) == cleanup_names(all.take(i as int), through_seq),
        decreases names@.len() - i,
    {
        assert(all.take(i + 1).drop_last() =~= all.take(i as int));
        assert(all.take(i + 1).last() == names@[i as int]@);
        match log_file_seq(names[i].as_str()) {
            Some(seq) => if seq <= through_seq {
                let ghost before = r@;
                r.push(names[i].clone());
                assert(text::views(r@) =~= text::views(before).push(names@[i as int]@));
            },
            None => {},
        }
        i += 1;
    }
    assert(all.take(i as int) =~= all);
    r
}

/// The operations of a log file that is about to be written.
#[derive(Debug)]
pub struct LogFile {
    pub seq: u64,
    pub path: String,
    pub ops: Vec<WalOp>,
}

/// The log of an agent: the operations that wait for the next file, and its number.
#[derive(Debug)]
pub struct WalManager {
    pub wal_dir: String,
    pub current_seq: u64,
    pub op_count: usize,
    pub op_limit: usize,
    pub pending_ops: Vec<WalOp>,
    /// Parameters that can change at run time; their limit goes before `op_limit`.
    pub hot: Option<HotConfig>,
}

/// What a log holds.
#[verifier::ext_equal]
pub struct LogModel {
    pub dir: Seq<char>,
    /// The number of the next file.
    pub next: nat,
    pub op_limit: usize,
    pub hot: Option<HotConfig>,
    /// The operations that wait for the next file.
    pub waiting: Seq<wal::OpModel>,
}

impl LogModel {
    /// Whether one more operation may wait.
    pub open spec fn accepts(self) -> bool {
        self.waiting.len() < (match self.hot {
            Some(h) => h.wal_max_buffer_ops,
            None => self.op_limit,
        })
    }

    /// The log with one more operation that waits, where it may.
    pub open spec fn with_op(self, op: wal::OpModel) -> LogModel {
        if self.accepts() {
            LogModel { waiting: self.waiting.push(op), ..self }
        } else {
            self
        }
    }

    /// The log without the waiting operations.
    pub open spec fn emptied(self) -> LogModel {
        LogModel { waiting: Seq::empty(), ..self }
    }

    /// The log after a file: with the next number where it was written.
    pub open spec fn filed(self, written: bool) -> LogModel {
        if written {
            LogModel { next: self.next + 1, ..self }
        } else {
            self
        }
    }
}

impl View for WalManager {
    type V = LogModel;

    open spec fn view(&self) -> LogModel {
        LogModel {
            dir: self.wal_dir@,
            next: self.current_seq as nat,
            op_limit: self.op_limit,
            hot: self.hot,
            waiting: wal::op_models(self.pending_ops@),
        }
    }
}

impl WalManager {
    /// The count is that of the waiting operations.
    pub open spec fn wf(&self) -> bool {
        self.op_count == self.pending_ops@.len()
    }

    /// The number of operations that may wait.
    pub open spec fn limit(&self) -> usize {
        match self.hot {
            Some(h) => h.wal_max_buffer_ops,
            None => self.op_limit,
        }
    }

    /// The log in the directory `data_dir`, which holds the files `names`; `flushed_seq` is
    /// the number of the last file whose rows are safe elsewhere.
    pub fn new(data_dir: &str, config: &WalConfig, names: &Vec<String>, flushed_seq: u64) -> (r:
        WalManager)
        requires
            next_seq(text::views(names@), flushed_seq) <= u64::MAX,
        ensures
            r.wf(),
            r.wal_dir@ == text::path_in(data_dir@, "wal"@),
            r.current_seq == next_seq(text::views(names@), flushed_seq),
            r.op_limit == config.max_write_buffer_ops,
            r.pending_ops@.len() == 0,
            r.hot is None,
            r@ == (LogModel {
                dir: text::path_in(data_dir@, "wal"@),
                next: next_seq(text::views(names@), flushed_seq),
                op_limit: config.max_write_buffer_ops,
                hot: None,
                waiting: Seq::empty(),
            }),
    {
        let highest = match max_wal_seq(names) {
            Some(m) => if m > flushed_seq {
                m
            } else {
                flushed_seq
            },
            None => flushed_seq,
        };
        let pending_ops: Vec<WalOp> = Vec::new();
        assert(wal::op_models(pending_ops@) =~= Seq::<wal::OpModel>::empty());
        WalManager {
            wal_dir: text::join_path(data_dir, "wal"),
            current_seq: highest + 1,
            op_count: 0,
            op_limit: config.max_write_buffer_ops,
            pending_ops,
            hot: None,
        }
    }

    /// Attaches parameters that can change at run time.
    pub fn set_hot_config(&mut self, hot: HotConfig)
        ensures
            *final(self) == (WalManager { hot: Some(hot), ..*old(self) }),
            final(self)@ == (LogModel { hot: Some(hot), ..old(self)@ }),
    {
        self.hot = Some(hot);
    }

    /// The number of the next file.
    pub fn current_sequence(&self) -> (r: u64)
        ensures
            r == self.current_seq,
            r == self@.next,
    {
        self.current_seq
    }

    /// The number of operations that wait for the next file.
    pub fn pending_ops_count(&self) -> (r: usize)
        ensures
            r == self.pending_ops@.len(),
            r == self@.waiting.len(),
    {
        self.pending_ops.len()
    }

    /// Adds an operation that waits for the next file; refused when the limit is reached.
    pub fn buffer_op(&mut self, op: WalOp) -> (r: Result<(), WalError>)
        requires
            old(self).wf(),
        ensures
            final(self).wf(),
            r is Ok == (old(self).op_count < old(self).limit()),
            r is Ok ==> final(self).pending_ops@ == old(self).pending_ops@.push(op),
            r is Err ==> r->Err_0 == WalError::BufferFull(old(self).op_count) && *final(self)
                == *old(self),
            final(self).current_seq == old(self).current_seq,
            final(self).limit() == old(self).limit(),
            final(self).op_limit == old(self).op_limit,
            final(self).hot == old(self).hot,
            final(self).wal_dir == old(self).wal_dir,
            r is Ok == old(self)@.accepts(),
            final(self)@ == old(self)@.with_op(op@),
    {
        let limit = match &self.hot {
            Some(h) => h.wal_max_buffer_ops(),
            None => self.op_limit,
        };
        if self.op_count >= limit {
            return Err(WalError::BufferFull(self.op_count));
        }
        let ghost was = self.pending_ops@;
        let ghost added = op@;
        self.op_count += 1;
        self.pending_ops.push(op);
        assert(wal::op_models(self.pending_ops@) =~= wal::op_models(was).push(added));
        Ok(())
    }

    /// The path of the log file of a given number.
    pub fn wal_file_path(&self, seq: u64) -> (r: String)
        ensures
            r@ == text::path_in(self.wal_dir@, name_of_seq(seq as nat)),
    {
        let name = text::join2(decimal::format_padded(seq).as_str(), ".wal");
        text::join_path(self.wal_dir.as_str(), name.as_str())
    }

    /// Takes the waiting operations for the next log file; nothing where none waits.
    pub fn begin_flush(&mut self) -> (r: Option<LogFile>)
        requires
            old(self).wf(),
        ensures
            final(self).wf(),
            r is Some == (old(self).pending_ops@.len() > 0),
            r is Some ==> r->0.seq == old(self).current_seq && r->0.path@ == text::path_in(
                old(self).wal_dir@,
                name_of_seq(old(self).current_seq as nat),
            ) && r->0.ops@ == old(self).pending_ops@,
            final(self).pending_ops@.len() == 0,
            final(self).current_seq == old(self).current_seq,
            final(self).op_limit == old(self).op_limit,
            final(self).hot == old(self).hot,
            final(self).wal_dir == old(self).wal_dir,
            final(self)@ == old(self)@.emptied(),
    {
        if self.pending_ops.len() == 0 {
            assert(wal::op_models(self.pending_ops@) =~= Seq::<wal::OpModel>::empty());
            return None;
        }
        let path = self.wal_file_path(self.current_seq);
        let mut ops: Vec<WalOp> = Vec::new();
        std::mem::swap(&mut ops, &mut self.pending_ops);
        self.op_count = 0;
        assert(wal::op_models(self.pending_ops@) =~= Seq::<wal::OpModel>::empty());
        Some(LogFile { seq: self.current_seq, path, ops })
    }

    /// Takes the outcome of writing the log file. On success the next file gets the next
    /// number; on failure the number stays.
    pub fn finish_flush(&mut self, outcome: Result<(), String>) -> (r: Result<(), WalError>)
        requires
            old(self).current_seq < u64::MAX,
        ensures
            r is Ok == outcome is Ok,
            r is Ok ==> *final(self) == (WalManager {
                current_seq: (old(self).current_seq + 1) as u64,
                ..*old(self)
            }),
            r is Err ==> *final(self) == *old(self) && r->Err_0 is WriteError
                && r->Err_0->WriteError_0@ == "write WAL "@ + decimal::numeral(
                old(self).current_seq as nat,
            ) + ": "@ + outcome->Err_0@,
            final(self)@ == old(self)@.filed(outcome is Ok),
    {
        match outcome {
            Ok(()) => {
                self.current_seq = self.current_seq + 1;
                Ok(())
            },
            Err(e) => {
                let mut message = text::join3(
                    "write WAL ",
                    decimal::format_u64(self.current_seq).as_str(),
                    ": ",
                );
                message.append(e.as_str());
                Err(WalError::WriteError(message))
            },
        }
    }
}

/// Takes the outcome of writing a log file and, on success, applies its operations to the
/// buffer under the number of that file. Returns how many operations there were.
pub fn flush_and_apply(
    wal: &mut WalManager,
    buffer: &mut Buffer,
    file: &LogFile,
    outcome: Result<(), String>,
) -> (r: Result<usize, WalError>)
    requires
        old(wal).current_seq == file.seq,
        file.seq < u64::MAX,
        old(buffer).wf(),
    ensures
        final(buffer).wf(),
        r is Ok == outcome is Ok,
        r is Ok ==> r->Ok_0 == file.ops@.len() && *final(wal) == (WalManager {
            current_seq: (file.seq + 1) as u64,
            ..*old(wal)
        }) && final(buffer)@ == after_ops(old(buffer)@, wal::op_models(file.ops@), file.seq),
        r is Err ==> *final(wal) == *old(wal) && *final(buffer) == *old(buffer) && r->Err_0
            is WriteError && r->Err_0->WriteError_0@ == "write WAL "@ + decimal::numeral(
            file.seq as nat,
        ) + ": "@ + outcome->Err_0@,
        final(wal)@ == old(wal)@.filed(outcome is Ok),
{
    match wal.finish_flush(outcome) {
        Ok(()) => {
            apply_ops(buffer, &file.ops, file.seq);
            Ok(file.ops.len())
        },
        Err(e) => Err(e),
    }
}

/// The databases after the operations of some log files, in order.
pub open spec fn after_files(
    dbs: Seq<buffer::DatabaseModel>,
    files: Seq<(u64, Seq<wal::OpModel>)>,
) -> Seq<buffer::DatabaseModel>
    decreases files.len(),
{
    if files.len() == 0 {
        dbs
    } else {
        after_ops(after_files(dbs, files.drop_last()), files.last().1, files.last().0)
    }
}

/// Applies the operations of the log files that could be read to the buffer, in order.
pub fn replay(buffer: &mut Buffer, files: &Vec<(u64, Vec<WalOp>)>)
    requires
        old(buffer).wf(),
    ensures
        final(buffer).wf(),
        final(buffer)@ == after_files(
            old(buffer)@,
            files@.map_values(|f: (u64, Vec<WalOp>)| (f.0, wal::op_models(f.1@))),
        ),
{
    let ghost model = |f: (u64, Vec<WalOp>)| (f.0, wal::op_models(f.1@));
    let ghost all = files@.map_values(model);
    let ghost before = buffer@;
    let mut i: usize = 0;
    assert(all.take(0) =~= Seq::<(u64, Seq<wal::OpModel>)>::empty());
    while i < files.len()
        invariant
            i <= files@.len(),
            model == (|f: (u64, Vec<WalOp>)| (f.0, wal::op_models(f.1@))),
            all == files@.map_values(model),
            buffer.wf(),
            buffer@ == after_files(before, all.take(i as int)),
        decreases files@.len() - i,
    {
        assert(all.take(i + 1).drop_last() =~= all.take(i as int));
        assert(all.take(i + 1).last() == model(files@[i as int]));
        apply_ops(buffer, &files[i].1, files[i].0);
        i += 1;
    }
    assert(all.take(i as int) =~= all);
}

} // verus!
