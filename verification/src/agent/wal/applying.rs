//! What a logged batch does to the table that it is for, and to nothing else.

use crate::agent::buffer;
use crate::agent::buffer::chunk;
use crate::agent::buffer::chunk::FieldType;
use crate::agent::wal;
use crate::agent::wal::wal_core;
use vstd::prelude::*;

verus! {

/// The type of a value is that of its variant, and of no other.
pub proof fn types_are_those_of_the_values(v: chunk::FieldModel)
    ensures
        chunk::type_of(v) == FieldType::F64 <==> v is F64,
        chunk::type_of(v) == FieldType::I64 <==> v is I64,
        chunk::type_of(v) == FieldType::U64 <==> v is U64,
        chunk::type_of(v) == FieldType::Bool <==> v is Bool,
        chunk::type_of(v) == FieldType::String <==> v is Text,
{
}

/// Whether a row has a value at a position.
pub open spec fn valued(row: chunk::RowModel, k: int) -> bool {
    0 <= k < row.fields.len() && row.fields[k] is Some
}

/// Whether a name stands at a position for the first time.
pub open spec fn first_named(names: Seq<Seq<char>>, k: int) -> bool {
    &&& 0 <= k < names.len()
    &&& forall|m: int| 0 <= m < k ==> #[trigger] names[m] != names[k]
}

/// Whether the `r`-th row is the first that has a value at a position.
pub open spec fn first_valued(rows: Seq<chunk::RowModel>, k: int, r: int) -> bool {
    &&& 0 <= r < rows.len()
    &&& valued(rows[r], k)
    &&& forall|q: int| 0 <= q < r ==> !valued(#[trigger] rows[q], k)
}

/// Whether some row has a value at a position.
pub open spec fn has_value(rows: Seq<chunk::RowModel>, k: int) -> bool {
    exists|r: int| 0 <= r < rows.len() && valued(#[trigger] rows[r], k)
}

/// Whether a field comes from a batch: from a name that stands there for the first time, with
/// the type of the first value that the rows have for it.
pub open spec fn field_of_batch(
    names: Seq<Seq<char>>,
    rows: Seq<chunk::RowModel>,
    field: (Seq<char>, FieldType),
    k: int,
    r: int,
) -> bool {
    &&& first_named(names, k)
    &&& names[k] == field.0
    &&& first_valued(rows, k, r)
    &&& chunk::type_of(rows[r].fields[k]->0) == field.1
}

pub open spec fn is_field_of_batch(
    names: Seq<Seq<char>>,
    rows: Seq<chunk::RowModel>,
    field: (Seq<char>, FieldType),
) -> bool {
    exists|k: int, r: int| #[trigger] field_of_batch(names, rows, field, k, r)
}

proof fn lemma_first_type(rows: Seq<chunk::RowModel>, k: int)
    requires
        0 <= k,
    ensures
        match wal_core::first_type(rows, k) {
            Some(t) => exists|r: int| #[trigger]
                first_valued(rows, k, r) && chunk::type_of(rows[r].fields[k]->0) == t,
            None => forall|r: int| 0 <= r < rows.len() ==> !valued(#[trigger] rows[r], k),
        },
    decreases rows.len(),
{
    if rows.len() > 0 {
        let rest = rows.drop_first();
        if valued(rows[0], k) {
            assert(first_valued(rows, k, 0));
        } else {
            lemma_first_type(rest, k);
            match wal_core::first_type(rest, k) {
                Some(t) => {
                    let r = choose|r: int| #[trigger]
                        first_valued(rest, k, r) && chunk::type_of(rest[r].fields[k]->0) == t;
                    assert(rest[r] == rows[r + 1]);
                    assert forall|q: int| 0 <= q < r + 1 implies !valued(#[trigger] rows[q], k) by {
                        if q > 0 {
                            assert(rest[q - 1] == rows[q]);
                        }
                    }
                    assert(first_valued(rows, k, r + 1));
                },
                None => {
                    assert forall|r: int| 0 <= r < rows.len() implies !valued(
                        #[trigger] rows[r],
                        k,
                    ) by {
                        if r > 0 {
                            assert(rest[r - 1] == rows[r]);
                        }
                    }
                },
            }
        }
    }
}

proof fn lemma_position_first(names: Seq<Seq<char>>, k: int)
    requires
        0 <= k < names.len(),
    ensures
        first_named(names, wal_core::name_position(names, names[k])),
        names[wal_core::name_position(names, names[k])] == names[k],
        wal_core::name_position(names, names[k]) <= k,
        first_named(names, k) ==> wal_core::name_position(names, names[k]) == k,
    decreases names.len(),
{
    let p = wal_core::name_position(names, names[k]);
    if names[0] != names[k] {
        let rest = names.drop_first();
        assert(rest[k - 1] == names[k]);
        lemma_position_first(rest, k - 1);
        let q = wal_core::name_position(rest, rest[k - 1]);
        assert(p == q + 1);
        assert(names[p] == rest[q]);
        assert forall|m: int| 0 <= m < p implies #[trigger] names[m] != names[p] by {
            if m > 0 {
                assert(rest[m - 1] == names[m]);
            }
        }
        if first_named(names, k) && p < k {
            assert(names[p] != names[k]);
        }
    } else {
        if first_named(names, k) && 0 < k {
            assert(names[0] != names[k]);
        }
    }
}

proof fn lemma_with_tags(s: chunk::SchemaModel, keys: Seq<Seq<char>>)
    ensures
        ({
            let after = wal_core::with_tags(s, keys);
            &&& after.fields == s.fields
            &&& s.tag_keys.is_prefix_of(after.tag_keys)
            &&& forall|k: int| 0 <= k < keys.len() ==> after.tag_keys.contains(#[trigger] keys[k])
            &&& forall|i: int|
                s.tag_keys.len() <= i < after.tag_keys.len() ==> keys.contains(
                    #[trigger] after.tag_keys[i],
                )
            &&& forall|i: int, j: int|
                #![trigger after.tag_keys[i], after.tag_keys[j]]
                0 <= i < j < after.tag_keys.len() && s.tag_keys.len() <= j ==> after.tag_keys[i]
                    != after.tag_keys[j]
        }),
    decreases keys.len(),
{
    if keys.len() > 0 {
        let front = keys.drop_last();
        let before = wal_core::with_tags(s, front);
        let after = wal_core::with_tags(s, keys);
        lemma_with_tags(s, front);
        assert forall|k: int| 0 <= k < keys.len() implies after.tag_keys.contains(
            #[trigger] keys[k],
        ) by {
            if k < front.len() {
                assert(front[k] == keys[k]);
                let i = choose|i: int|
                    0 <= i < before.tag_keys.len() && before.tag_keys[i] == keys[k];
                assert(after.tag_keys[i] == keys[k]);
            } else if !before.tag_keys.contains(keys.last()) {
                assert(after.tag_keys[before.tag_keys.len() as int] == keys.last());
            }
        }
        assert forall|i: int|
            s.tag_keys.len() <= i < after.tag_keys.len() implies keys.contains(
            #[trigger] after.tag_keys[i],
        ) by {
            if i < before.tag_keys.len() {
                assert(before.tag_keys[i] == after.tag_keys[i]);
                let k = choose|k: int| 0 <= k < front.len() && front[k] == before.tag_keys[i];
                assert(keys[k] == after.tag_keys[i]);
            } else {
                assert(keys[keys.len() - 1] == after.tag_keys[i]);
            }
        }
        assert forall|i: int, j: int|
            #![trigger after.tag_keys[i], after.tag_keys[j]]
            0 <= i < j < after.tag_keys.len() && s.tag_keys.len() <= j implies after.tag_keys[i]
            != after.tag_keys[j] by {
            assert(after.tag_keys[i] == before.tag_keys[i]);
            if j < before.tag_keys.len() {
                assert(after.tag_keys[j] == before.tag_keys[j]);
            } else {
                assert(before.tag_keys.contains(before.tag_keys[i]));
            }
        }
    }
}

proof fn lemma_with_fields(
    s: chunk::SchemaModel,
    names: Seq<Seq<char>>,
    rows: Seq<chunk::RowModel>,
    n: int,
)
    requires
        0 <= n <= names.len(),
    ensures
        ({
            let after = wal_core::with_fields(s, names, rows, n);
            &&& after.tag_keys == s.tag_keys
            &&& s.fields.is_prefix_of(after.fields)
            &&& forall|k: int, r: int|
                #![trigger valued(rows[r], k)]
                0 <= k < n && first_named(names, k) && 0 <= r < rows.len() && valued(rows[r], k)
                    ==> chunk::has_field(after, names[k])
            &&& forall|i: int|
                s.fields.len() <= i < after.fields.len() ==> is_field_of_batch(
                    names,
                    rows,
                    #[trigger] after.fields[i],
                )
            &&& forall|i: int, j: int|
                #![trigger after.fields[i], after.fields[j]]
                0 <= i < j < after.fields.len() && s.fields.len() <= j ==> after.fields[i].0
                    != after.fields[j].0
        }),
    decreases n,
{
    if n > 0 {
        let before = wal_core::with_fields(s, names, rows, n - 1);
        let after = wal_core::with_fields(s, names, rows, n);
        let name = names[n - 1];
        let p = wal_core::name_position(names, name);
        lemma_with_fields(s, names, rows, n - 1);
        lemma_position_first(names, n - 1);
        lemma_first_type(rows, p);
        assert(before.fields.is_prefix_of(after.fields));
        assert forall|i: int| 0 <= i < before.fields.len() implies after.fields[i]
            == #[trigger] before.fields[i] by {}
        assert forall|k: int, r: int|
            #![trigger valued(rows[r], k)]
            0 <= k < n && first_named(names, k) && 0 <= r < rows.len() && valued(
                rows[r],
                k,
            ) implies chunk::has_field(after, names[k]) by {
            if k < n - 1 {
                assert(chunk::has_field(before, names[k]));
                let i = choose|i: int|
                    0 <= i < before.fields.len() && (#[trigger] before.fields[i]).0 == names[k];
                assert(after.fields[i].0 == names[k]);
            } else {
                assert(p == k);
                assert(wal_core::first_type(rows, p) is Some);
                if chunk::has_field(before, name) {
                    let i = choose|i: int|
                        0 <= i < before.fields.len() && (#[trigger] before.fields[i]).0 == name;
                    assert(after.fields[i].0 == name);
                } else {
                    assert(after.fields[before.fields.len() as int].0 == name);
                }
            }
        }
        assert forall|i: int| s.fields.len() <= i < after.fields.len() implies is_field_of_batch(
            names,
            rows,
            #[trigger] after.fields[i],
        ) by {
            if i < before.fields.len() {
                assert(after.fields[i] == before.fields[i]);
            } else {
                let t = wal_core::first_type(rows, p)->0;
                let r = choose|r: int| #[trigger]
                    first_valued(rows, p, r) && chunk::type_of(rows[r].fields[p]->0) == t;
                assert(field_of_batch(names, rows, after.fields[i], p, r));
            }
        }
        assert forall|i: int, j: int|
            #![trigger after.fields[i], after.fields[j]]
            0 <= i < j < after.fields.len() && s.fields.len() <= j implies after.fields[i].0
            != after.fields[j].0 by {
            assert(after.fields[i] == before.fields[i]);
            if j < before.fields.len() {
                assert(after.fields[j] == before.fields[j]);
            }
        }
    }
}

/// What a batch makes of the schema of its table. What was there stays as it is, in front.
/// Every tag of the batch is there, and every field that has a value in some row of the
/// batch; what is new comes from the batch, a field with the type of its first value, and
/// stands there once.
pub proof fn batch_evolves_the_schema(s: chunk::SchemaModel, batch: wal::BatchModel)
    ensures
        ({
            let after = wal_core::evolved(s, batch);
            &&& s.tag_keys.is_prefix_of(after.tag_keys)
            &&& s.fields.is_prefix_of(after.fields)
            &&& forall|k: int|
                0 <= k < batch.tag_keys.len() ==> after.tag_keys.contains(
                    #[trigger] batch.tag_keys[k],
                )
            &&& forall|i: int|
                s.tag_keys.len() <= i < after.tag_keys.len() ==> batch.tag_keys.contains(
                    #[trigger] after.tag_keys[i],
                )
            &&& forall|i: int, j: int|
                #![trigger after.tag_keys[i], after.tag_keys[j]]
                0 <= i < j < after.tag_keys.len() && s.tag_keys.len() <= j ==> after.tag_keys[i]
                    != after.tag_keys[j]
            &&& forall|k: int, r: int|
                #![trigger valued(batch.rows[r], k)]
                first_named(batch.field_names, k) && 0 <= r < batch.rows.len() && valued(
                    batch.rows[r],
                    k,
                ) ==> exists|i: int|
                    0 <= i < after.fields.len() && (#[trigger] after.fields[i]).0
                        == batch.field_names[k]
            &&& forall|i: int|
                s.fields.len() <= i < after.fields.len() ==> is_field_of_batch(
                    batch.field_names,
                    batch.rows,
                    #[trigger] after.fields[i],
                )
            &&& forall|i: int, j: int|
                #![trigger after.fields[i], after.fields[j]]
                0 <= i < j < after.fields.len() && s.fields.len() <= j ==> after.fields[i].0
                    != after.fields[j].0
        }),
{
    let tagged = wal_core::with_tags(s, batch.tag_keys);
    lemma_with_tags(s, batch.tag_keys);
    lemma_with_fields(tagged, batch.field_names, batch.rows, batch.field_names.len() as int);
    let after = wal_core::evolved(s, batch);
    assert forall|k: int, r: int|
        #![trigger valued(batch.rows[r], k)]
        first_named(batch.field_names, k) && 0 <= r < batch.rows.len() && valued(
            batch.rows[r],
            k,
        ) implies exists|i: int|
        0 <= i < after.fields.len() && (#[trigger] after.fields[i]).0 == batch.field_names[k] by {
        assert(chunk::has_field(after, batch.field_names[k]));
    }
}

proof fn lemma_new_tags_in_order(s: chunk::SchemaModel, keys: Seq<Seq<char>>)
    requires
        s.tag_keys.len() == 0,
        keys.no_duplicates(),
    ensures
        wal_core::with_tags(s, keys).tag_keys == keys,
    decreases keys.len(),
{
    if keys.len() > 0 {
        let front = keys.drop_last();
        assert(front.no_duplicates()) by {
            assert forall|i: int, j: int|
                0 <= i < front.len() && 0 <= j < front.len() && i != j implies front[i]
                != front[j] by {
                assert(front[i] == keys[i] && front[j] == keys[j]);
            }
        }
        lemma_new_tags_in_order(s, front);
        if front.contains(keys.last()) {
            let i = choose|i: int| 0 <= i < front.len() && front[i] == keys.last();
            assert(keys[i] == keys[keys.len() - 1]);
        }
        assert(front.push(keys.last()) =~= keys);
    } else {
        assert(keys =~= s.tag_keys);
    }
}

proof fn lemma_new_fields_in_order(
    s: chunk::SchemaModel,
    names: Seq<Seq<char>>,
    rows: Seq<chunk::RowModel>,
    n: int,
)
    requires
        s.fields.len() == 0,
        names.no_duplicates(),
        0 <= n <= names.len(),
        forall|k: int| 0 <= k < names.len() ==> #[trigger] has_value(rows, k),
    ensures
        wal_core::with_fields(s, names, rows, n).fields.len() == n,
        forall|k: int|
            0 <= k < n ==> (#[trigger] wal_core::with_fields(s, names, rows, n).fields[k]).0
                == names[k],
    decreases n,
{
    if n > 0 {
        let before = wal_core::with_fields(s, names, rows, n - 1);
        lemma_new_fields_in_order(s, names, rows, n - 1);
        let p = wal_core::name_position(names, names[n - 1]);
        lemma_position_first(names, n - 1);
        assert(first_named(names, n - 1)) by {
            assert forall|m: int| 0 <= m < n - 1 implies #[trigger] names[m] != names[n - 1] by {}
        }
        lemma_first_type(rows, p);
        assert(has_value(rows, n - 1));
        let r = choose|r: int| 0 <= r < rows.len() && valued(#[trigger] rows[r], n - 1);
        assert(valued(rows[r], p));
        if chunk::has_field(before, names[n - 1]) {
            let i = choose|i: int|
                0 <= i < before.fields.len() && (#[trigger] before.fields[i]).0 == names[n - 1];
            assert(names[i] == names[n - 1]);
        }
    }
}

/// The first batch of a table gives it its columns: the tags in the order of the batch, by
/// which the values of its rows stand, and the fields in theirs.
pub proof fn first_batch_gives_the_columns(batch: wal::BatchModel)
    requires
        batch.tag_keys.no_duplicates(),
        batch.field_names.no_duplicates(),
        forall|k: int|
            0 <= k < batch.field_names.len() ==> #[trigger] has_value(batch.rows, k),
    ensures
        ({
            let after = wal_core::evolved(chunk::new_table().schema, batch);
            &&& after.tag_keys == batch.tag_keys
            &&& after.fields.len() == batch.field_names.len()
            &&& forall|k: int|
                0 <= k < batch.field_names.len() ==> (#[trigger] after.fields[k]).0
                    == batch.field_names[k]
        }),
{
    let s = chunk::new_table().schema;
    let tagged = wal_core::with_tags(s, batch.tag_keys);
    lemma_new_tags_in_order(s, batch.tag_keys);
    lemma_with_tags(s, batch.tag_keys);
    lemma_new_fields_in_order(
        tagged,
        batch.field_names,
        batch.rows,
        batch.field_names.len() as int,
    );
    lemma_with_fields(tagged, batch.field_names, batch.rows, batch.field_names.len() as int);
}

proof fn lemma_rows_added(c: chunk::ChunkModel, rows: Seq<chunk::RowModel>, wal_seq: u64)
    ensures
        ({
            let after = wal_core::with_rows(c, rows, wal_seq);
            &&& after.chunk_time == c.chunk_time
            &&& after.rows == c.rows + rows
            &&& after.time_min <= c.time_min
            &&& after.time_max >= c.time_max
            &&& forall|r: int|
                0 <= r < rows.len() ==> after.time_min <= (#[trigger] rows[r]).time
                    <= after.time_max
            &&& after.time_min == c.time_min || exists|r: int|
                0 <= r < rows.len() && (#[trigger] rows[r]).time == after.time_min
            &&& after.time_max == c.time_max || exists|r: int|
                0 <= r < rows.len() && (#[trigger] rows[r]).time == after.time_max
            &&& rows.len() > 0 ==> after.min_wal_seq <= wal_seq <= after.max_wal_seq
            &&& after.min_wal_seq <= c.min_wal_seq
            &&& after.max_wal_seq >= c.max_wal_seq
            &&& after.min_wal_seq == c.min_wal_seq || rows.len() > 0 && after.min_wal_seq
                == wal_seq
            &&& after.max_wal_seq == c.max_wal_seq || rows.len() > 0 && after.max_wal_seq
                == wal_seq
        }),
    decreases rows.len(),
{
    if rows.len() > 0 {
        let front = rows.drop_last();
        let before = wal_core::with_rows(c, front, wal_seq);
        let after = wal_core::with_rows(c, rows, wal_seq);
        lemma_rows_added(c, front, wal_seq);
        assert(c.rows + rows =~= (c.rows + front).push(rows.last()));
        assert forall|r: int| 0 <= r < rows.len() implies after.time_min <= (
        #[trigger] rows[r]).time <= after.time_max by {
            if r < front.len() {
                assert(front[r] == rows[r]);
            }
        }
        if after.time_min != c.time_min {
            if after.time_min == before.time_min {
                let r = choose|r: int|
                    0 <= r < front.len() && (#[trigger] front[r]).time == before.time_min;
                assert(rows[r].time == after.time_min);
            } else {
                assert(rows[rows.len() - 1].time == after.time_min);
            }
        }
        if after.time_max != c.time_max {
            if after.time_max == before.time_max {
                let r = choose|r: int|
                    0 <= r < front.len() && (#[trigger] front[r]).time == before.time_max;
                assert(rows[r].time == after.time_max);
            } else {
                assert(rows[rows.len() - 1].time == after.time_max);
            }
        }
    } else {
        assert(c.rows + rows =~= c.rows);
    }
}

/// What a batch makes of the chunks of its table. Its rows stand, in their order, behind
/// those that the chunk of its time had; a chunk that was not there comes last. The chunk
/// spans the times of its rows, and needs the log file that the batch is in. Every other
/// chunk stays as it is.
pub proof fn batch_fills_one_chunk(t: chunk::TableModel, batch: wal::BatchModel, wal_seq: u64)
    ensures
        ({
            let after = wal_core::applied(t, batch, wal_seq).chunks;
            exists|p: int| #[trigger] chunk_filled(t.chunks, after, batch, wal_seq, p)
        }),
{
    let after = wal_core::applied(t, batch, wal_seq).chunks;
    let p = chunk::chunk_position(t.chunks, batch.chunk_time);
    let chunks = chunk::with_chunk(t.chunks, batch.chunk_time);
    chunk::lemma_chunk_position(t.chunks, batch.chunk_time);
    lemma_rows_added(chunks[p], batch.rows, wal_seq);
    if p == t.chunks.len() && batch.rows.len() > 0 {
        assert(after[p].time_min <= batch.rows[0].time <= after[p].time_max);
        assert(is_time_of(batch.rows, after[p].time_min));
        assert(is_time_of(batch.rows, after[p].time_max));
    }
    if p == t.chunks.len() {
        assert(Seq::<chunk::RowModel>::empty() + batch.rows =~= batch.rows);
    }
    assert(chunk_filled(t.chunks, after, batch, wal_seq, p));
}

/// Whether the chunks `after` are the chunks `before` with the rows of a batch in the one at
/// position `p`.
pub open spec fn chunk_filled(
    before: Seq<chunk::ChunkModel>,
    after: Seq<chunk::ChunkModel>,
    batch: wal::BatchModel,
    wal_seq: u64,
    p: int,
) -> bool {
    &&& 0 <= p <= before.len()
    &&& p < after.len()
    &&& after.len() == before.len() || p == before.len() && after.len() == before.len() + 1
    &&& forall|i: int| 0 <= i < p ==> (#[trigger] before[i]).chunk_time != batch.chunk_time
    &&& forall|i: int| 0 <= i < before.len() && i != p ==> #[trigger] after[i] == before[i]
    &&& after[p].chunk_time == batch.chunk_time
    &&& forall|r: int|
        0 <= r < batch.rows.len() ==> after[p].time_min <= (#[trigger] batch.rows[r]).time
            <= after[p].time_max
    &&& batch.rows.len() > 0 ==> after[p].min_wal_seq <= wal_seq <= after[p].max_wal_seq
    &&& if p < before.len() {
        &&& before[p].chunk_time == batch.chunk_time
        &&& after[p].rows == before[p].rows + batch.rows
        &&& after[p].time_min <= before[p].time_min && after[p].time_max >= before[p].time_max
        &&& after[p].time_min == before[p].time_min || is_time_of(batch.rows, after[p].time_min)
        &&& after[p].time_max == before[p].time_max || is_time_of(batch.rows, after[p].time_max)
        &&& after[p].min_wal_seq <= before[p].min_wal_seq
        &&& after[p].max_wal_seq >= before[p].max_wal_seq
        &&& after[p].min_wal_seq == before[p].min_wal_seq || after[p].min_wal_seq == wal_seq
        &&& after[p].max_wal_seq == before[p].max_wal_seq || after[p].max_wal_seq == wal_seq
    } else {
        &&& after[p].rows == batch.rows
        &&& batch.rows.len() > 0 ==> is_time_of(batch.rows, after[p].time_min)
        &&& batch.rows.len() > 0 ==> is_time_of(batch.rows, after[p].time_max)
        &&& batch.rows.len() > 0 ==> after[p].min_wal_seq == wal_seq && after[p].max_wal_seq
            == wal_seq
        &&& batch.rows.len() == 0 ==> after[p].min_wal_seq == u64::MAX && after[p].max_wal_seq == 0
    }
}

/// Whether a time is that of one of some rows.
pub open spec fn is_time_of(rows: Seq<chunk::RowModel>, time: i64) -> bool {
    exists|r: int| 0 <= r < rows.len() && (#[trigger] rows[r]).time == time
}

/// A batch reaches the table that it names, which is made where it is new, and no other.
pub proof fn batch_reaches_its_table_alone(
    dbs: Seq<buffer::DatabaseModel>,
    batch: wal::BatchModel,
    wal_seq: u64,
    db: Seq<char>,
    table: Seq<char>,
)
    ensures
        ({
            let after = buffer::table_of(wal_core::after_batch(dbs, batch, wal_seq), db, table);
            let before = buffer::table_of(dbs, db, table);
            &&& db != batch.db || table != batch.table ==> after == before
            &&& db == batch.db && table == batch.table ==> {
                let t = match before {
                    Some(t) => t,
                    None => chunk::TableModel {
                        schema: chunk::SchemaModel { tag_keys: Seq::empty(), fields: Seq::empty() },
                        chunks: Seq::empty(),
                    },
                };
                after == Some(wal_core::applied(t, batch, wal_seq))
            }
        }),
{
    let t = match buffer::table_of(dbs, batch.db, batch.table) {
        Some(t) => t,
        None => chunk::new_table(),
    };
    buffer::put_then_get(
        dbs,
        batch.db,
        batch.table,
        wal_core::applied(t, batch, wal_seq),
        db,
        table,
    );
}

/// The operations of a log file are applied one after the other: none leaves the buffer as
/// it is, one that writes applies its batch, and those of a longer list follow those in
/// front of them.
pub proof fn operations_are_applied_in_order(
    dbs: Seq<buffer::DatabaseModel>,
    front: Seq<wal::OpModel>,
    back: Seq<wal::OpModel>,
    batch: wal::BatchModel,
    wal_seq: u64,
)
    ensures
        wal_core::after_ops(dbs, Seq::empty(), wal_seq) == dbs,
        wal_core::after_ops(dbs, seq![wal::OpModel::Noop], wal_seq) == dbs,
        wal_core::after_ops(dbs, seq![wal::OpModel::Write(batch)], wal_seq)
            == wal_core::after_batch(dbs, batch, wal_seq),
        wal_core::after_ops(dbs, front + back, wal_seq) == wal_core::after_ops(
            wal_core::after_ops(dbs, front, wal_seq),
            back,
            wal_seq,
        ),
    decreases back.len(),
{
    reveal_with_fuel(wal_core::after_ops, 2);
    assert(seq![wal::OpModel::Noop].drop_last() =~= Seq::<wal::OpModel>::empty());
    assert(seq![wal::OpModel::Write(batch)].drop_last() =~= Seq::<wal::OpModel>::empty());
    if back.len() == 0 {
        assert(front + back =~= front);
    } else {
        operations_are_applied_in_order(dbs, front, back.drop_last(), batch, wal_seq);
        assert((front + back).drop_last() =~= front + back.drop_last());
        assert((front + back).last() == back.last());
    }
}

/// Log files are replayed one after the other, each under its own number.
pub proof fn files_are_replayed_in_order(
    dbs: Seq<buffer::DatabaseModel>,
    front: Seq<(u64, Seq<wal::OpModel>)>,
    back: Seq<(u64, Seq<wal::OpModel>)>,
    file: (u64, Seq<wal::OpModel>),
)
    ensures
        wal_core::after_files(dbs, Seq::empty()) == dbs,
        wal_core::after_files(dbs, seq![file]) == wal_core::after_ops(dbs, file.1, file.0),
        wal_core::after_files(dbs, front + back) == wal_core::after_files(
            wal_core::after_files(dbs, front),
            back,
        ),
    decreases back.len(),
{
    reveal_with_fuel(wal_core::after_files, 2);
    assert(seq![file].drop_last() =~= Seq::<(u64, Seq<wal::OpModel>)>::empty());
    if back.len() == 0 {
        assert(front + back =~= front);
    } else {
        files_are_replayed_in_order(dbs, front, back.drop_last(), file);
        assert((front + back).drop_last() =~= front + back.drop_last());
        assert((front + back).last() == back.last());
    }
}

} // verus!
