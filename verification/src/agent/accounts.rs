//! What an agent tells of what it holds: numbers of rows, sizes, times and schemas.

use crate::agent::buffer;
use crate::agent::buffer::chunk;
use crate::agent::federation_query;
use crate::agent::hot_config;
use crate::agent::hot_config::HotConfig;
use crate::agent::status;
use crate::agent::{ChangeModel, Reported, TableReport};
use crate::config;
use crate::json;
use crate::text;
use crate::time;
use vstd::prelude::*;

verus! {

/// A value takes the bytes of its text, one byte for a truth value, eight for a number, and
/// none where it is missing.
pub proof fn values_have_their_sizes(s: Seq<char>, n: u64, i: i64, b: bool)
    ensures
        chunk::field_size(Some(chunk::FieldModel::Text(s))) == vstd::utf8::encode_utf8(s).len(),
        chunk::field_size(Some(chunk::FieldModel::Bool(b))) == 1,
        chunk::field_size(Some(chunk::FieldModel::F64(n))) == 8,
        chunk::field_size(Some(chunk::FieldModel::U64(n))) == 8,
        chunk::field_size(Some(chunk::FieldModel::I64(i))) == 8,
        chunk::field_size(None) == 0,
{
}

/// The size of tags is the sum of the sizes of their values.
pub proof fn tag_sizes_add_up(a: Seq<Seq<char>>, b: Seq<Seq<char>>, tag: Seq<char>)
    ensures
        chunk::tags_size(Seq::empty()) == 0,
        chunk::tags_size(seq![tag]) == vstd::utf8::encode_utf8(tag).len(),
        chunk::tags_size(a + b) == chunk::tags_size(a) + chunk::tags_size(b),
    decreases b.len(),
{
    reveal_with_fuel(chunk::tags_size, 2);
    assert(seq![tag].drop_last() =~= Seq::empty());
    if b.len() == 0 {
        assert(a + b =~= a);
    } else {
        tag_sizes_add_up(a, b.drop_last(), tag);
        assert((a + b).drop_last() =~= a + b.drop_last());
    }
}

/// The size of fields is the sum of the sizes of their values.
pub proof fn field_sizes_add_up(
    a: Seq<Option<chunk::FieldModel>>,
    b: Seq<Option<chunk::FieldModel>>,
    field: Option<chunk::FieldModel>,
)
    ensures
        chunk::fields_size(Seq::empty()) == 0,
        chunk::fields_size(seq![field]) == chunk::field_size(field),
        chunk::fields_size(a + b) == chunk::fields_size(a) + chunk::fields_size(b),
    decreases b.len(),
{
    reveal_with_fuel(chunk::fields_size, 2);
    assert(seq![field].drop_last() =~= Seq::empty());
    if b.len() == 0 {
        assert(a + b =~= a);
    } else {
        field_sizes_add_up(a, b.drop_last(), field);
        assert((a + b).drop_last() =~= a + b.drop_last());
    }
}

/// The size of rows is the sum of their sizes: eight bytes for the time of each, its tags and
/// its fields.
pub proof fn row_sizes_add_up(a: Seq<chunk::RowModel>, b: Seq<chunk::RowModel>, row: chunk::RowModel)
    ensures
        chunk::rows_size(Seq::empty()) == 0,
        chunk::rows_size(seq![row]) == 8 + chunk::tags_size(row.tags) + chunk::fields_size(
            row.fields,
        ),
        chunk::rows_size(a + b) == chunk::rows_size(a) + chunk::rows_size(b),
    decreases b.len(),
{
    reveal_with_fuel(chunk::rows_size, 2);
    assert(seq![row].drop_last() =~= Seq::empty());
    if b.len() == 0 {
        assert(a + b =~= a);
    } else {
        row_sizes_add_up(a, b.drop_last(), row);
        assert((a + b).drop_last() =~= a + b.drop_last());
    }
}

/// Chunks have the size and the number of rows of all of them together.
pub proof fn chunks_add_up(
    a: Seq<chunk::ChunkModel>,
    b: Seq<chunk::ChunkModel>,
    c: chunk::ChunkModel,
)
    ensures
        chunk::chunks_size(Seq::empty()) == 0,
        chunk::chunks_size(seq![c]) == chunk::rows_size(c.rows),
        chunk::chunks_size(a + b) == chunk::chunks_size(a) + chunk::chunks_size(b),
        status::row_total(Seq::empty()) == 0,
        status::row_total(seq![c]) == c.rows.len(),
        status::row_total(a + b) == status::row_total(a) + status::row_total(b),
    decreases b.len(),
{
    reveal_with_fuel(chunk::chunks_size, 2);
    reveal_with_fuel(status::row_total, 2);
    assert(seq![c].drop_last() =~= Seq::empty());
    if b.len() == 0 {
        assert(a + b =~= a);
    } else {
        chunks_add_up(a, b.drop_last(), c);
        assert((a + b).drop_last() =~= a + b.drop_last());
    }
}

/// Tables have the size and the number of rows of the chunks of all of them together.
pub proof fn tables_add_up(
    a: Seq<(Seq<char>, chunk::TableModel)>,
    b: Seq<(Seq<char>, chunk::TableModel)>,
    t: (Seq<char>, chunk::TableModel),
)
    ensures
        buffer::tables_size(Seq::empty()) == 0,
        buffer::tables_size(seq![t]) == chunk::chunks_size(t.1.chunks),
        buffer::tables_size(a + b) == buffer::tables_size(a) + buffer::tables_size(b),
        status::tables_row_total(Seq::empty()) == 0,
        status::tables_row_total(seq![t]) == status::row_total(t.1.chunks),
        status::tables_row_total(a + b) == status::tables_row_total(a) + status::tables_row_total(
            b,
        ),
    decreases b.len(),
{
    reveal_with_fuel(buffer::tables_size, 2);
    reveal_with_fuel(status::tables_row_total, 2);
    assert(seq![t].drop_last() =~= Seq::empty());
    if b.len() == 0 {
        assert(a + b =~= a);
    } else {
        tables_add_up(a, b.drop_last(), t);
        assert((a + b).drop_last() =~= a + b.drop_last());
    }
}

/// The buffer has the size and the number of rows of the tables of all its databases.
pub proof fn databases_add_up(
    a: Seq<buffer::DatabaseModel>,
    b: Seq<buffer::DatabaseModel>,
    d: buffer::DatabaseModel,
)
    ensures
        buffer::dbs_size(Seq::empty()) == 0,
        buffer::dbs_size(seq![d]) == buffer::tables_size(d.tables),
        buffer::dbs_size(a + b) == buffer::dbs_size(a) + buffer::dbs_size(b),
        status::buffer_row_total(Seq::empty()) == 0,
        status::buffer_row_total(seq![d]) == status::tables_row_total(d.tables),
        status::buffer_row_total(a + b) == status::buffer_row_total(a) + status::buffer_row_total(
            b,
        ),
    decreases b.len(),
{
    reveal_with_fuel(buffer::dbs_size, 2);
    reveal_with_fuel(status::buffer_row_total, 2);
    assert(seq![d].drop_last() =~= Seq::empty());
    if b.len() == 0 {
        assert(a + b =~= a);
    } else {
        databases_add_up(a, b.drop_last(), d);
        assert((a + b).drop_last() =~= a + b.drop_last());
    }
}

/// A number is told as it is where a word of the machine holds it, and as the greatest of a
/// word otherwise.
pub proof fn numbers_are_told_up_to_a_word(n: nat)
    ensures
        chunk::capped(n) <= n,
        chunk::capped(n) == n || chunk::capped(n) == usize::MAX,
        n <= usize::MAX ==> chunk::capped(n) == n,
{
}

/// The first time told of chunks is that of one of them, and none of another is before it;
/// likewise the last.
pub proof fn times_told_are_those_of_chunks(chunks: Seq<chunk::ChunkModel>)
    ensures
        forall|i: int|
            0 <= i < chunks.len() ==> status::least_time(chunks) <= (
            #[trigger] chunks[i]).time_min,
        forall|i: int|
            0 <= i < chunks.len() ==> status::greatest_time(chunks) >= (
            #[trigger] chunks[i]).time_max,
        status::least_time(chunks) == i64::MAX || exists|i: int|
            0 <= i < chunks.len() && (#[trigger] chunks[i]).time_min == status::least_time(chunks),
        status::greatest_time(chunks) == i64::MIN || exists|i: int|
            0 <= i < chunks.len() && (#[trigger] chunks[i]).time_max == status::greatest_time(
                chunks,
            ),
    decreases chunks.len(),
{
    if chunks.len() > 0 {
        let front = chunks.drop_last();
        times_told_are_those_of_chunks(front);
        assert forall|i: int| 0 <= i < chunks.len() implies status::least_time(chunks) <= (
        #[trigger] chunks[i]).time_min && status::greatest_time(chunks) >= chunks[i].time_max by {
            if i < front.len() {
                assert(front[i] == chunks[i]);
            }
        }
        let l = chunks.len() - 1;
        assert(chunks[l] == chunks.last());
        if status::least_time(chunks) != i64::MAX && chunks[l].time_min != status::least_time(
            chunks,
        ) {
            let i = choose|i: int|
                0 <= i < front.len() && (#[trigger] front[i]).time_min == status::least_time(front);
            assert(chunks[i] == front[i]);
        }
        if status::greatest_time(chunks) != i64::MIN && chunks[l].time_max
            != status::greatest_time(chunks) {
            let i = choose|i: int|
                0 <= i < front.len() && (#[trigger] front[i]).time_max == status::greatest_time(
                    front,
                );
            assert(chunks[i] == front[i]);
        }
    }
}

/// The time told where there is one is that time, and the beginning of 1970 where there is
/// none.
pub proof fn missing_times_are_told_as_zero(value: i64, none: i64)
    ensures
        value != none ==> status::time_or_zero(value, none) == value,
        status::time_or_zero(none, none) == 0,
{
}

/// The seconds and the nanoseconds of a time, not before 1970, make up the time; a time
/// before it has its seconds with the other sign.
pub proof fn time_parts_make_up_the_time(ts_ms: i64)
    requires
        ts_ms >= 0,
    ensures
        time::secs_part(ts_ms as int) * 1_000_000_000 + time::nanos_part(ts_ms as int) == ts_ms
            * 1_000_000,
        time::nanos_part(ts_ms as int) < 1_000_000_000,
        time::secs_part(-(ts_ms as int)) == -time::secs_part(ts_ms as int),
        ts_ms > 0 ==> time::iso_of(ts_ms) == time::iso8601_of(ts_ms),
{
    let rest: int = ts_ms as int % 1000;
    let nanos: int = rest * 1_000_000;
    assert(0 <= nanos < 1_000_000_000);
    assert((nanos as i64) as u32 == nanos);
    assert(nanos as u32 == nanos);
}

/// Types of fields are told by different names.
pub proof fn types_are_told_apart(a: chunk::FieldType, b: chunk::FieldType)
    ensures
        a.spec_name() == b.spec_name() <==> a == b,
        a.spec_name() == (match a {
            chunk::FieldType::F64 => seq!['F', '6', '4'],
            chunk::FieldType::I64 => seq!['I', '6', '4'],
            chunk::FieldType::U64 => seq!['U', '6', '4'],
            chunk::FieldType::Bool => seq!['B', 'o', 'o', 'l'],
            chunk::FieldType::String => seq!['S', 't', 'r', 'i', 'n', 'g'],
        }),
{
    reveal_strlit("F64");
    reveal_strlit("I64");
    reveal_strlit("U64");
    reveal_strlit("Bool");
    reveal_strlit("String");
    assert("F64"@ =~= seq!['F', '6', '4']);
    assert("I64"@ =~= seq!['I', '6', '4']);
    assert("U64"@ =~= seq!['U', '6', '4']);
    assert("Bool"@ =~= seq!['B', 'o', 'o', 'l']);
    assert("String"@ =~= seq!['S', 't', 'r', 'i', 'n', 'g']);
    assert("F64"@[0] == 'F' && "I64"@[0] == 'I' && "U64"@[0] == 'U' && "Bool"@[0] == 'B'
        && "String"@[0] == 'S');
}

/// A schema is told with its tags in their order, and with its fields in theirs, each with
/// the name of its type; so different schemas are told differently.
pub proof fn schemas_are_told_whole(s: chunk::SchemaModel, t: chunk::SchemaModel)
    ensures
        crate::agent::report_of(s).tag_keys == s.tag_keys,
        crate::agent::report_of(s).field_defs.len() == s.fields.len(),
        forall|i: int|
            0 <= i < s.fields.len() ==> (#[trigger] crate::agent::report_of(s).field_defs[i]).0
                == s.fields[i].0 && crate::agent::report_of(s).field_defs[i].1
                == s.fields[i].1.spec_name(),
        crate::agent::report_of(s) == crate::agent::report_of(t) <==> s == t,
{
    if crate::agent::report_of(s) == crate::agent::report_of(t) {
        let a = crate::agent::report_of(s).field_defs;
        let b = crate::agent::report_of(t).field_defs;
        assert(a.len() == s.fields.len() && b.len() == t.fields.len());
        assert forall|i: int| 0 <= i < s.fields.len() implies s.fields[i] == t.fields[i] by {
            assert(a[i] == b[i]);
            types_are_told_apart(s.fields[i].1, t.fields[i].1);
        }
        assert(s.fields =~= t.fields);
        assert(s =~= t);
    }
}

/// The tables of databases are told one database after the other, each table of one with its
/// names and its schema.
pub proof fn every_table_is_told(
    a: Seq<buffer::DatabaseModel>,
    b: Seq<buffer::DatabaseModel>,
    d: buffer::DatabaseModel,
)
    ensures
        crate::agent::all_reports(a + b) == crate::agent::all_reports(a)
            + crate::agent::all_reports(b),
        crate::agent::all_reports(Seq::empty()) == Seq::<TableReport>::empty(),
        crate::agent::all_reports(seq![d]).len() == d.tables.len(),
        forall|i: int|
            0 <= i < d.tables.len() ==> {
                let told = #[trigger] crate::agent::all_reports(seq![d])[i];
                told.db == d.name && told.table == d.tables[i].0 && told.schema
                    == crate::agent::report_of(d.tables[i].1.schema)
            },
    decreases b.len(),
{
    reveal_with_fuel(crate::agent::all_reports, 2);
    assert(seq![d].drop_last() =~= Seq::empty());
    assert(crate::agent::all_reports(seq![d]) =~= crate::agent::db_reports(d.name, d.tables));
    if b.len() == 0 {
        assert(a + b =~= a);
        assert(crate::agent::all_reports(a) + crate::agent::all_reports(b)
            =~= crate::agent::all_reports(a));
    } else {
        every_table_is_told(a, b.drop_last(), d);
        assert((a + b).drop_last() =~= a + b.drop_last());
        assert(crate::agent::all_reports(a + b) =~= crate::agent::all_reports(a)
            + crate::agent::all_reports(b));
    }
}

/// A table is news where it was not told before as it is now; what is sent of it is what it
/// is, and it is no news when that was noted.
pub proof fn news_is_what_was_not_told(
    state: Map<(Seq<char>, Seq<char>), Reported>,
    t: TableReport,
)
    ensures
        crate::agent::is_news(state, t) <==> !(state.contains_key((t.db, t.table)) && state[(
            t.db,
            t.table,
        )] == t.schema),
        crate::agent::change_of(t).db == t.db,
        crate::agent::change_of(t).table == t.table,
        crate::agent::change_of(t).schema == t.schema,
        crate::agent::state_after(state, seq![t]) == state.insert((t.db, t.table), t.schema),
{
    reveal_with_fuel(crate::agent::state_after, 2);
    assert(seq![t].drop_last() =~= Seq::empty());
    if !crate::agent::is_news(state, t) {
        assert(state.insert((t.db, t.table), t.schema) =~= state);
    }
}

/// What was told last, after tables were looked at, is what was told after those looked at
/// first, then those looked at later.
pub proof fn telling_goes_on(
    state: Map<(Seq<char>, Seq<char>), Reported>,
    a: Seq<TableReport>,
    b: Seq<TableReport>,
)
    ensures
        crate::agent::state_after(state, a + b) == crate::agent::state_after(
            crate::agent::state_after(state, a),
            b,
        ),
        crate::agent::changes_in(state, a + b) == crate::agent::changes_in(state, a)
            + crate::agent::changes_in(crate::agent::state_after(state, a), b),
        crate::agent::state_after(state, Seq::empty()) == state,
        crate::agent::changes_in(state, Seq::empty()) == Seq::<ChangeModel>::empty(),
    decreases b.len(),
{
    let later = crate::agent::state_after(state, a);
    if b.len() == 0 {
        assert(a + b =~= a);
        assert(crate::agent::changes_in(state, a) + crate::agent::changes_in(later, b)
            =~= crate::agent::changes_in(state, a));
    } else {
        telling_goes_on(state, a, b.drop_last());
        assert((a + b).drop_last() =~= a + b.drop_last());
        assert(crate::agent::changes_in(state, a + b) =~= crate::agent::changes_in(state, a)
            + crate::agent::changes_in(later, b));
    }
}

/// A refused heartbeat is counted, one that is taken ends the count, and one that could not
/// be sent leaves it.
pub proof fn refused_heartbeats_are_counted(
    sent: Result<(u16, String), String>,
    before: u64,
    after: u64,
    r: Result<(), String>,
)
    requires
        crate::agent::beat_taken(sent, before, after, r),
    ensures
        r is Ok <==> sent is Ok && 200 <= (sent->Ok_0).0 < 300,
        r is Ok ==> after == 0,
        sent is Err ==> after == before,
        sent is Ok && r is Err && before < u64::MAX ==> after == before + 1,
        sent is Ok && r is Err && before == u64::MAX ==> after == 0,
{
}

/// A row is asked for where it lies neither before the start nor behind the end; without a
/// start or an end nothing does.
pub proof fn range_leaves_out_what_lies_outside(time: i64, start: int, end: int)
    ensures
        federation_query::in_range(time, None, None),
        federation_query::in_range(time, Some(start), None) <==> !(time < start),
        federation_query::in_range(time, None, Some(end)) <==> !(time > end),
        federation_query::in_range(time, Some(start), Some(end)) <==> !(time < start) && !(time
            > end),
{
}

/// There is something to send where a row of some chunk is asked for.
pub proof fn some_row_is_asked_for(
    chunks: Seq<chunk::ChunkModel>,
    c: int,
    r: int,
    start: Option<int>,
    end: Option<int>,
)
    ensures
        0 <= c < chunks.len() && 0 <= r < chunks[c].rows.len() && federation_query::in_range(
            chunks[c].rows[r].time,
            start,
            end,
        ) ==> federation_query::any_in_range(chunks, start, end),
        (forall|i: int| 0 <= i < chunks.len() ==> (#[trigger] chunks[i]).rows.len() == 0)
            ==> !federation_query::any_in_range(chunks, start, end),
        start is None && end is None && federation_query::any_in_range(chunks, start, end)
            ==> status::row_total(chunks) > 0,
{
    if federation_query::any_in_range(chunks, start, end) {
        let (i, j) = choose|i: int, j: int|
            0 <= i < chunks.len() && 0 <= j < chunks[i].rows.len() && federation_query::in_range(
                (#[trigger] chunks[i].rows[j]).time,
                start,
                end,
            );
        let front = chunks.take(i);
        let back = chunks.skip(i + 1);
        assert(chunks =~= front + seq![chunks[i]] + back);
        chunks_add_up(front + seq![chunks[i]], back, chunks[i]);
        chunks_add_up(front, seq![chunks[i]], chunks[i]);
    }
}

/// A number in a query is the number that the first value of its name denotes.
pub proof fn numbers_are_taken_from_the_query(
    pairs: Seq<(Seq<char>, Seq<char>)>,
    name: Seq<char>,
    value: Seq<char>,
    rest: Seq<(Seq<char>, Seq<char>)>,
)
    requires
        forall|i: int| 0 <= i < pairs.len() ==> (#[trigger] pairs[i]).0 != name,
    ensures
        federation_query::number_param(pairs, name) is None,
        federation_query::number_param(pairs.push((name, value)) + rest, name)
            == crate::decimal::signed_value(value),
{
    let all = pairs.push((name, value)) + rest;
    assert forall|k: int| 0 <= k < pairs.len() implies (#[trigger] all[k]).0 != name by {
        assert(all[k] == pairs[k]);
    }
    crate::notation::first_pair_counts(pairs, name, pairs.len() as int);
    crate::notation::first_pair_counts(all, name, pairs.len() as int);
}

/// An update sets what it names: the interval and the memory limit by the texts of its
/// section `flush`, the two numbers by those of its section `wal`, each where it is positive
/// and the machine holds it. Whatever else an update names stays as it is.
pub proof fn update_sets_what_it_names(h: HotConfig, update: json::Json)
    ensures
        ({
            let u = hot_config::updated(h, update);
            let interval = json::member_of_member(update, "flush"@, "snapshot_interval"@);
            let limit = json::member_of_member(update, "flush"@, "memory_limit"@);
            let every = json::member_of_member(update, "wal"@, "flush_interval_secs"@);
            let ops = json::member_of_member(update, "wal"@, "max_write_buffer_ops"@);
            &&& interval matches Some(json::Json::Text(s)) ==> (config::duration_value(
                text::trimmed(s),
            ) matches Some(n) ==> (0 < n <= i64::MAX ==> u.snapshot_interval_secs == n))
            &&& limit matches Some(json::Json::Text(s)) ==> (config::bytes_value(
                text::trimmed(s),
            ) matches Some(n) ==> (0 < n <= usize::MAX ==> u.memory_limit_bytes == n))
            &&& every matches Some(json::Json::Number(Some(n))) ==> (0 < n
                ==> u.wal_flush_interval == n)
            &&& ops matches Some(json::Json::Number(Some(n))) ==> (0 < n <= usize::MAX
                ==> u.wal_max_buffer_ops == n)
            &&& !(interval is Some) ==> u.snapshot_interval_secs == h.snapshot_interval_secs
            &&& !(limit is Some) ==> u.memory_limit_bytes == h.memory_limit_bytes
            &&& !(every is Some) ==> u.wal_flush_interval == h.wal_flush_interval
            &&& !(ops is Some) ==> u.wal_max_buffer_ops == h.wal_max_buffer_ops
            &&& u.snapshot_interval_secs != h.snapshot_interval_secs ==> (interval matches Some(
                json::Json::Text(s),
            ) && config::duration_value(text::trimmed(s)) == Some(u.snapshot_interval_secs as int))
            &&& u.memory_limit_bytes != h.memory_limit_bytes ==> (limit matches Some(
                json::Json::Text(s),
            ) && config::bytes_value(text::trimmed(s)) == Some(u.memory_limit_bytes as nat))
            &&& u.wal_flush_interval != h.wal_flush_interval ==> every == Some(
                json::Json::Number(Some(u.wal_flush_interval)),
            )
        }),
{
}

} // verus!
