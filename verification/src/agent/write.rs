//! Writing points: reading line protocol, grouping rows into batches, logging them, and
//! applying them to the buffer.

use crate::agent::buffer::chunk;
use crate::agent::buffer::chunk::{FieldValue, Row};
use crate::agent::buffer::Buffer;
use crate::agent::wal;
use crate::agent::wal::wal_core;
use crate::agent::wal::wal_core::{LogFile, WalManager};
use crate::agent::wal::{WalOp, WriteBatch};
use crate::config;
use crate::config::Config;
use crate::decimal;
use crate::http;
use crate::http::Reply;
use crate::text;
use influxdb_line_protocol::FieldValue::{Boolean, String as Text, F64, I64, U64};
use vstd::prelude::*;
use vstd::utf8::*;

verus! {

/// One line of line protocol.
#[derive(Debug)]
pub struct Point {
    pub measurement: String,
    pub tags: Vec<(String, String)>,
    pub fields: Vec<(String, FieldValue)>,
    pub timestamp: Option<i64>,
}

#[verifier::ext_equal]
pub struct PointModel {
    pub measurement: Seq<char>,
    pub tags: Seq<(Seq<char>, Seq<char>)>,
    pub fields: Seq<(Seq<char>, chunk::FieldModel)>,
    pub timestamp: Option<i64>,
}

impl View for Point {
    type V = PointModel;

    open spec fn view(&self) -> PointModel {
        PointModel {
            measurement: self.measurement@,
            tags: text::pair_views(self.tags@),
            fields: self.fields@.map_values(|f: (String, FieldValue)| (f.0@, f.1@)),
            timestamp: self.timestamp,
        }
    }
}

/// What a list of lines holds: for each line its point, or nothing where it is no point.
pub open spec fn line_models(lines: Seq<Option<Point>>) -> Seq<Option<PointModel>> {
    lines.map_values(|line: Option<Point>| line_model(line))
}

pub open spec fn line_model(line: Option<Point>) -> Option<PointModel> {
    match line {
        Some(p) => Some(p@),
        None => None,
    }
}

/// The lines that `influxdb_line_protocol::parse_lines` reads from a text, each a point
/// or, where the line is not line protocol, nothing.
pub uninterp spec fn parsed_lines(input: Seq<char>) -> Seq<Option<PointModel>>;

/// `influxdb_line_protocol::parse_lines`, with each line as a value of this library; the
/// bits of a floating-point number stand for it. The result is a function of the text.
#[verifier::external_body]
fn parse_lines(input: &str) -> (r: Vec<Option<Point>>)
    ensures
        line_models(r@) == parsed_lines(input@),
{
    influxdb_line_protocol::parse_lines(input).map(|line| line.ok().map(|p| Point {
        measurement: p.series.measurement.to_string(),
        tags: p.series.tag_set.iter().flatten().map(|(k, v)| (k.to_string(), v.to_string())).collect(),
        fields: p.field_set.into_iter().map(|(k, v)| (k.to_string(), match v {
            I64(n) => FieldValue::I64(n),
            U64(n) => FieldValue::U64(n),
            F64(x) => FieldValue::F64(x.to_bits()),
            Boolean(b) => FieldValue::Bool(b),
            Text(s) => FieldValue::String(s.to_string()),
        })).collect(),
        timestamp: p.timestamp,
    })).collect()
}

pub open spec fn firsts(pairs: Seq<(Seq<char>, Seq<char>)>) -> Seq<Seq<char>> {
    pairs.map_values(|p: (Seq<char>, Seq<char>)| p.0)
}

pub open spec fn seconds(pairs: Seq<(Seq<char>, Seq<char>)>) -> Seq<Seq<char>> {
    pairs.map_values(|p: (Seq<char>, Seq<char>)| p.1)
}

/// The keys of a point's tags, in their order.
pub open spec fn point_tag_keys(p: PointModel) -> Seq<Seq<char>> {
    firsts(text::sorted_pairs(p.tags))
}

/// The names of a point's fields.
pub open spec fn point_field_names(p: PointModel) -> Seq<Seq<char>> {
    p.fields.map_values(|f: (Seq<char>, chunk::FieldModel)| f.0)
}

/// The row of a point; without a time of its own it gets the time `now`.
pub open spec fn point_row(p: PointModel, now: i64) -> chunk::RowModel {
    chunk::RowModel {
        time: match p.timestamp {
            Some(t) => t,
            None => now,
        },
        tags: seconds(text::sorted_pairs(p.tags)),
        fields: p.fields.map_values(|f: (Seq<char>, chunk::FieldModel)| Some(f.1)),
    }
}

/// The rows for one table, with the names of its tags and fields.
#[derive(Debug)]
pub struct TableRows {
    pub table: String,
    pub field_names: Vec<String>,
    pub tag_keys: Vec<String>,
    pub rows: Vec<Row>,
}

#[verifier::ext_equal]
pub struct TableRowsModel {
    pub table: Seq<char>,
    pub field_names: Seq<Seq<char>>,
    pub tag_keys: Seq<Seq<char>>,
    pub rows: Seq<chunk::RowModel>,
}

impl View for TableRows {
    type V = TableRowsModel;

    open spec fn view(&self) -> TableRowsModel {
        TableRowsModel {
            table: self.table@,
            field_names: text::views(self.field_names@),
            tag_keys: text::views(self.tag_keys@),
            rows: chunk::row_models(self.rows@),
        }
    }
}

pub open spec fn group_models(groups: Seq<TableRows>) -> Seq<TableRowsModel> {
    groups.map_values(|g: TableRows| g@)
}

/// The position of the first group of a table, or the number of groups.
pub open spec fn group_position(groups: Seq<TableRowsModel>, table: Seq<char>) -> int
    decreases groups.len(),
{
    if groups.len() == 0 || groups[0].table == table {
        0
    } else {
        1 + group_position(groups.drop_first(), table)
    }
}

/// The groups with one more point. The first point of a table gives the names of its tags
/// and fields, a later one only where those before it had none.
pub open spec fn with_point(groups: Seq<TableRowsModel>, p: PointModel, now: i64) -> Seq<
    TableRowsModel,
> {
    let i = group_position(groups, p.measurement);
    if i < groups.len() {
        let g = groups[i];
        groups.update(
            i,
            TableRowsModel {
                table: g.table,
                field_names: if g.field_names.len() == 0 {
                    point_field_names(p)
                } else {
                    g.field_names
                },
                tag_keys: if g.tag_keys.len() == 0 {
                    point_tag_keys(p)
                } else {
                    g.tag_keys
                },
                rows: g.rows.push(point_row(p, now)),
            },
        )
    } else {
        groups.push(
            TableRowsModel {
                table: p.measurement,
                field_names: point_field_names(p),
                tag_keys: point_tag_keys(p),
                rows: seq![point_row(p, now)],
            },
        )
    }
}

/// The rows of the lines by table, in the order in which the tables first appear; lines
/// that are no points are left out.
pub open spec fn grouped(lines: Seq<Option<PointModel>>, now: i64) -> Seq<TableRowsModel>
    decreases lines.len(),
{
    if lines.len() == 0 {
        Seq::empty()
    } else {
        let before = grouped(lines.drop_last(), now);
        match lines.last() {
            Some(p) => with_point(before, p, now),
            None => before,
        }
    }
}

/// The number of lines that are points.
pub open spec fn point_count(lines: Seq<Option<PointModel>>) -> nat
    decreases lines.len(),
{
    if lines.len() == 0 {
        0
    } else {
        point_count(lines.drop_last()) + (if lines.last() is Some {
            1nat
        } else {
            0nat
        })
    }
}

pub open spec fn magnitude(n: int) -> nat {
    if n < 0 {
        (-n) as nat
    } else {
        n as nat
    }
}

/// The time at which the chunk of a row begins: the nearest multiple of the interval
/// towards zero.
pub open spec fn chunk_start(time: int, interval_ns: int) -> int {
    let m = magnitude(interval_ns);
    if time >= 0 {
        (time / m as int) * m
    } else {
        -(((-time) / m as int) * m)
    }
}

/// The groups of rows with one more row, in its chunk's group, the groups in the order of
/// their times.
pub open spec fn put_row(
    groups: Seq<(i64, Seq<chunk::RowModel>)>,
    start: i64,
    row: chunk::RowModel,
) -> Seq<(i64, Seq<chunk::RowModel>)>
    decreases groups.len(),
{
    if groups.len() == 0 || groups.last().0 < start {
        groups.push((start, seq![row]))
    } else if groups.last().0 == start {
        groups.update(groups.len() - 1, (start, groups.last().1.push(row)))
    } else {
        put_row(groups.drop_last(), start, row).push(groups.last())
    }
}

/// The rows by chunk, in the order of the chunks' times.
pub open spec fn by_chunk(rows: Seq<chunk::RowModel>, interval_ns: i64) -> Seq<
    (i64, Seq<chunk::RowModel>),
>
    decreases rows.len(),
{
    if rows.len() == 0 {
        Seq::empty()
    } else {
        put_row(
            by_chunk(rows.drop_last(), interval_ns),
            chunk_start(rows.last().time as int, interval_ns as int) as i64,
            rows.last(),
        )
    }
}

/// The batches of one table, one for each chunk.
pub open spec fn table_batches(db: Seq<char>, g: TableRowsModel, interval_ns: i64) -> Seq<
    wal::BatchModel,
> {
    by_chunk(g.rows, interval_ns).map_values(
        |c: (i64, Seq<chunk::RowModel>)|
            wal::BatchModel {
                db,
                table: g.table,
                chunk_time: c.0,
                field_names: g.field_names,
                tag_keys: g.tag_keys,
                rows: c.1,
            },
    )
}

/// The batches of all tables, one table after the other.
pub open spec fn all_batches(db: Seq<char>, groups: Seq<TableRowsModel>, interval_ns: i64) -> Seq<
    wal::BatchModel,
>
    decreases groups.len(),
{
    if groups.len() == 0 {
        Seq::empty()
    } else {
        all_batches(db, groups.drop_last(), interval_ns) + table_batches(
            db,
            groups.last(),
            interval_ns,
        )
    }
}

/// The batches that some lines make.
pub open spec fn batches_of(
    lines: Seq<Option<PointModel>>,
    db: Seq<char>,
    interval_ns: i64,
    now: i64,
) -> Seq<wal::BatchModel> {
    all_batches(db, grouped(lines, now), interval_ns)
}

/// The number of rows in some batches.
pub open spec fn batch_rows(batches: Seq<wal::BatchModel>) -> nat
    decreases batches.len(),
{
    if batches.len() == 0 {
        0
    } else {
        batch_rows(batches.drop_last()) + batches.last().rows.len()
    }
}

pub open spec fn batch_models(batches: Seq<WriteBatch>) -> Seq<wal::BatchModel> {
    batches.map_values(|b: WriteBatch| b@)
}

pub(crate) proof fn lemma_group_position(groups: Seq<TableRowsModel>, table: Seq<char>)
    ensures
        0 <= group_position(groups, table) <= groups.len(),
        forall|i: int|
            0 <= i < group_position(groups, table) ==> (#[trigger] groups[i]).table != table,
        group_position(groups, table) < groups.len() ==> groups[group_position(groups, table)].table
            == table,
    decreases groups.len(),
{
    if groups.len() > 0 && groups[0].table != table {
        let rest = groups.drop_first();
        lemma_group_position(rest, table);
        assert forall|i: int| 0 <= i < group_position(groups, table) implies (
        #[trigger] groups[i]).table != table by {
            if i > 0 {
                assert(rest[i - 1] == groups[i]);
            }
        }
    }
}

proof fn lemma_group_rows_update(groups: Seq<TableRowsModel>, i: int, g: TableRowsModel)
    requires
        0 <= i < groups.len(),
        g.rows.len() == groups[i].rows.len() + 1,
    ensures
        group_rows(groups.update(i, g)) == group_rows(groups) + 1,
    decreases groups.len(),
{
    let after = groups.update(i, g);
    if i == groups.len() - 1 {
        assert(after.drop_last() =~= groups.drop_last());
    } else {
        lemma_group_rows_update(groups.drop_last(), i, g);
        assert(after.drop_last() =~= groups.drop_last().update(i, g));
    }
}

/// The number of rows in some groups.
spec fn group_rows(groups: Seq<TableRowsModel>) -> nat
    decreases groups.len(),
{
    if groups.len() == 0 {
        0
    } else {
        group_rows(groups.drop_last()) + groups.last().rows.len()
    }
}

proof fn lemma_grouped_count(lines: Seq<Option<PointModel>>, now: i64)
    ensures
        group_rows(grouped(lines, now)) == point_count(lines),
        grouped(lines, now).len() == 0 <==> point_count(lines) == 0,
    decreases lines.len(),
{
    if lines.len() > 0 {
        lemma_grouped_count(lines.drop_last(), now);
        if lines.last() is Some {
            let before = grouped(lines.drop_last(), now);
            let p = lines.last()->0;
            lemma_group_position(before, p.measurement);
            let after = with_point(before, p, now);
            let i = group_position(before, p.measurement);
            if i < before.len() {
                lemma_group_rows_update(before, i, after[i]);
            } else {
                assert(after.drop_last() =~= before);
            }
        }
    }
}

spec fn chunk_group_rows(groups: Seq<(i64, Seq<chunk::RowModel>)>) -> nat
    decreases groups.len(),
{
    if groups.len() == 0 {
        0
    } else {
        chunk_group_rows(groups.drop_last()) + groups.last().1.len()
    }
}

proof fn lemma_put_row_count(
    groups: Seq<(i64, Seq<chunk::RowModel>)>,
    start: i64,
    row: chunk::RowModel,
)
    ensures
        chunk_group_rows(put_row(groups, start, row)) == chunk_group_rows(groups) + 1,
    decreases groups.len(),
{
    let after = put_row(groups, start, row);
    if groups.len() == 0 || groups.last().0 < start {
        assert(after.drop_last() =~= groups);
    } else if groups.last().0 == start {
        assert(after.drop_last() =~= groups.drop_last());
    } else {
        lemma_put_row_count(groups.drop_last(), start, row);
        assert(after.drop_last() =~= put_row(groups.drop_last(), start, row));
    }
}

proof fn lemma_by_chunk_count(rows: Seq<chunk::RowModel>, interval_ns: i64)
    ensures
        chunk_group_rows(by_chunk(rows, interval_ns)) == rows.len(),
    decreases rows.len(),
{
    if rows.len() > 0 {
        lemma_by_chunk_count(rows.drop_last(), interval_ns);
        lemma_put_row_count(
            by_chunk(rows.drop_last(), interval_ns),
            chunk_start(rows.last().time as int, interval_ns as int) as i64,
            rows.last(),
        );
    }
}

proof fn lemma_batch_rows_add(a: Seq<wal::BatchModel>, b: Seq<wal::BatchModel>)
    ensures
        batch_rows(a + b) == batch_rows(a) + batch_rows(b),
    decreases b.len(),
{
    if b.len() > 0 {
        lemma_batch_rows_add(a, b.drop_last());
        assert((a + b).drop_last() =~= a + b.drop_last());
    } else {
        assert(a + b =~= a);
    }
}

proof fn lemma_table_batches_count(
    db: Seq<char>,
    g: TableRowsModel,
    chunks: Seq<(i64, Seq<chunk::RowModel>)>,
)
    ensures
        batch_rows(
            chunks.map_values(
                |c: (i64, Seq<chunk::RowModel>)|
                    wal::BatchModel {
                        db,
                        table: g.table,
                        chunk_time: c.0,
                        field_names: g.field_names,
                        tag_keys: g.tag_keys,
                        rows: c.1,
                    },
            ),
        ) == chunk_group_rows(chunks),
    decreases chunks.len(),
{
    let f = |c: (i64, Seq<chunk::RowModel>)|
        wal::BatchModel {
            db,
            table: g.table,
            chunk_time: c.0,
            field_names: g.field_names,
            tag_keys: g.tag_keys,
            rows: c.1,
        };
    if chunks.len() > 0 {
        lemma_table_batches_count(db, g, chunks.drop_last());
        assert(chunks.map_values(f).drop_last() =~= chunks.drop_last().map_values(f));
    }
}

proof fn lemma_all_batches_count(db: Seq<char>, groups: Seq<TableRowsModel>, interval_ns: i64)
    ensures
        batch_rows(all_batches(db, groups, interval_ns)) == group_rows(groups),
    decreases groups.len(),
{
    if groups.len() > 0 {
        let g = groups.last();
        lemma_all_batches_count(db, groups.drop_last(), interval_ns);
        lemma_by_chunk_count(g.rows, interval_ns);
        lemma_table_batches_count(db, g, by_chunk(g.rows, interval_ns));
        lemma_batch_rows_add(
            all_batches(db, groups.drop_last(), interval_ns),
            table_batches(db, g, interval_ns),
        );
    }
}

/// Every point becomes one row of one batch: the batches hold as many rows as there are
/// points, and there is no batch only where there is no point.
pub proof fn batches_hold_every_point(
    lines: Seq<Option<PointModel>>,
    db: Seq<char>,
    interval_ns: i64,
    now: i64,
)
    ensures
        batch_rows(batches_of(lines, db, interval_ns, now)) == point_count(lines),
        point_count(lines) == 0 <==> batches_of(lines, db, interval_ns, now).len() == 0,
{
    lemma_grouped_count(lines, now);
    lemma_all_batches_count(db, grouped(lines, now), interval_ns);
    let groups = grouped(lines, now);
    if groups.len() == 0 {
        assert(all_batches(db, groups, interval_ns).len() == 0);
    }
}

/// Whether every row of a chunk group belongs to its chunk, and the groups stand in
/// strictly rising order.
pub open spec fn chunk_groups_right(
    groups: Seq<(i64, Seq<chunk::RowModel>)>,
    interval_ns: i64,
) -> bool {
    &&& forall|i: int, j: int|
        #![trigger groups[i], groups[j]]
        0 <= i < j < groups.len() ==> groups[i].0 < groups[j].0
    &&& forall|i: int, k: int|
        #![trigger groups[i].1[k]]
        0 <= i < groups.len() && 0 <= k < groups[i].1.len() ==> groups[i].0 == chunk_start(
            groups[i].1[k].time as int,
            interval_ns as int,
        ) as i64
    &&& forall|i: int| #![trigger groups[i]] 0 <= i < groups.len() ==> groups[i].1.len() > 0
}

proof fn lemma_put_row_right(
    groups: Seq<(i64, Seq<chunk::RowModel>)>,
    row: chunk::RowModel,
    interval_ns: i64,
)
    requires
        chunk_groups_right(groups, interval_ns),
    ensures
        ({
            let start = chunk_start(row.time as int, interval_ns as int) as i64;
            let after = put_row(groups, start, row);
            &&& chunk_groups_right(after, interval_ns)
            &&& after.len() > 0
            &&& after.last().0 == (if groups.len() > 0 && groups.last().0 > start {
                groups.last().0
            } else {
                start
            })
        }),
    decreases groups.len(),
{
    let start = chunk_start(row.time as int, interval_ns as int) as i64;
    let after = put_row(groups, start, row);
    if groups.len() == 0 || groups.last().0 < start {
        assert forall|i: int, j: int|
            #![trigger after[i], after[j]]
            0 <= i < j < after.len() implies after[i].0 < after[j].0 by {
            assert(after[i] == groups[i]);
            if j == groups.len() {
                if i < groups.len() - 1 {
                    assert(groups[i].0 < groups[groups.len() - 1].0);
                }
            } else {
                assert(after[j] == groups[j]);
            }
        }
        assert forall|i: int, k: int|
            #![trigger after[i].1[k]]
            0 <= i < after.len() && 0 <= k < after[i].1.len() implies after[i].0 == chunk_start(
            after[i].1[k].time as int,
            interval_ns as int,
        ) as i64 by {
            if i < groups.len() {
                assert(after[i] == groups[i]);
                assert(groups[i].1[k] == after[i].1[k]);
            }
        }
    } else if groups.last().0 == start {
        assert forall|i: int, j: int|
            #![trigger after[i], after[j]]
            0 <= i < j < after.len() implies after[i].0 < after[j].0 by {
            assert(after[i].0 == groups[i].0 && after[j].0 == groups[j].0);
        }
        assert forall|i: int, k: int|
            #![trigger after[i].1[k]]
            0 <= i < after.len() && 0 <= k < after[i].1.len() implies after[i].0 == chunk_start(
            after[i].1[k].time as int,
            interval_ns as int,
        ) as i64 by {
            if k < groups[i].1.len() {
                assert(groups[i].1[k] == after[i].1[k]);
            }
        }
    } else {
        let rest = groups.drop_last();
        assert(chunk_groups_right(rest, interval_ns)) by {
            assert forall|i: int, k: int|
                #![trigger rest[i].1[k]]
                0 <= i < rest.len() && 0 <= k < rest[i].1.len() implies rest[i].0 == chunk_start(
                rest[i].1[k].time as int,
                interval_ns as int,
            ) as i64 by {
                assert(groups[i].1[k] == rest[i].1[k]);
            }
        }
        lemma_put_row_right(rest, row, interval_ns);
        let inner = put_row(rest, start, row);
        assert(inner.last().0 < groups.last().0) by {
            if rest.len() > 0 {
                assert(groups[rest.len() - 1] == rest.last());
            }
        }
        assert forall|i: int, j: int|
            #![trigger after[i], after[j]]
            0 <= i < j < after.len() implies after[i].0 < after[j].0 by {
            assert(after[i] == inner[i]);
            if j < inner.len() {
                assert(after[j] == inner[j]);
            } else {
                if i < inner.len() - 1 {
                    assert(inner[i].0 < inner[inner.len() - 1].0);
                }
            }
        }
        assert forall|i: int, k: int|
            #![trigger after[i].1[k]]
            0 <= i < after.len() && 0 <= k < after[i].1.len() implies after[i].0 == chunk_start(
            after[i].1[k].time as int,
            interval_ns as int,
        ) as i64 by {
            if i < inner.len() {
                assert(after[i] == inner[i]);
                assert(inner[i].1[k] == after[i].1[k]);
            } else {
                assert(groups[groups.len() - 1].1[k] == after[i].1[k]);
            }
        }
        assert forall|i: int| #![trigger after[i]] 0 <= i < after.len() implies after[i].1.len()
            > 0 by {
            if i < inner.len() {
                assert(after[i] == inner[i]);
            } else {
                assert(after[i] == groups[groups.len() - 1]);
            }
        }
    }
}

/// The rows of a table are split by chunk: each stands under the time at which its chunk
/// begins, and the chunks stand in strictly rising order, none of them empty.
pub proof fn rows_stand_in_their_chunk(rows: Seq<chunk::RowModel>, interval_ns: i64)
    ensures
        chunk_groups_right(by_chunk(rows, interval_ns), interval_ns),
    decreases rows.len(),
{
    if rows.len() > 0 {
        rows_stand_in_their_chunk(rows.drop_last(), interval_ns);
        lemma_put_row_right(by_chunk(rows.drop_last(), interval_ns), rows.last(), interval_ns);
    }
}

/// A chunk begins at most one interval away from each of its rows, towards zero.
pub proof fn chunk_start_is_near(time: i64, interval_ns: i64)
    requires
        interval_ns != 0,
    ensures
        i64::MIN <= chunk_start(time as int, interval_ns as int) <= i64::MAX,
        time >= 0 ==> chunk_start(time as int, interval_ns as int) <= time < chunk_start(
            time as int,
            interval_ns as int,
        ) + magnitude(interval_ns as int),
        time < 0 ==> chunk_start(time as int, interval_ns as int) - magnitude(interval_ns as int)
            < time <= chunk_start(time as int, interval_ns as int),
{
    let m = magnitude(interval_ns as int) as int;
    let t = magnitude(time as int) as int;
    vstd::arithmetic::div_mod::lemma_fundamental_div_mod(t, m);
    vstd::arithmetic::div_mod::lemma_mod_bound(t, m);
    vstd::arithmetic::mul::lemma_mul_is_commutative(m, t / m);
    vstd::arithmetic::div_mod::lemma_div_pos_is_pos(t, m);
    vstd::arithmetic::mul::lemma_mul_nonnegative(t / m, m);
}

/// The time at which the chunk of a row begins.
pub fn chunk_time_of(time: i64, interval_ns: i64) -> (r: i64)
    requires
        interval_ns != 0,
    ensures
        r == chunk_start(time as int, interval_ns as int),
{
    proof {
        chunk_start_is_near(time, interval_ns);
    }
    let m: i128 = if interval_ns < 0 {
        -(interval_ns as i128)
    } else {
        interval_ns as i128
    };
    let t: i128 = if time < 0 {
        -(time as i128)
    } else {
        time as i128
    };
    let rest: i128 = t % m;
    proof {
        vstd::arithmetic::div_mod::lemma_fundamental_div_mod(t as int, m as int);
        vstd::arithmetic::mul::lemma_mul_is_commutative(m as int, t as int / m as int);
    }
    let start: i128 = t - rest;
    if time < 0 {
        (-start) as i64
    } else {
        start as i64
    }
}

/// The row of a point with the names of its tags and fields.
fn read_point(p: &Point, now: i64) -> (r: TableRows)
    ensures
        r@ == (TableRowsModel {
            table: p@.measurement,
            field_names: point_field_names(p@),
            tag_keys: point_tag_keys(p@),
            rows: seq![point_row(p@, now)],
        }),
{
    let tags = text::sort_pairs(&p.tags);
    let ghost sorted = text::sorted_pairs(p@.tags);
    let mut tag_keys: Vec<String> = Vec::new();
    let mut tag_values: Vec<String> = Vec::new();
    let mut i: usize = 0;
    while i < tags.len()
        invariant
            i <= tags@.len(),
            sorted == text::pair_views(tags@),
            text::views(tag_keys@) == firsts(sorted).take(i as int),
            text::views(tag_values@) == seconds(sorted).take(i as int),
        decreases tags@.len() - i,
    {
        let ghost keys_before = tag_keys@;
        let ghost values_before = tag_values@;
        tag_keys.push(tags[i].0.clone());
        tag_values.push(tags[i].1.clone());
        assert(text::views(tag_keys@) =~= text::views(keys_before).push(tags@[i as int].0@));
        assert(text::views(tag_values@) =~= text::views(values_before).push(tags@[i as int].1@));
        assert(firsts(sorted).take(i + 1) =~= firsts(sorted).take(i as int).push(
            firsts(sorted)[i as int],
        ));
        assert(seconds(sorted).take(i + 1) =~= seconds(sorted).take(i as int).push(
            seconds(sorted)[i as int],
        ));
        i += 1;
    }
    assert(firsts(sorted).take(i as int) =~= firsts(sorted));
    assert(seconds(sorted).take(i as int) =~= seconds(sorted));
    let mut field_names: Vec<String> = Vec::new();
    let mut field_values: Vec<Option<FieldValue>> = Vec::new();
    let mut j: usize = 0;
    while j < p.fields.len()
        invariant
            j <= p.fields@.len(),
            field_names@.len() == j,
            field_values@.len() == j,
            forall|k: int| 0 <= k < j ==> (#[trigger] field_names@[k])@ == p.fields@[k].0@,
            forall|k: int|
                0 <= k < j ==> chunk::field_model(#[trigger] field_values@[k]) == Some(
                    p.fields@[k].1@,
                ),
        decreases p.fields@.len() - j,
    {
        field_names.push(p.fields[j].0.clone());
        field_values.push(Some(p.fields[j].1.clone()));
        j += 1;
    }
    let time = match p.timestamp {
        Some(t) => t,
        None => now,
    };
    let row = Row { time, tag_values, field_values };
    assert(row@ =~= point_row(p@, now));
    let mut rows: Vec<Row> = Vec::new();
    rows.push(row);
    let r = TableRows { table: p.measurement.clone(), field_names, tag_keys, rows };
    assert(r@.field_names =~= point_field_names(p@));
    assert(r@.rows =~= seq![point_row(p@, now)]);
    r
}

/// Adds the row of a point to the group of its table.
fn add_point(groups: &mut Vec<TableRows>, p: &Point, now: i64)
    ensures
        group_models(final(groups)@) == with_point(group_models(old(groups)@), p@, now),
{
    let ghost before = group_models(groups@);
    proof {
        lemma_group_position(before, p@.measurement);
    }
    let mut one = read_point(p, now);
    let mut i: usize = 0;
    while i < groups.len() && !text::same(groups[i].table.as_str(), p.measurement.as_str())
        invariant
            i <= groups@.len(),
            *groups == *old(groups),
            before == group_models(groups@),
            i <= group_position(before, p@.measurement) <= before.len(),
            forall|k: int|
                0 <= k < group_position(before, p@.measurement) ==> (#[trigger] before[k]).table
                    != p@.measurement,
            group_position(before, p@.measurement) < before.len() ==> before[group_position(
                before,
                p@.measurement,
            )].table == p@.measurement,
        decreases groups@.len() - i,
    {
        assert(before[i as int].table == groups@[i as int].table@);
        i += 1;
    }
    if i < groups.len() {
        assert(before[i as int].table == groups@[i as int].table@);
        assert(i == group_position(before, p@.measurement));
        let ghost new_rows = one.rows@;
        assert(chunk::row_models(new_rows).len() == new_rows.len());
        assert(chunk::row_models(new_rows)[0] == new_rows[0]@);
        let row = match one.rows.pop() {
            Some(row) => row,
            None => {
                assert(false);
                return;
            },
        };
        let ghost rows_before = groups@[i as int].rows@;
        if groups[i].field_names.len() == 0 {
            groups[i].field_names = one.field_names;
        }
        if groups[i].tag_keys.len() == 0 {
            groups[i].tag_keys = one.tag_keys;
        }
        groups[i].rows.push(row);
        assert(chunk::row_models(groups@[i as int].rows@) =~= chunk::row_models(rows_before).push(
            row@,
        ));
        let ghost after = with_point(before, p@, now);
        assert(groups@[i as int]@ =~= after[i as int]);
        assert(group_models(groups@) =~= after);
    } else {
        groups.push(one);
        assert(group_models(groups@) =~= with_point(before, p@, now));
    }
}

/// The rows of the lines by table.
fn group_lines(lines: &Vec<Option<Point>>, now: i64) -> (r: Vec<TableRows>)
    ensures
        group_models(r@) == grouped(line_models(lines@), now),
{
    let ghost all = line_models(lines@);
    let mut r: Vec<TableRows> = Vec::new();
    let mut i: usize = 0;
    assert(group_models(r@) =~= grouped(all.take(0), now));
    while i < lines.len()
        invariant
            i <= lines@.len(),
            all == line_models(lines@),
            group_models(r@) == grouped(all.take(i as int), now),
        decreases lines@.len() - i,
    {
        assert(all.take(i + 1).drop_last() =~= all.take(i as int));
        assert(all.take(i + 1).last() == line_model(lines@[i as int]));
        match &lines[i] {
            Some(p) => add_point(&mut r, p, now),
            None => {},
        }
        i += 1;
    }
    assert(all.take(i as int) =~= all);
    r
}

pub open spec fn chunk_group_models(groups: Seq<(i64, Vec<Row>)>) -> Seq<
    (i64, Seq<chunk::RowModel>),
> {
    groups.map_values(|g: (i64, Vec<Row>)| (g.0, chunk::row_models(g.1@)))
}

/// Adds a row to the group of its chunk.
fn add_to_chunk(groups: &mut Vec<(i64, Vec<Row>)>, start: i64, row: Row)
    ensures
        chunk_group_models(final(groups)@) == put_row(
            chunk_group_models(old(groups)@),
            start,
            row@,
        ),
{
    let ghost before = chunk_group_models(groups@);
    let mut at: usize = groups.len();
    assert(before.take(at as int) =~= before);
    assert(put_row(before, start, row@) =~= put_row(before.take(at as int), start, row@)
        + before.skip(at as int));
    while at > 0 && groups[at - 1].0 > start
        invariant
            at <= groups@.len(),
            *groups == *old(groups),
            before == chunk_group_models(groups@),
            put_row(before, start, row@) == put_row(before.take(at as int), start, row@)
                + before.skip(at as int),
        decreases at,
    {
        let ghost front = before.take(at as int);
        assert(front.last() == before[at - 1]);
        assert(front.drop_last() =~= before.take(at - 1));
        assert(put_row(front.drop_last(), start, row@).push(front.last()) + before.skip(at as int)
            =~= put_row(before.take(at - 1), start, row@) + before.skip(at - 1));
        at -= 1;
    }
    let ghost front = before.take(at as int);
    assert(at > 0 ==> front.last() == before[at - 1]);
    if at > 0 && groups[at - 1].0 == start {
        let ghost rows_before = groups@[at - 1].1@;
        groups[at - 1].1.push(row);
        assert(chunk::row_models(groups@[at - 1].1@) =~= chunk::row_models(rows_before).push(row@));
        assert(chunk_group_models(groups@) =~= front.update(
            at - 1,
            (start, front.last().1.push(row@)),
        ) + before.skip(at as int));
    } else {
        let mut rows: Vec<Row> = Vec::new();
        rows.push(row);
        assert(chunk::row_models(rows@) =~= seq![row@]);
        groups.insert(at, (start, rows));
        assert(chunk_group_models(groups@) =~= front.push((start, seq![row@])) + before.skip(
            at as int,
        ));
    }
}

/// The batches of one table, one for each chunk, behind those of the tables before it.
fn add_table_batches(batches: &mut Vec<WriteBatch>, db: &str, group: &TableRows, interval_ns: i64)
    requires
        interval_ns != 0,
    ensures
        batch_models(final(batches)@) == batch_models(old(batches)@) + table_batches(
            db@,
            group@,
            interval_ns,
        ),
{
    let ghost rows = group@.rows;
    let mut chunks: Vec<(i64, Vec<Row>)> = Vec::new();
    let mut i: usize = 0;
    assert(chunk_group_models(chunks@) =~= by_chunk(rows.take(0), interval_ns));
    while i < group.rows.len()
        invariant
            i <= group.rows@.len(),
            interval_ns != 0,
            rows == group@.rows,
            chunk_group_models(chunks@) == by_chunk(rows.take(i as int), interval_ns),
        decreases group.rows@.len() - i,
    {
        assert(rows.take(i + 1).drop_last() =~= rows.take(i as int));
        assert(rows.take(i + 1).last() == group.rows@[i as int]@);
        let start = chunk_time_of(group.rows[i].time, interval_ns);
        add_to_chunk(&mut chunks, start, group.rows[i].clone());
        i += 1;
    }
    assert(rows.take(i as int) =~= rows);
    let ghost all = by_chunk(rows, interval_ns);
    let ghost f = |c: (i64, Seq<chunk::RowModel>)|
        wal::BatchModel {
            db: db@,
            table: group@.table,
            chunk_time: c.0,
            field_names: group@.field_names,
            tag_keys: group@.tag_keys,
            rows: c.1,
        };
    let ghost before = batch_models(batches@);
    let ghost mut done: int = 0;
    assert(before =~= before + all.map_values(f).take(0));
    assert(all.skip(0) =~= all);
    while chunks.len() > 0
        invariant
            0 <= done <= all.len(),
            f == (|c: (i64, Seq<chunk::RowModel>)|
                wal::BatchModel {
                    db: db@,
                    table: group@.table,
                    chunk_time: c.0,
                    field_names: group@.field_names,
                    tag_keys: group@.tag_keys,
                    rows: c.1,
                }),
            chunk_group_models(chunks@) == all.skip(done),
            batch_models(batches@) == before + all.map_values(f).take(done),
        decreases chunks@.len(),
    {
        let ghost was = chunks@;
        let ghost batches_before = batches@;
        assert(chunk_group_models(was).len() == was.len());
        assert(chunk_group_models(was)[0] == all.skip(done)[0]);
        let (chunk_time, chunk_rows) = chunks.remove(0);
        assert(chunk_group_models(chunks@) =~= all.skip(done + 1)) by {
            assert forall|k: int| 0 <= k < chunks@.len() implies chunk_group_models(chunks@)[k]
                == #[trigger] all.skip(done + 1)[k] by {
                assert(chunk_group_models(was)[k + 1] == all.skip(done)[k + 1]);
                assert(chunks@[k] == was[k + 1]);
            }
        }
        let batch = WriteBatch {
            db_name: db.to_owned(),
            table_name: group.table.clone(),
            chunk_time,
            field_names: text::copy_list(&group.field_names),
            tag_keys: text::copy_list(&group.tag_keys),
            rows: chunk_rows,
        };
        batches.push(batch);
        assert(batch@ =~= f(all[done]));
        assert(batch_models(batches@) =~= batch_models(batches_before).push(batch@));
        assert(all.map_values(f).take(done + 1) =~= all.map_values(f).take(done).push(
            f(all[done]),
        ));
        proof {
            done = done + 1;
        }
    }
    assert(done == all.len()) by {
        assert(chunk_group_models(chunks@).len() == all.skip(done).len());
    }
    assert(all.map_values(f).take(done) =~= all.map_values(f));
    assert(table_batches(db@, group@, interval_ns) =~= all.map_values(f));
}

/// The batches that some lines make: their rows by table and by chunk.
pub fn make_batches(lines: &Vec<Option<Point>>, db: &str, interval_ns: i64, now: i64) -> (r: Vec<
    WriteBatch,
>)
    requires
        interval_ns != 0,
    ensures
        batch_models(r@) == batches_of(line_models(lines@), db@, interval_ns, now),
{
    let groups = group_lines(lines, now);
    let ghost all = group_models(groups@);
    let mut r: Vec<WriteBatch> = Vec::new();
    let mut i: usize = 0;
    assert(batch_models(r@) =~= all_batches(db@, all.take(0), interval_ns));
    while i < groups.len()
        invariant
            i <= groups@.len(),
            interval_ns != 0,
            all == group_models(groups@),
            batch_models(r@) == all_batches(db@, all.take(i as int), interval_ns),
        decreases groups@.len() - i,
    {
        assert(all.take(i + 1).drop_last() =~= all.take(i as int));
        assert(all.take(i + 1).last() == groups@[i as int]@);
        add_table_batches(&mut r, db, &groups[i], interval_ns);
        i += 1;
    }
    assert(all.take(i as int) =~= all);
    r
}

/// The number of lines that are points.
pub fn count_points(lines: &Vec<Option<Point>>) -> (r: usize)
    ensures
        r == point_count(line_models(lines@)),
        r <= lines@.len(),
{
    let ghost all = line_models(lines@);
    let mut n: usize = 0;
    let mut i: usize = 0;
    while i < lines.len()
        invariant
            i <= lines@.len(),
            n <= i,
            all == line_models(lines@),
            n == point_count(all.take(i as int)),
        decreases lines@.len() - i,
    {
        assert(all.take(i + 1).drop_last() =~= all.take(i as int));
        assert(all.take(i + 1).last() == line_model(lines@[i as int]));
        if lines[i].is_some() {
            n += 1;
        }
        i += 1;
    }
    assert(all.take(i as int) =~= all);
    n
}

/// The nanoseconds of a number of seconds, within the range of 64 bits.
pub open spec fn saturated_ns(secs: int) -> i64 {
    let ns = secs * 1_000_000_000;
    if ns > i64::MAX {
        i64::MAX
    } else if ns < i64::MIN {
        i64::MIN
    } else {
        ns as i64
    }
}

/// The nanoseconds of a number of seconds, within the range of 64 bits.
pub fn secs_to_ns(secs: i64) -> (r: i64)
    ensures
        r == saturated_ns(secs as int),
{
    let ns: i128 = secs as i128 * 1_000_000_000;
    if ns > i64::MAX as i128 {
        i64::MAX
    } else if ns < i64::MIN as i128 {
        i64::MIN
    } else {
        ns as i64
    }
}

/// The number of operations that the log still takes.
pub open spec fn room(w: WalManager) -> nat {
    if w.op_count < w.limit() {
        (w.limit() - w.op_count) as nat
    } else {
        0
    }
}

pub open spec fn write_ops(batches: Seq<wal::BatchModel>) -> Seq<wal::OpModel> {
    batches.map_values(|b: wal::BatchModel| wal::OpModel::Write(b))
}

/// Hands the batches to the log, one operation each. Where the log is full, those that
/// still had room wait in it.
fn log_batches(w: &mut WalManager, batches: &Vec<WriteBatch>) -> (r: Result<(), wal_core::WalError>)
    requires
        old(w).wf(),
    ensures
        final(w).wf(),
        r is Ok == (batches@.len() <= room(*old(w))),
        r is Ok ==> wal::op_models(final(w).pending_ops@) == wal::op_models(old(w).pending_ops@)
            + write_ops(batch_models(batches@)),
        r is Err ==> r->Err_0 == wal_core::WalError::BufferFull(
            (old(w).op_count + room(*old(w))) as usize,
        ) && wal::op_models(final(w).pending_ops@) == wal::op_models(old(w).pending_ops@)
            + write_ops(batch_models(batches@)).take(room(*old(w)) as int),
        final(w).current_seq == old(w).current_seq,
        final(w).op_limit == old(w).op_limit,
        final(w).hot == old(w).hot,
        final(w).wal_dir == old(w).wal_dir,
{
    let ghost before = wal::op_models(w.pending_ops@);
    let ghost start = *w;
    let ghost ops = write_ops(batch_models(batches@));
    let mut i: usize = 0;
    assert(before =~= before + ops.take(0));
    while i < batches.len()
        invariant
            i <= batches@.len(),
            w.wf(),
            ops == write_ops(batch_models(batches@)),
            start == *old(w),
            before == wal::op_models(old(w).pending_ops@),
            i <= room(start),
            w.op_count == start.op_count + i,
            w.limit() == start.limit(),
            w.current_seq == start.current_seq,
            w.op_limit == start.op_limit,
            w.hot == start.hot,
            w.wal_dir == start.wal_dir,
            wal::op_models(w.pending_ops@) == before + ops.take(i as int),
        decreases batches@.len() - i,
    {
        let ghost pending = w.pending_ops@;
        let op = WalOp::Write(batches[i].clone());
        match w.buffer_op(op) {
            Ok(()) => {
                assert(wal::op_models(w.pending_ops@) =~= wal::op_models(pending).push(op@));
                assert(ops[i as int] == op@);
                assert(ops.take(i + 1) =~= ops.take(i as int).push(ops[i as int]));
            },
            Err(e) => {
                return Err(e);
            },
        }
        i += 1;
    }
    assert(ops.take(i as int) =~= ops);
    Ok(())
}

/// What to do next with a write: send a reply, or write a log file and report the outcome.
pub enum WriteStep {
    Reply(Reply),
    Persist { file: LogFile, rows: usize },
}

/// The part of an agent that takes writes.
pub struct WriteHandler {
    pub buffer: Buffer,
    pub wal: WalManager,
    pub config: Config,
}

/// The text for a body that is too long.
pub open spec fn too_large(limit: usize) -> Seq<char> {
    "body exceeds "@ + decimal::numeral(limit as nat) + " bytes limit"@
}

/// The database that a query string names, `default` where it names none.
pub open spec fn database_of(query: Option<Seq<char>>) -> Seq<char> {
    match http::first_value(http::query_pairs(query), "db"@) {
        Some(db) => db,
        None => "default"@,
    }
}

/// The database that a query string names, `default` where it names none.
pub fn write_database(query: Option<&str>) -> (r: String)
    ensures
        r@ == database_of(http::optional_view(query)),
{
    let pairs = http::parse_query(query);
    match http::find_value(&pairs, "db") {
        Some(db) => db,
        None => "default".to_owned(),
    }
}

fn too_large_reply(limit: usize) -> (r: Reply)
    ensures
        r.is(413, too_large(limit)),
{
    let body = text::join3(
        "body exceeds ",
        decimal::format_u64(limit as u64).as_str(),
        " bytes limit",
    );
    Reply { status: 413, body }
}

impl WriteHandler {
    pub open spec fn wf(&self) -> bool {
        &&& self.buffer.wf()
        &&& self.wal.wf()
    }

    /// The length of a chunk.
    pub open spec fn interval_ns(&self) -> i64 {
        saturated_ns(config::duration_secs(self.config.flush.snapshot_interval@))
    }

    /// Looks at a request before its body is read: a reply where it is refused at once.
    pub fn check_request(&self, is_post: bool, content_length: Option<&str>) -> (r: Option<Reply>)
        ensures
            match r {
                Some(reply) => if !is_post {
                    reply.is(405, "POST only"@)
                } else {
                    http::declared_length(http::optional_view(content_length))
                        > self.config.server.max_body_bytes && reply.is(
                        413,
                        too_large(self.config.server.max_body_bytes),
                    )
                },
                None => is_post && http::declared_length(http::optional_view(content_length))
                    <= self.config.server.max_body_bytes,
            },
    {
        if !is_post {
            return Some(Reply::new(405, "POST only"));
        }
        let limit = self.config.max_body_bytes();
        if http::content_length(content_length) > limit {
            return Some(too_large_reply(limit));
        }
        None
    }

    /// Whether a body holds a point: it is short enough, it is a text, and one of its lines
    /// is a point.
    pub open spec fn holds_point(&self, body: Seq<u8>) -> bool {
        &&& body.len() <= self.config.server.max_body_bytes
        &&& valid_utf8(body)
        &&& point_count(parsed_lines(decode_utf8(body))) > 0
    }

    /// Whether time can be divided into chunks.
    pub open spec fn has_chunks(&self) -> bool {
        self.config.interval_fits() && self.interval_ns() != 0
    }

    /// Whether the handler is the one after the body of a request, with what to do next.
    pub open spec fn handled(
        &self,
        before: WriteHandler,
        query: Option<Seq<char>>,
        body: Seq<u8>,
        now_ns: i64,
        r: WriteStep,
    ) -> bool {
        &&& self.buffer == before.buffer
        &&& self.config == before.config
        &&& self.wal.current_seq == before.wal.current_seq
        &&& self.wal.wal_dir == before.wal.wal_dir
        &&& self.wal.op_limit == before.wal.op_limit
        &&& self.wal.hot == before.wal.hot
        &&& if body.len() > before.config.server.max_body_bytes {
            &&& *self == before
            &&& r is Reply
            &&& r->Reply_0.is(413, too_large(before.config.server.max_body_bytes))
        } else if !valid_utf8(body) {
            &&& *self == before
            &&& r is Reply
            &&& r->Reply_0.is(400, "invalid utf-8"@)
        } else {
            let batches = batches_of(
                parsed_lines(decode_utf8(body)),
                database_of(query),
                before.interval_ns(),
                now_ns,
            );
            let room = room(before.wal);
            let waiting = wal::op_models(before.wal.pending_ops@);
            if batches.len() == 0 {
                *self == before && r is Reply && r->Reply_0.is(204, "0 rows"@)
            } else if batches.len() > room {
                &&& r is Reply
                &&& r->Reply_0.is(
                    503,
                    "WAL buffer error: "@ + (wal_core::WalError::BufferFull(
                        (before.wal.op_count + room) as usize,
                    )).spec_message(),
                )
                &&& wal::op_models(self.wal.pending_ops@) == waiting + write_ops(batches).take(
                    room as int,
                )
            } else {
                &&& r is Persist
                &&& r->rows == batch_rows(batches)
                &&& r->file.seq == before.wal.current_seq
                &&& r->file.path@ == text::path_in(
                    before.wal.wal_dir@,
                    wal_core::name_of_seq(before.wal.current_seq as nat),
                )
                &&& wal::op_models(r->file.ops@) == waiting + write_ops(batches)
                &&& self.wal.pending_ops@.len() == 0
            }
        }
    }

    /// Takes the body of a request: reads its lines and hands their rows to the log. Where
    /// there is a row, time has to be divided into chunks.
    pub fn handle(&mut self, query: Option<&str>, body: &Vec<u8>, now_ns: i64) -> (r: WriteStep)
        requires
            old(self).wf(),
            old(self).holds_point(body@) ==> old(self).has_chunks(),
        ensures
            final(self).wf(),
            final(self).handled(*old(self), http::optional_view(query), body@, now_ns, r),
    {
        let limit = self.config.max_body_bytes();
        if body.len() > limit {
            return WriteStep::Reply(too_large_reply(limit));
        }
        let input = match http::utf8_text(body) {
            Some(s) => s,
            None => {
                return WriteStep::Reply(Reply::new(400, "invalid utf-8"));
            },
        };
        proof {
            encode_utf8_decode_utf8(input@);
        }
        let db = write_database(query);
        let lines = parse_lines(input);
        proof {
            batches_hold_every_point(line_models(lines@), db@, self.interval_ns(), now_ns);
        }
        let rows = count_points(&lines);
        if rows == 0 {
            return WriteStep::Reply(Reply::new(204, "0 rows"));
        }
        let interval_ns = secs_to_ns(self.config.snapshot_interval_secs());
        let batches = make_batches(&lines, db.as_str(), interval_ns, now_ns);
        assert(batch_models(batches@).len() == batches@.len());
        match log_batches(&mut self.wal, &batches) {
            Ok(()) => {},
            Err(e) => {
                let body = text::join2("WAL buffer error: ", e.message().as_str());
                return WriteStep::Reply(Reply { status: 503, body });
            },
        }
        assert(self.wal.pending_ops@.len() == wal::op_models(self.wal.pending_ops@).len());
        match self.wal.begin_flush() {
            Some(file) => WriteStep::Persist { file, rows },
            None => WriteStep::Reply(Reply::new(204, "0 rows")),
        }
    }

    /// Tests whether a body holds a point.
    fn finds_point(&self, body: &Vec<u8>) -> (r: bool)
        ensures
            r == self.holds_point(body@),
    {
        if body.len() > self.config.max_body_bytes() {
            return false;
        }
        match http::utf8_text(body) {
            Some(input) => {
                proof {
                    encode_utf8_decode_utf8(input@);
                }
                count_points(&parse_lines(input)) > 0
            },
            None => false,
        }
    }

    /// Takes the body of a request, where that can be done: nothing happens where it holds a
    /// point and time cannot be divided into chunks.
    pub fn try_handle(&mut self, query: Option<&str>, body: &Vec<u8>, now_ns: i64) -> (r: Option<
        WriteStep,
    >)
        requires
            old(self).wf(),
        ensures
            final(self).wf(),
            match r {
                Some(step) => final(self).handled(
                    *old(self),
                    http::optional_view(query),
                    body@,
                    now_ns,
                    step,
                ),
                None => *final(self) == *old(self),
            },
            r is None == (old(self).holds_point(body@) && !old(self).has_chunks()),
    {
        let divides = self.config.check_interval() && secs_to_ns(
            self.config.snapshot_interval_secs(),
        ) != 0;
        if !divides && self.finds_point(body) {
            return None;
        }
        Some(self.handle(query, body, now_ns))
    }

    /// Takes the outcome of writing the log file: applies its operations to the buffer and
    /// replies with the number of rows, or replies that the log failed.
    pub fn finish(&mut self, file: &LogFile, rows: usize, outcome: Result<(), String>) -> (r: Reply)
        requires
            old(self).wf(),
            old(self).wal.current_seq == file.seq,
            file.seq < u64::MAX,
        ensures
            final(self).wf(),
            final(self).config == old(self).config,
            outcome is Ok ==> r.is(204, decimal::numeral(rows as nat) + " rows"@)
                && final(self).wal == (WalManager {
                current_seq: (file.seq + 1) as u64,
                ..old(self).wal
            }) && final(self).buffer@ == wal_core::after_ops(
                old(self).buffer@,
                wal::op_models(file.ops@),
                file.seq,
            ),
            outcome is Err ==> r.is(
                503,
                "WAL flush error: WAL write error: write WAL "@ + decimal::numeral(
                    file.seq as nat,
                ) + ": "@ + outcome->Err_0@,
            ) && final(self).buffer == old(self).buffer && final(self).wal == old(self).wal,
    {
        match wal_core::flush_and_apply(&mut self.wal, &mut self.buffer, file, outcome) {
            Ok(_) => {
                let body = text::join2(decimal::format_u64(rows as u64).as_str(), " rows");
                Reply { status: 204, body }
            },
            Err(e) => {
                let body = text::join2("WAL flush error: ", e.message().as_str());
                proof {
                    reveal_strlit("WAL flush error: ");
                    reveal_strlit("WAL write error: ");
                    reveal_strlit("write WAL ");
                    reveal_strlit("WAL flush error: WAL write error: write WAL ");
                    assert("WAL flush error: "@ + ("WAL write error: "@ + "write WAL "@)
                        =~= "WAL flush error: WAL write error: write WAL "@);
                    assert(body@ =~= "WAL flush error: WAL write error: write WAL "@
                        + decimal::numeral(file.seq as nat) + ": "@ + outcome->Err_0@);
                }
                Reply { status: 503, body }
            },
        }
    }
}

} // verus!
