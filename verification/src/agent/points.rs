//! What becomes of the points of a write: each is one row of one batch, under its table and
//! its time, with its own tags and fields.

use crate::agent::buffer::chunk;
use crate::agent::wal;
use crate::agent::write::{PointModel, TableRowsModel};
use crate::text;
use vstd::prelude::*;

verus! {

/// The row of a point holds what the point holds. Its tags are those of the point, each
/// value at the position of the key that it was written with, and the keys stand in order.
/// Its fields stand in the order of the point, each under its own name. Its time is that of
/// the point, where it has one, and the time of the write otherwise.
pub proof fn row_holds_its_point(p: PointModel, now: i64)
    ensures
        ({
            let keys = crate::agent::write::point_tag_keys(p);
            let names = crate::agent::write::point_field_names(p);
            let row = crate::agent::write::point_row(p, now);
            &&& keys.len() == p.tags.len()
            &&& row.tags.len() == p.tags.len()
            &&& Seq::new(p.tags.len(), |i: int| (keys[i], row.tags[i])).to_multiset()
                == p.tags.to_multiset()
            &&& forall|i: int, j: int|
                #![trigger keys[i], keys[j]]
                0 <= i < j < keys.len() ==> !text::text_less(keys[j], keys[i])
            &&& names.len() == p.fields.len()
            &&& row.fields.len() == p.fields.len()
            &&& forall|i: int|
                0 <= i < p.fields.len() ==> (names[i], row.fields[i]) == (
                    (#[trigger] p.fields[i]).0,
                    Some(p.fields[i].1),
                )
            &&& p.timestamp is Some ==> row.time == p.timestamp->0
            &&& p.timestamp is None ==> row.time == now
        }),
{
    broadcast use vstd::seq_lib::group_to_multiset_ensures;

    let sorted = text::sorted_pairs(p.tags);
    text::sorting_orders_the_pairs(p.tags);
    assert(sorted.len() == p.tags.len()) by {
        assert(sorted.to_multiset().len() == sorted.len());
        assert(p.tags.to_multiset().len() == p.tags.len());
    }
    let keys = crate::agent::write::point_tag_keys(p);
    let row = crate::agent::write::point_row(p, now);
    assert(Seq::new(p.tags.len(), |i: int| (keys[i], row.tags[i])) =~= sorted);
    assert forall|i: int, j: int|
        #![trigger keys[i], keys[j]]
        0 <= i < j < keys.len() implies !text::text_less(keys[j], keys[i]) by {
        assert(keys[i] == sorted[i].0 && keys[j] == sorted[j].0);
    }
}

/// Whether a line is a point of a table.
pub open spec fn is_point_of(line: Option<PointModel>, table: Seq<char>) -> bool {
    line is Some && line->0.measurement == table
}

/// The points of a table among some lines, in their order.
pub open spec fn points_of(lines: Seq<Option<PointModel>>, table: Seq<char>) -> Seq<
    PointModel,
> {
    lines.filter(|line: Option<PointModel>| is_point_of(line, table)).map_values(
        |line: Option<PointModel>| line->0,
    )
}

/// The rows of some points.
pub open spec fn rows_of(points: Seq<PointModel>, now: i64) -> Seq<chunk::RowModel> {
    points.map_values(|p: PointModel| crate::agent::write::point_row(p, now))
}

/// Whether some names of tags are those of the first point that has tags.
pub open spec fn are_first_tags(points: Seq<PointModel>, keys: Seq<Seq<char>>) -> bool {
    if forall|i: int| 0 <= i < points.len() ==> (#[trigger] points[i]).tags.len() == 0 {
        keys.len() == 0
    } else {
        exists|i: int|
            0 <= i < points.len() && #[trigger] is_first_tagged(points, i)
                && keys == crate::agent::write::point_tag_keys(points[i])
    }
}

pub open spec fn is_first_tagged(points: Seq<PointModel>, i: int) -> bool {
    &&& points[i].tags.len() > 0
    &&& forall|k: int| 0 <= k < i ==> (#[trigger] points[k]).tags.len() == 0
}

/// Whether some names of fields are those of the first point that has fields.
pub open spec fn are_first_fields(points: Seq<PointModel>, names: Seq<Seq<char>>) -> bool {
    if forall|i: int| 0 <= i < points.len() ==> (#[trigger] points[i]).fields.len() == 0 {
        names.len() == 0
    } else {
        exists|i: int|
            0 <= i < points.len() && #[trigger] is_first_fielded(points, i)
                && names == crate::agent::write::point_field_names(points[i])
    }
}

pub open spec fn is_first_fielded(points: Seq<PointModel>, i: int) -> bool {
    &&& points[i].fields.len() > 0
    &&& forall|k: int| 0 <= k < i ==> (#[trigger] points[k]).fields.len() == 0
}

/// Whether a group holds the points of its table.
pub open spec fn group_right(
    lines: Seq<Option<PointModel>>,
    now: i64,
    g: TableRowsModel,
) -> bool {
    let points = points_of(lines, g.table);
    &&& points.len() > 0
    &&& g.rows == rows_of(points, now)
    &&& are_first_tags(points, g.tag_keys)
    &&& are_first_fields(points, g.field_names)
}

proof fn lemma_points_of_more(lines: Seq<Option<PointModel>>, table: Seq<char>)
    requires
        lines.len() > 0,
    ensures
        is_point_of(lines.last(), table) ==> points_of(lines, table) == points_of(
            lines.drop_last(),
            table,
        ).push(lines.last()->0),
        !is_point_of(lines.last(), table) ==> points_of(lines, table) == points_of(
            lines.drop_last(),
            table,
        ),
{
    reveal(Seq::filter);
    let of = |line: Option<PointModel>| is_point_of(line, table);
    let point = |line: Option<PointModel>| line->0;
    if is_point_of(lines.last(), table) {
        assert(points_of(lines, table) =~= lines.drop_last().filter(of).map_values(point).push(
            lines.last()->0,
        ));
    }
}

proof fn lemma_tags_more(points: Seq<PointModel>, p: PointModel, keys: Seq<Seq<char>>)
    requires
        are_first_tags(points, keys),
    ensures
        are_first_tags(
            points.push(p),
            if keys.len() == 0 {
                crate::agent::write::point_tag_keys(p)
            } else {
                keys
            },
        ),
{
    let more = points.push(p);
    row_holds_its_point(p, 0);
    if forall|i: int| 0 <= i < points.len() ==> (#[trigger] points[i]).tags.len() == 0 {
        assert forall|k: int| 0 <= k < points.len() implies (#[trigger] more[k]).tags.len() == 0 by {
            assert(more[k] == points[k]);
        }
        if p.tags.len() > 0 {
            assert(more[points.len() as int] == p);
            assert(is_first_tagged(more, points.len() as int));
        } else {
            assert forall|i: int| 0 <= i < more.len() implies (#[trigger] more[i]).tags.len()
                == 0 by {}
        }
    } else {
        let i = choose|i: int|
            0 <= i < points.len() && #[trigger] is_first_tagged(points, i) && keys
                == crate::agent::write::point_tag_keys(points[i]);
        row_holds_its_point(points[i], 0);
        assert(more[i] == points[i]);
        assert forall|k: int| 0 <= k < i implies (#[trigger] more[k]).tags.len() == 0 by {
            assert(more[k] == points[k]);
        }
        assert(is_first_tagged(more, i));
    }
}

proof fn lemma_fields_more(
    points: Seq<PointModel>,
    p: PointModel,
    names: Seq<Seq<char>>,
)
    requires
        are_first_fields(points, names),
    ensures
        are_first_fields(
            points.push(p),
            if names.len() == 0 {
                crate::agent::write::point_field_names(p)
            } else {
                names
            },
        ),
{
    let more = points.push(p);
    row_holds_its_point(p, 0);
    if forall|i: int| 0 <= i < points.len() ==> (#[trigger] points[i]).fields.len() == 0 {
        assert forall|k: int| 0 <= k < points.len() implies (#[trigger] more[k]).fields.len()
            == 0 by {
            assert(more[k] == points[k]);
        }
        if p.fields.len() > 0 {
            assert(more[points.len() as int] == p);
            assert(is_first_fielded(more, points.len() as int));
        } else {
            assert forall|i: int| 0 <= i < more.len() implies (#[trigger] more[i]).fields.len()
                == 0 by {}
        }
    } else {
        let i = choose|i: int|
            0 <= i < points.len() && #[trigger] is_first_fielded(points, i) && names
                == crate::agent::write::point_field_names(points[i]);
        row_holds_its_point(points[i], 0);
        assert(more[i] == points[i]);
        assert forall|k: int| 0 <= k < i implies (#[trigger] more[k]).fields.len() == 0 by {
            assert(more[k] == points[k]);
        }
        assert(is_first_fielded(more, i));
    }
}

/// The points of a write are grouped by table: there is one group for each table that has a
/// point and no other. A group holds the rows of the points of its table, all of them, in
/// their order, under the names of the first point that has tags, and of the first that has
/// fields.
pub proof fn points_are_grouped_by_table(lines: Seq<Option<PointModel>>, now: i64)
    ensures
        ({
            let groups = crate::agent::write::grouped(lines, now);
            &&& forall|g: int| 0 <= g < groups.len() ==> group_right(lines, now, #[trigger] groups[g])
            &&& forall|g: int, h: int|
                #![trigger groups[g], groups[h]]
                0 <= g < h < groups.len() ==> groups[g].table != groups[h].table
            &&& forall|l: int|
                0 <= l < lines.len() && (#[trigger] lines[l]) is Some ==> exists|g: int|
                    0 <= g < groups.len() && (#[trigger] groups[g]).table == lines[l]->0.measurement
        }),
    decreases lines.len(),
{
    let groups = crate::agent::write::grouped(lines, now);
    if lines.len() > 0 {
        let front = lines.drop_last();
        let before = crate::agent::write::grouped(front, now);
        points_are_grouped_by_table(front, now);
        match lines.last() {
            Some(p) => {
                crate::agent::write::lemma_group_position(before, p.measurement);
                let at = crate::agent::write::group_position(before, p.measurement);
                assert forall|g: int| 0 <= g < groups.len() implies group_right(
                    lines,
                    now,
                    #[trigger] groups[g],
                ) by {
                    lemma_points_of_more(lines, groups[g].table);
                    let points = points_of(front, groups[g].table);
                    if g == at {
                        assert(groups[g].table == p.measurement);
                        if at < before.len() {
                            assert(group_right(front, now, before[at]));
                            lemma_tags_more(points, p, before[at].tag_keys);
                            lemma_fields_more(points, p, before[at].field_names);
                        } else {
                            assert(points.len() == 0) by {
                                if points.len() > 0 {
                                    lemma_point_is_a_line(front, p.measurement);
                                }
                            }
                            assert(points =~= Seq::<PointModel>::empty());
                            lemma_tags_more(points, p, Seq::empty());
                            lemma_fields_more(points, p, Seq::empty());
                            assert(seq![crate::agent::write::point_row(p, now)]
                                =~= Seq::<chunk::RowModel>::empty().push(
                                crate::agent::write::point_row(p, now),
                            ));
                            assert(rows_of(points, now) =~= Seq::<chunk::RowModel>::empty());
                        }
                        assert(rows_of(points.push(p), now) =~= rows_of(points, now).push(
                            crate::agent::write::point_row(p, now),
                        ));
                    } else {
                        assert(groups[g] == before[g]);
                        assert(group_right(front, now, before[g]));
                        assert(before[g].table != p.measurement);
                    }
                }
                assert forall|g: int, h: int|
                    #![trigger groups[g], groups[h]]
                    0 <= g < h < groups.len() implies groups[g].table != groups[h].table by {
                    if h < before.len() {
                        assert(groups[g].table == before[g].table && groups[h].table
                            == before[h].table);
                    } else {
                        assert(groups[g].table == before[g].table);
                    }
                }
                assert forall|l: int|
                    0 <= l < lines.len() && (#[trigger] lines[l]) is Some implies exists|g: int|
                    0 <= g < groups.len() && (#[trigger] groups[g]).table
                        == lines[l]->0.measurement by {
                    if l < front.len() {
                        assert(front[l] == lines[l]);
                        let g = choose|g: int|
                            0 <= g < before.len() && (#[trigger] before[g]).table
                                == lines[l]->0.measurement;
                        assert(groups[g].table == before[g].table);
                    } else {
                        assert(groups[at].table == p.measurement);
                    }
                }
            },
            None => {
                assert forall|g: int| 0 <= g < groups.len() implies group_right(
                    lines,
                    now,
                    #[trigger] groups[g],
                ) by {
                    lemma_points_of_more(lines, groups[g].table);
                    assert(group_right(front, now, before[g]));
                }
                assert forall|l: int|
                    0 <= l < lines.len() && (#[trigger] lines[l]) is Some implies exists|g: int|
                    0 <= g < groups.len() && (#[trigger] groups[g]).table
                        == lines[l]->0.measurement by {
                    assert(front[l] == lines[l]);
                }
            },
        }
    }
}

proof fn lemma_point_is_a_line(lines: Seq<Option<PointModel>>, table: Seq<char>)
    requires
        points_of(lines, table).len() > 0,
    ensures
        exists|l: int| 0 <= l < lines.len() && is_point_of(#[trigger] lines[l], table),
    decreases lines.len(),
{
    reveal(Seq::filter);
    if lines.len() > 0 {
        lemma_points_of_more(lines, table);
        let front = lines.drop_last();
        if is_point_of(lines.last(), table) {
            assert(is_point_of(lines[lines.len() - 1], table));
        } else {
            lemma_point_is_a_line(front, table);
            let l = choose|l: int| 0 <= l < front.len() && is_point_of(#[trigger] front[l], table);
            assert(is_point_of(lines[l], table));
        }
    }
}

/// A chunk begins at a multiple of the interval.
pub proof fn chunks_begin_at_multiples(time: i64, interval_ns: i64)
    requires
        interval_ns > 0,
    ensures
        crate::agent::write::chunk_start(time as int, interval_ns as int) % (interval_ns as int) == 0,
        crate::agent::write::chunk_start(0, interval_ns as int) == 0,
{
    let m = interval_ns as int;
    if time >= 0 {
        vstd::arithmetic::div_mod::lemma_mod_multiples_basic(time as int / m, m);
    } else {
        let q = (-time) / m;
        assert(-(q * m) == (-q) * m) by (nonlinear_arith);
        vstd::arithmetic::div_mod::lemma_mod_multiples_basic(-q, m);
    }
    assert(0int / m == 0) by (nonlinear_arith)
        requires
            m > 0,
    ;
}

/// Whether a row belongs to the chunk that begins at a time.
pub open spec fn is_in_chunk(row: chunk::RowModel, start: i64, interval_ns: i64) -> bool {
    crate::agent::write::chunk_start(row.time as int, interval_ns as int) as i64 == start
}

/// Whether some group is that of the chunk of a row.
pub open spec fn has_group(
    groups: Seq<(i64, Seq<chunk::RowModel>)>,
    row: chunk::RowModel,
    interval_ns: i64,
) -> bool {
    exists|g: int|
        0 <= g < groups.len() && is_in_chunk(row, (#[trigger] groups[g]).0, interval_ns)
}

/// The rows of the chunk that begins at a time, in their order.
pub open spec fn in_chunk(rows: Seq<chunk::RowModel>, start: i64, interval_ns: i64) -> Seq<
    chunk::RowModel,
> {
    rows.filter(|r: chunk::RowModel| is_in_chunk(r, start, interval_ns))
}

proof fn lemma_in_chunk_more(rows: Seq<chunk::RowModel>, start: i64, interval_ns: i64)
    requires
        rows.len() > 0,
    ensures
        is_in_chunk(rows.last(), start, interval_ns) ==> in_chunk(rows, start, interval_ns)
            == in_chunk(rows.drop_last(), start, interval_ns).push(rows.last()),
        !is_in_chunk(rows.last(), start, interval_ns) ==> in_chunk(rows, start, interval_ns)
            == in_chunk(rows.drop_last(), start, interval_ns),
{
    reveal(Seq::filter);
}

proof fn lemma_put_row(
    groups: Seq<(i64, Seq<chunk::RowModel>)>,
    start: i64,
    row: chunk::RowModel,
)
    requires
        forall|i: int, j: int|
            #![trigger groups[i], groups[j]]
            0 <= i < j < groups.len() ==> groups[i].0 < groups[j].0,
    ensures
        ({
            let after = crate::agent::write::put_row(groups, start, row);
            &&& exists|k: int| 0 <= k < after.len() && (#[trigger] after[k]).0 == start
            &&& forall|k: int|
                0 <= k < after.len() && (#[trigger] after[k]).0 != start ==> groups.contains(
                    after[k],
                )
            &&& forall|k: int|
                0 <= k < groups.len() && (#[trigger] groups[k]).0 != start ==> after.contains(
                    groups[k],
                )
            &&& forall|k: int|
                0 <= k < after.len() && (#[trigger] after[k]).0 == start ==> {
                    ||| after[k].1 == seq![row] && forall|m: int|
                        0 <= m < groups.len() ==> (#[trigger] groups[m]).0 != start
                    ||| exists|m: int|
                        0 <= m < groups.len() && (#[trigger] groups[m]).0 == start && after[k].1
                            == groups[m].1.push(row)
                }
        }),
    decreases groups.len(),
{
    let after = crate::agent::write::put_row(groups, start, row);
    if groups.len() == 0 || groups.last().0 < start {
        assert(after[groups.len() as int].0 == start);
        assert forall|k: int| 0 <= k < after.len() && (#[trigger] after[k]).0 != start implies
            groups.contains(after[k]) by {
            assert(groups[k] == after[k]);
        }
        assert forall|k: int| 0 <= k < groups.len() && (#[trigger] groups[k]).0 != start implies
            after.contains(groups[k]) by {
            assert(after[k] == groups[k]);
        }
        assert forall|m: int| 0 <= m < groups.len() implies (#[trigger] groups[m]).0 != start by {
            if m < groups.len() - 1 {
                assert(groups[m].0 < groups[groups.len() - 1].0);
            }
        }
        assert forall|k: int| 0 <= k < after.len() && (#[trigger] after[k]).0 == start implies {
            ||| after[k].1 == seq![row] && forall|m: int|
                0 <= m < groups.len() ==> (#[trigger] groups[m]).0 != start
            ||| exists|m: int|
                0 <= m < groups.len() && (#[trigger] groups[m]).0 == start && after[k].1
                    == groups[m].1.push(row)
        } by {
            if k < groups.len() {
                assert(groups[k] == after[k]);
            }
        }
    } else if groups.last().0 == start {
        let n = groups.len() - 1;
        assert(after[n].0 == start);
        assert forall|k: int| 0 <= k < after.len() && (#[trigger] after[k]).0 != start implies
            groups.contains(after[k]) by {
            assert(groups[k] == after[k]);
        }
        assert forall|k: int| 0 <= k < groups.len() && (#[trigger] groups[k]).0 != start implies
            after.contains(groups[k]) by {
            assert(after[k] == groups[k]);
        }
        assert forall|k: int| 0 <= k < after.len() && (#[trigger] after[k]).0 == start implies {
            ||| after[k].1 == seq![row] && forall|m: int|
                0 <= m < groups.len() ==> (#[trigger] groups[m]).0 != start
            ||| exists|m: int|
                0 <= m < groups.len() && (#[trigger] groups[m]).0 == start && after[k].1
                    == groups[m].1.push(row)
        } by {
            if k < n {
                assert(groups[k] == after[k]);
                assert(groups[k].0 < groups[n].0);
            } else {
                assert(groups[n].0 == start);
            }
        }
    } else {
        let front = groups.drop_last();
        let n = groups.len() - 1;
        let inner = crate::agent::write::put_row(front, start, row);
        assert forall|i: int, j: int|
            #![trigger front[i], front[j]]
            0 <= i < j < front.len() implies front[i].0 < front[j].0 by {
            assert(front[i] == groups[i] && front[j] == groups[j]);
        }
        lemma_put_row(front, start, row);
        let at = choose|k: int| 0 <= k < inner.len() && (#[trigger] inner[k]).0 == start;
        assert(after[at].0 == start);
        assert forall|k: int| 0 <= k < after.len() && (#[trigger] after[k]).0 != start implies
            groups.contains(after[k]) by {
            if k < inner.len() {
                assert(inner[k] == after[k]);
                let m = choose|m: int| 0 <= m < front.len() && front[m] == inner[k];
                assert(groups[m] == after[k]);
            } else {
                assert(groups[n] == after[k]);
            }
        }
        assert forall|k: int| 0 <= k < groups.len() && (#[trigger] groups[k]).0 != start implies
            after.contains(groups[k]) by {
            if k < n {
                assert(front[k] == groups[k]);
                let m = choose|m: int| 0 <= m < inner.len() && inner[m] == front[k];
                assert(after[m] == groups[k]);
            } else {
                assert(after[inner.len() as int] == groups[k]);
            }
        }
        assert forall|k: int| 0 <= k < after.len() && (#[trigger] after[k]).0 == start implies {
            ||| after[k].1 == seq![row] && forall|m: int|
                0 <= m < groups.len() ==> (#[trigger] groups[m]).0 != start
            ||| exists|m: int|
                0 <= m < groups.len() && (#[trigger] groups[m]).0 == start && after[k].1
                    == groups[m].1.push(row)
        } by {
            assert(inner[k] == after[k]);
            if exists|m: int|
                0 <= m < front.len() && (#[trigger] front[m]).0 == start && inner[k].1
                    == front[m].1.push(row) {
                let m = choose|m: int|
                    0 <= m < front.len() && (#[trigger] front[m]).0 == start && inner[k].1
                        == front[m].1.push(row);
                assert(groups[m].0 == start);
            } else {
                assert forall|m: int| 0 <= m < groups.len() implies (#[trigger] groups[m]).0
                    != start by {
                    if m < n {
                        assert(front[m] == groups[m]);
                    }
                }
            }
        }
    }
}

/// The rows of a table are split by chunk: there is one group for each chunk that has a row
/// and no other, and it holds the rows of its chunk, all of them, in their order.
pub proof fn rows_are_split_by_chunk(rows: Seq<chunk::RowModel>, interval_ns: i64)
    ensures
        ({
            let groups = crate::agent::write::by_chunk(rows, interval_ns);
            &&& forall|g: int|
                0 <= g < groups.len() ==> (#[trigger] groups[g]).1 == in_chunk(
                    rows,
                    groups[g].0,
                    interval_ns,
                )
            &&& forall|r: int|
                0 <= r < rows.len() ==> has_group(groups, #[trigger] rows[r], interval_ns)
        }),
    decreases rows.len(),
{
    let groups = crate::agent::write::by_chunk(rows, interval_ns);
    if rows.len() > 0 {
        let front = rows.drop_last();
        let before = crate::agent::write::by_chunk(front, interval_ns);
        let row = rows.last();
        let start = crate::agent::write::chunk_start(row.time as int, interval_ns as int) as i64;
        rows_are_split_by_chunk(front, interval_ns);
        crate::agent::write::rows_stand_in_their_chunk(front, interval_ns);
        lemma_put_row(before, start, row);
        assert forall|g: int| 0 <= g < groups.len() implies (#[trigger] groups[g]).1 == in_chunk(
            rows,
            groups[g].0,
            interval_ns,
        ) by {
            lemma_in_chunk_more(rows, groups[g].0, interval_ns);
            if groups[g].0 == start {
                if exists|m: int|
                    0 <= m < before.len() && (#[trigger] before[m]).0 == start && groups[g].1
                        == before[m].1.push(row) {
                    let m = choose|m: int|
                        0 <= m < before.len() && (#[trigger] before[m]).0 == start && groups[g].1
                            == before[m].1.push(row);
                } else {
                    assert(in_chunk(front, start, interval_ns).len() == 0) by {
                        lemma_no_row_in_chunk(front, before, start, interval_ns);
                    }
                    assert(in_chunk(rows, start, interval_ns) =~= seq![row]);
                }
            } else {
                assert(before.contains(groups[g]));
                let m = choose|m: int| 0 <= m < before.len() && before[m] == groups[g];
            }
        }
        assert forall|r: int| 0 <= r < rows.len() implies has_group(groups, #[trigger] rows[r], interval_ns) by {
            let at = choose|k: int| 0 <= k < groups.len() && (#[trigger] groups[k]).0 == start;
            if r < front.len() {
                assert(front[r] == rows[r]);
                let m = choose|m: int|
                    0 <= m < before.len() && is_in_chunk(
                        front[r],
                        (#[trigger] before[m]).0,
                        interval_ns,
                    );
                if before[m].0 == start {
                    assert(is_in_chunk(rows[r], groups[at].0, interval_ns));
                } else {
                    assert(groups.contains(before[m]));
                    let g = choose|g: int| 0 <= g < groups.len() && groups[g] == before[m];
                    assert(is_in_chunk(rows[r], groups[g].0, interval_ns));
                }
            } else {
                assert(is_in_chunk(rows[r], groups[at].0, interval_ns));
            }
        }
    }
}

proof fn lemma_no_row_in_chunk(
    rows: Seq<chunk::RowModel>,
    groups: Seq<(i64, Seq<chunk::RowModel>)>,
    start: i64,
    interval_ns: i64,
)
    requires
        forall|r: int|
            0 <= r < rows.len() ==> has_group(groups, #[trigger] rows[r], interval_ns),
        forall|g: int| 0 <= g < groups.len() ==> (#[trigger] groups[g]).0 != start,
    ensures
        in_chunk(rows, start, interval_ns).len() == 0,
    decreases rows.len(),
{
    reveal(Seq::filter);
    if rows.len() > 0 {
        let front = rows.drop_last();
        assert forall|r: int| 0 <= r < front.len() implies has_group(groups, #[trigger] front[r], interval_ns) by {
            assert(front[r] == rows[r]);
        }
        lemma_no_row_in_chunk(front, groups, start, interval_ns);
        lemma_in_chunk_more(rows, start, interval_ns);
        assert(rows[rows.len() - 1] == rows.last());
        let g = choose|g: int|
            0 <= g < groups.len() && is_in_chunk(
                rows[rows.len() - 1],
                (#[trigger] groups[g]).0,
                interval_ns,
            );
        assert(groups[g].0 != start);
    }
}

/// Whether a batch holds the points of its table that belong to its chunk.
pub open spec fn batch_right(
    lines: Seq<Option<PointModel>>,
    db: Seq<char>,
    interval_ns: i64,
    now: i64,
    batch: wal::BatchModel,
) -> bool {
    let points = points_of(lines, batch.table);
    &&& batch.db == db
    &&& batch.rows.len() > 0
    &&& batch.rows == in_chunk(rows_of(points, now), batch.chunk_time, interval_ns)
    &&& are_first_tags(points, batch.tag_keys)
    &&& are_first_fields(points, batch.field_names)
}

/// Whether some batch holds the rows of a chunk of a table.
pub open spec fn has_batch(
    batches: Seq<wal::BatchModel>,
    table: Seq<char>,
    row: chunk::RowModel,
    interval_ns: i64,
) -> bool {
    exists|b: int|
        0 <= b < batches.len() && (#[trigger] batches[b]).table == table && is_in_chunk(
            row,
            batches[b].chunk_time,
            interval_ns,
        )
}

proof fn lemma_table_batches(db: Seq<char>, g: TableRowsModel, interval_ns: i64)
    ensures
        ({
            let batches = crate::agent::write::table_batches(db, g, interval_ns);
            &&& forall|b: int|
                0 <= b < batches.len() ==> {
                    &&& (#[trigger] batches[b]).db == db
                    &&& batches[b].table == g.table
                    &&& batches[b].tag_keys == g.tag_keys
                    &&& batches[b].field_names == g.field_names
                    &&& batches[b].rows.len() > 0
                    &&& batches[b].rows == in_chunk(g.rows, batches[b].chunk_time, interval_ns)
                }
            &&& forall|a: int, b: int|
                #![trigger batches[a], batches[b]]
                0 <= a < b < batches.len() ==> batches[a].chunk_time < batches[b].chunk_time
            &&& forall|r: int|
                0 <= r < g.rows.len() ==> has_batch(
                    batches,
                    g.table,
                    #[trigger] g.rows[r],
                    interval_ns,
                )
        }),
{
    let batches = crate::agent::write::table_batches(db, g, interval_ns);
    let groups = crate::agent::write::by_chunk(g.rows, interval_ns);
    rows_are_split_by_chunk(g.rows, interval_ns);
    crate::agent::write::rows_stand_in_their_chunk(g.rows, interval_ns);
    assert forall|b: int| 0 <= b < batches.len() implies {
        &&& (#[trigger] batches[b]).db == db
        &&& batches[b].table == g.table
        &&& batches[b].tag_keys == g.tag_keys
        &&& batches[b].field_names == g.field_names
        &&& batches[b].rows.len() > 0
        &&& batches[b].rows == in_chunk(g.rows, batches[b].chunk_time, interval_ns)
    } by {
        assert(batches[b].rows == groups[b].1);
    }
    assert forall|a: int, b: int|
        #![trigger batches[a], batches[b]]
        0 <= a < b < batches.len() implies batches[a].chunk_time < batches[b].chunk_time by {
        assert(groups[a].0 < groups[b].0);
    }
    assert forall|r: int| 0 <= r < g.rows.len() implies has_batch(
        batches,
        g.table,
        #[trigger] g.rows[r],
        interval_ns,
    ) by {
        let k = choose|k: int|
            0 <= k < groups.len() && is_in_chunk(
                g.rows[r],
                (#[trigger] groups[k]).0,
                interval_ns,
            );
        assert(batches[k].chunk_time == groups[k].0);
    }
}

/// Whether a batch comes from a group.
pub open spec fn is_of_group(
    batch: wal::BatchModel,
    db: Seq<char>,
    g: TableRowsModel,
    interval_ns: i64,
) -> bool {
    &&& batch.db == db
    &&& batch.table == g.table
    &&& batch.tag_keys == g.tag_keys
    &&& batch.field_names == g.field_names
    &&& batch.rows.len() > 0
    &&& batch.rows == in_chunk(g.rows, batch.chunk_time, interval_ns)
}

pub open spec fn is_of_some_group(
    batch: wal::BatchModel,
    db: Seq<char>,
    groups: Seq<TableRowsModel>,
    interval_ns: i64,
) -> bool {
    exists|g: int|
        0 <= g < groups.len() && is_of_group(batch, db, #[trigger] groups[g], interval_ns)
}

proof fn lemma_all_batches(db: Seq<char>, groups: Seq<TableRowsModel>, interval_ns: i64)
    requires
        forall|g: int, h: int|
            #![trigger groups[g], groups[h]]
            0 <= g < h < groups.len() ==> groups[g].table != groups[h].table,
    ensures
        ({
            let batches = crate::agent::write::all_batches(db, groups, interval_ns);
            &&& forall|b: int|
                0 <= b < batches.len() ==> is_of_some_group(
                    #[trigger] batches[b],
                    db,
                    groups,
                    interval_ns,
                )
            &&& forall|a: int, b: int|
                #![trigger batches[a], batches[b]]
                0 <= a < b < batches.len() ==> batches[a].table != batches[b].table
                    || batches[a].chunk_time != batches[b].chunk_time
            &&& forall|g: int, r: int|
                #![trigger groups[g].rows[r]]
                0 <= g < groups.len() && 0 <= r < groups[g].rows.len() ==> has_batch(
                    batches,
                    groups[g].table,
                    groups[g].rows[r],
                    interval_ns,
                )
        }),
    decreases groups.len(),
{
    let batches = crate::agent::write::all_batches(db, groups, interval_ns);
    if groups.len() > 0 {
        let front = groups.drop_last();
        let last = groups.last();
        let before = crate::agent::write::all_batches(db, front, interval_ns);
        let own = crate::agent::write::table_batches(db, last, interval_ns);
        assert forall|g: int, h: int|
            #![trigger front[g], front[h]]
            0 <= g < h < front.len() implies front[g].table != front[h].table by {
            assert(front[g] == groups[g] && front[h] == groups[h]);
        }
        lemma_all_batches(db, front, interval_ns);
        lemma_table_batches(db, last, interval_ns);
        assert forall|b: int| 0 <= b < batches.len() implies is_of_some_group(
            #[trigger] batches[b],
            db,
            groups,
            interval_ns,
        ) by {
            if b < before.len() {
                assert(before[b] == batches[b]);
                let g = choose|g: int|
                    0 <= g < front.len() && is_of_group(
                        before[b],
                        db,
                        #[trigger] front[g],
                        interval_ns,
                    );
                assert(groups[g] == front[g]);
            } else {
                assert(own[b - before.len()] == batches[b]);
                assert(is_of_group(batches[b], db, groups[groups.len() - 1], interval_ns));
            }
        }
        assert forall|a: int, b: int|
            #![trigger batches[a], batches[b]]
            0 <= a < b < batches.len() implies batches[a].table != batches[b].table
            || batches[a].chunk_time != batches[b].chunk_time by {
            if b < before.len() {
                assert(before[a] == batches[a] && before[b] == batches[b]);
            } else if a >= before.len() {
                assert(own[a - before.len()] == batches[a] && own[b - before.len()] == batches[b]);
            } else {
                assert(before[a] == batches[a] && own[b - before.len()] == batches[b]);
                let g = choose|g: int|
                    0 <= g < front.len() && is_of_group(
                        before[a],
                        db,
                        #[trigger] front[g],
                        interval_ns,
                    );
                assert(groups[g] == front[g]);
                assert(groups[g].table != groups[groups.len() - 1].table);
            }
        }
        assert forall|g: int, r: int|
            #![trigger groups[g].rows[r]]
            0 <= g < groups.len() && 0 <= r < groups[g].rows.len() implies has_batch(
            batches,
            groups[g].table,
            groups[g].rows[r],
            interval_ns,
        ) by {
            if g < front.len() {
                assert(front[g].rows[r] == groups[g].rows[r]);
                let b = choose|b: int|
                    0 <= b < before.len() && (#[trigger] before[b]).table == front[g].table
                        && is_in_chunk(front[g].rows[r], before[b].chunk_time, interval_ns);
                assert(batches[b] == before[b]);
            } else {
                assert(last.rows[r] == groups[g].rows[r]);
                let b = choose|b: int|
                    0 <= b < own.len() && (#[trigger] own[b]).table == last.table && is_in_chunk(
                        last.rows[r],
                        own[b].chunk_time,
                        interval_ns,
                    );
                assert(batches[before.len() + b] == own[b]);
            }
        }
    }
}

/// The batches of a write: one for each table and chunk that has a point, and no other. Each
/// holds the rows of the points of its table that belong to its chunk, all of them, in their
/// order.
pub proof fn batches_split_the_points(
    lines: Seq<Option<PointModel>>,
    db: Seq<char>,
    interval_ns: i64,
    now: i64,
)
    ensures
        ({
            let batches = crate::agent::write::batches_of(lines, db, interval_ns, now);
            &&& forall|b: int|
                0 <= b < batches.len() ==> batch_right(
                    lines,
                    db,
                    interval_ns,
                    now,
                    #[trigger] batches[b],
                )
            &&& forall|a: int, b: int|
                #![trigger batches[a], batches[b]]
                0 <= a < b < batches.len() ==> batches[a].table != batches[b].table
                    || batches[a].chunk_time != batches[b].chunk_time
            &&& forall|l: int|
                0 <= l < lines.len() && (#[trigger] lines[l]) is Some ==> has_batch(
                    batches,
                    lines[l]->0.measurement,
                    crate::agent::write::point_row(lines[l]->0, now),
                    interval_ns,
                )
        }),
{
    let groups = crate::agent::write::grouped(lines, now);
    let batches = crate::agent::write::batches_of(lines, db, interval_ns, now);
    points_are_grouped_by_table(lines, now);
    lemma_all_batches(db, groups, interval_ns);
    assert forall|b: int| 0 <= b < batches.len() implies batch_right(
        lines,
        db,
        interval_ns,
        now,
        #[trigger] batches[b],
    ) by {
        let g = choose|g: int|
            0 <= g < groups.len() && is_of_group(batches[b], db, #[trigger] groups[g], interval_ns);
        assert(group_right(lines, now, groups[g]));
    }
    assert forall|l: int| 0 <= l < lines.len() && (#[trigger] lines[l]) is Some implies has_batch(
        batches,
        lines[l]->0.measurement,
        crate::agent::write::point_row(lines[l]->0, now),
        interval_ns,
    ) by {
        let p = lines[l]->0;
        let g = choose|g: int|
            0 <= g < groups.len() && (#[trigger] groups[g]).table == p.measurement;
        assert(group_right(lines, now, groups[g]));
        lemma_line_is_a_point(lines, l);
        let points = points_of(lines, p.measurement);
        let k = choose|k: int| 0 <= k < points.len() && points[k] == p;
        assert(groups[g].rows[k] == crate::agent::write::point_row(p, now));
    }
}

proof fn lemma_line_is_a_point(lines: Seq<Option<PointModel>>, l: int)
    requires
        0 <= l < lines.len(),
        lines[l] is Some,
    ensures
        points_of(lines, lines[l]->0.measurement).contains(lines[l]->0),
    decreases lines.len(),
{
    let table = lines[l]->0.measurement;
    let points = points_of(lines, table);
    let front = lines.drop_last();
    lemma_points_of_more(lines, table);
    if l < front.len() {
        assert(front[l] == lines[l]);
        lemma_line_is_a_point(front, l);
        let before = points_of(front, table);
        let k = choose|k: int| 0 <= k < before.len() && before[k] == lines[l]->0;
        assert(points[k] == lines[l]->0);
    } else {
        assert(points[points.len() - 1] == lines[l]->0);
    }
}

} // verus!
