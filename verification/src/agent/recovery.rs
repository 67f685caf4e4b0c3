//! What the log is for: the rows in memory survive a crash.

use crate::agent::buffer;
use crate::agent::buffer::chunk;
use crate::agent::flush::scheduler;
use crate::agent::wal;
use crate::agent::wal::wal_core;
use vstd::prelude::*;

verus! {

/// Whether an operation holds a row of a chunk of a table.
pub open spec fn op_holds(
    op: wal::OpModel,
    db: Seq<char>,
    table: Seq<char>,
    chunk_time: i64,
    row: chunk::RowModel,
) -> bool {
    op matches wal::OpModel::Write(b) && b.db == db && b.table == table && b.chunk_time
        == chunk_time && b.rows.contains(row)
}

/// Whether a log file holds a row of a chunk of a table.
pub open spec fn file_holds(
    ops: Seq<wal::OpModel>,
    db: Seq<char>,
    table: Seq<char>,
    chunk_time: i64,
    row: chunk::RowModel,
) -> bool {
    exists|i: int| 0 <= i < ops.len() && #[trigger] op_holds(ops[i], db, table, chunk_time, row)
}

/// Whether a log file holds a row of a chunk; it is not below the first file that the chunk
/// needs.
pub open spec fn kept(
    files: Seq<(u64, Seq<wal::OpModel>)>,
    db: Seq<char>,
    table: Seq<char>,
    c: chunk::ChunkModel,
    row: chunk::RowModel,
) -> bool {
    exists|f: int|
        0 <= f < files.len() && c.min_wal_seq <= (#[trigger] files[f]).0 && file_holds(
            files[f].1,
            db,
            table,
            c.chunk_time,
            row,
        )
}

/// Whether every row of a table in memory is in a log file above the flushed number: the
/// files that its chunk needs all lie above it.
pub open spec fn table_recoverable(
    t: chunk::TableModel,
    db: Seq<char>,
    table: Seq<char>,
    files: Seq<(u64, Seq<wal::OpModel>)>,
    flushed: u64,
) -> bool {
    &&& forall|c: int|
        0 <= c < t.chunks.len() ==> flushed < (#[trigger] t.chunks[c]).min_wal_seq
    &&& forall|c: int, r: int|
        0 <= c < t.chunks.len() && 0 <= r < t.chunks[c].rows.len() ==> kept(
            files,
            db,
            table,
            t.chunks[c],
            #[trigger] t.chunks[c].rows[r],
        )
}

/// Whether every row in memory is in a log file above the flushed number.
pub open spec fn recoverable(
    dbs: Seq<buffer::DatabaseModel>,
    files: Seq<(u64, Seq<wal::OpModel>)>,
    flushed: u64,
) -> bool {
    forall|db: Seq<char>, table: Seq<char>|
        #[trigger] buffer::table_of(dbs, db, table) is Some ==> table_recoverable(
            buffer::table_of(dbs, db, table)->0,
            db,
            table,
            files,
            flushed,
        )
}

/// Whether a row of a chunk of a table is in memory.
pub open spec fn in_memory(
    dbs: Seq<buffer::DatabaseModel>,
    db: Seq<char>,
    table: Seq<char>,
    chunk_time: i64,
    row: chunk::RowModel,
) -> bool {
    buffer::table_of(dbs, db, table) matches Some(t) && row_in(t, chunk_time, row)
}

pub open spec fn row_in(t: chunk::TableModel, chunk_time: i64, row: chunk::RowModel) -> bool {
    exists|c: int|
        0 <= c < t.chunks.len() && (#[trigger] t.chunks[c]).chunk_time == chunk_time
            && t.chunks[c].rows.contains(row)
}

/// Whether a log file lies above a number.
pub open spec fn is_above(through: u64) -> spec_fn((u64, Seq<wal::OpModel>)) -> bool {
    |f: (u64, Seq<wal::OpModel>)| f.0 > through
}

/// The log files above a number.
pub open spec fn files_above(
    files: Seq<(u64, Seq<wal::OpModel>)>,
    through: u64,
) -> Seq<(u64, Seq<wal::OpModel>)> {
    files.filter(is_above(through))
}

proof fn lemma_with_rows(c: chunk::ChunkModel, rows: Seq<chunk::RowModel>, wal_seq: u64)
    ensures
        wal_core::with_rows(c, rows, wal_seq).rows == c.rows + rows,
        wal_core::with_rows(c, rows, wal_seq).chunk_time == c.chunk_time,
        wal_core::with_rows(c, rows, wal_seq).min_wal_seq == (if rows.len() > 0 {
            chunk::min_u64(c.min_wal_seq, wal_seq)
        } else {
            c.min_wal_seq
        }),
    decreases rows.len(),
{
    if rows.len() > 0 {
        lemma_with_rows(c, rows.drop_last(), wal_seq);
        assert(c.rows + rows =~= (c.rows + rows.drop_last()).push(rows.last()));
    } else {
        assert(c.rows + rows =~= c.rows);
    }
}

proof fn lemma_kept_by_more_files(
    files: Seq<(u64, Seq<wal::OpModel>)>,
    more: Seq<(u64, Seq<wal::OpModel>)>,
    db: Seq<char>,
    table: Seq<char>,
    c: chunk::ChunkModel,
    d: chunk::ChunkModel,
    row: chunk::RowModel,
)
    requires
        kept(files, db, table, c, row),
        files.is_prefix_of(more),
        d.chunk_time == c.chunk_time,
        d.min_wal_seq <= c.min_wal_seq,
    ensures
        kept(more, db, table, d, row),
{
    let f = choose|f: int|
        0 <= f < files.len() && c.min_wal_seq <= (#[trigger] files[f]).0 && file_holds(
            files[f].1,
            db,
            table,
            c.chunk_time,
            row,
        );
    assert(more[f] == files[f]);
}

/// A batch adds its rows to their chunk and takes no row away.
proof fn lemma_applied_rows(
    t: chunk::TableModel,
    batch: wal::BatchModel,
    wal_seq: u64,
    chunk_time: i64,
    row: chunk::RowModel,
)
    ensures
        row_in(t, chunk_time, row) ==> row_in(
            wal_core::applied(t, batch, wal_seq),
            chunk_time,
            row,
        ),
        chunk_time == batch.chunk_time && batch.rows.contains(row) ==> row_in(
            wal_core::applied(t, batch, wal_seq),
            chunk_time,
            row,
        ),
{
    let after = wal_core::applied(t, batch, wal_seq);
    let chunks = chunk::with_chunk(t.chunks, batch.chunk_time);
    let p = chunk::chunk_position(t.chunks, batch.chunk_time);
    chunk::lemma_chunk_position(t.chunks, batch.chunk_time);
    lemma_with_rows(chunks[p], batch.rows, wal_seq);
    assert(after.chunks[p].rows == chunks[p].rows + batch.rows);
    assert(after.chunks[p].chunk_time == batch.chunk_time);
    if row_in(t, chunk_time, row) {
        let c = choose|c: int|
            0 <= c < t.chunks.len() && (#[trigger] t.chunks[c]).chunk_time == chunk_time
                && t.chunks[c].rows.contains(row);
        if c == p {
            let k = choose|k: int| 0 <= k < t.chunks[c].rows.len() && t.chunks[c].rows[k] == row;
            assert(after.chunks[p].rows[k] == row);
        } else {
            assert(after.chunks[c] == t.chunks[c]);
        }
    }
    if chunk_time == batch.chunk_time && batch.rows.contains(row) {
        let k = choose|k: int| 0 <= k < batch.rows.len() && batch.rows[k] == row;
        assert(after.chunks[p].rows[chunks[p].rows.len() + k] == row);
    }
}

/// The operations of a log file add their rows to memory and take no row away.
proof fn lemma_ops_rows(
    dbs: Seq<buffer::DatabaseModel>,
    ops: Seq<wal::OpModel>,
    wal_seq: u64,
    db: Seq<char>,
    table: Seq<char>,
    chunk_time: i64,
    row: chunk::RowModel,
)
    ensures
        in_memory(dbs, db, table, chunk_time, row) || file_holds(ops, db, table, chunk_time, row)
            ==> in_memory(
            wal_core::after_ops(dbs, ops, wal_seq),
            db,
            table,
            chunk_time,
            row,
        ),
    decreases ops.len(),
{
    if ops.len() > 0 {
        let front = ops.drop_last();
        let before = wal_core::after_ops(dbs, front, wal_seq);
        lemma_ops_rows(dbs, front, wal_seq, db, table, chunk_time, row);
        if file_holds(ops, db, table, chunk_time, row) {
            let i = choose|i: int|
                0 <= i < ops.len() && #[trigger] op_holds(ops[i], db, table, chunk_time, row);
            if i < front.len() {
                assert(op_holds(front[i], db, table, chunk_time, row));
            }
        }
        match ops.last() {
            wal::OpModel::Write(batch) => {
                let t = match buffer::table_of(before, batch.db, batch.table) {
                    Some(t) => t,
                    None => chunk::new_table(),
                };
                buffer::put_then_get(
                    before,
                    batch.db,
                    batch.table,
                    wal_core::applied(t, batch, wal_seq),
                    db,
                    table,
                );
                lemma_applied_rows(t, batch, wal_seq, chunk_time, row);
            },
            wal::OpModel::Noop => {},
        }
    }
}

/// The log files that are replayed add their rows to memory.
proof fn lemma_files_rows(
    files: Seq<(u64, Seq<wal::OpModel>)>,
    f: int,
    db: Seq<char>,
    table: Seq<char>,
    chunk_time: i64,
    row: chunk::RowModel,
)
    requires
        0 <= f < files.len(),
        file_holds(files[f].1, db, table, chunk_time, row),
    ensures
        in_memory(wal_core::after_files(Seq::empty(), files), db, table, chunk_time, row),
    decreases files.len(),
{
    let before = wal_core::after_files(Seq::empty(), files.drop_last());
    if f < files.len() - 1 {
        assert(files.drop_last()[f] == files[f]);
        lemma_files_rows(files.drop_last(), f, db, table, chunk_time, row);
    }
    lemma_ops_rows(before, files.last().1, files.last().0, db, table, chunk_time, row);
}

proof fn lemma_batch_keeps(
    t: chunk::TableModel,
    batch: wal::BatchModel,
    wal_seq: u64,
    files: Seq<(u64, Seq<wal::OpModel>)>,
    more: Seq<(u64, Seq<wal::OpModel>)>,
    flushed: u64,
)
    requires
        table_recoverable(t, batch.db, batch.table, files, flushed),
        files.is_prefix_of(more),
        wal_seq > flushed,
        more.len() > 0,
        more.last().0 == wal_seq,
        forall|row: chunk::RowModel| #[trigger]
            batch.rows.contains(row) ==> file_holds(
                more.last().1,
                batch.db,
                batch.table,
                batch.chunk_time,
                row,
            ),
    ensures
        table_recoverable(
            wal_core::applied(t, batch, wal_seq),
            batch.db,
            batch.table,
            more,
            flushed,
        ),
{
    let after = wal_core::applied(t, batch, wal_seq);
    let chunks = chunk::with_chunk(t.chunks, batch.chunk_time);
    let p = chunk::chunk_position(t.chunks, batch.chunk_time);
    chunk::lemma_chunk_position(t.chunks, batch.chunk_time);
    lemma_with_rows(chunks[p], batch.rows, wal_seq);
    let at = after.chunks[p];
    assert(at.rows == chunks[p].rows + batch.rows);
    assert forall|c: int| 0 <= c < after.chunks.len() implies flushed < (
    #[trigger] after.chunks[c]).min_wal_seq by {
        if c != p || p < t.chunks.len() {
            assert(flushed < t.chunks[c].min_wal_seq);
        }
    }
    assert forall|c: int, r: int|
        0 <= c < after.chunks.len() && 0 <= r < after.chunks[c].rows.len() implies kept(
        more,
        batch.db,
        batch.table,
        after.chunks[c],
        #[trigger] after.chunks[c].rows[r],
    ) by {
        let row = after.chunks[c].rows[r];
        if c != p {
            assert(after.chunks[c] == t.chunks[c]);
            assert(t.chunks[c].rows[r] == row);
            lemma_kept_by_more_files(
                files,
                more,
                batch.db,
                batch.table,
                t.chunks[c],
                after.chunks[c],
                row,
            );
        } else if r < chunks[p].rows.len() {
            assert(chunks[p] == t.chunks[p]);
            assert(t.chunks[p].rows[r] == row);
            lemma_kept_by_more_files(
                files,
                more,
                batch.db,
                batch.table,
                t.chunks[p],
                at,
                row,
            );
        } else {
            let k = r - chunks[p].rows.len();
            assert(batch.rows[k] == row);
            assert(batch.rows.contains(row));
            assert(more[more.len() - 1].0 >= at.min_wal_seq);
        }
    }
}

proof fn lemma_more_files(
    dbs: Seq<buffer::DatabaseModel>,
    files: Seq<(u64, Seq<wal::OpModel>)>,
    more: Seq<(u64, Seq<wal::OpModel>)>,
    flushed: u64,
)
    requires
        recoverable(dbs, files, flushed),
        files.is_prefix_of(more),
    ensures
        recoverable(dbs, more, flushed),
{
    assert forall|db: Seq<char>, table: Seq<char>|
        #[trigger] buffer::table_of(dbs, db, table) is Some implies table_recoverable(
        buffer::table_of(dbs, db, table)->0,
        db,
        table,
        more,
        flushed,
    ) by {
        let t = buffer::table_of(dbs, db, table)->0;
        assert forall|c: int, r: int|
            0 <= c < t.chunks.len() && 0 <= r < t.chunks[c].rows.len() implies kept(
            more,
            db,
            table,
            t.chunks[c],
            #[trigger] t.chunks[c].rows[r],
        ) by {
            lemma_kept_by_more_files(
                files,
                more,
                db,
                table,
                t.chunks[c],
                t.chunks[c],
                t.chunks[c].rows[r],
            );
        }
    }
}

proof fn lemma_ops_keep(
    dbs: Seq<buffer::DatabaseModel>,
    ops: Seq<wal::OpModel>,
    n: int,
    files: Seq<(u64, Seq<wal::OpModel>)>,
    wal_seq: u64,
    flushed: u64,
)
    requires
        0 <= n <= ops.len(),
        recoverable(dbs, files.push((wal_seq, ops)), flushed),
        wal_seq > flushed,
    ensures
        recoverable(
            wal_core::after_ops(dbs, ops.take(n), wal_seq),
            files.push((wal_seq, ops)),
            flushed,
        ),
    decreases n,
{
    let more = files.push((wal_seq, ops));
    if n == 0 {
        assert(ops.take(0).len() == 0);
    } else {
        lemma_ops_keep(dbs, ops, n - 1, files, wal_seq, flushed);
        assert(ops.take(n).drop_last() =~= ops.take(n - 1));
        let before = wal_core::after_ops(dbs, ops.take(n - 1), wal_seq);
        let after = wal_core::after_ops(dbs, ops.take(n), wal_seq);
        match ops[n - 1] {
            wal::OpModel::Write(batch) => {
                let t = match buffer::table_of(before, batch.db, batch.table) {
                    Some(t) => t,
                    None => chunk::new_table(),
                };
                assert forall|row: chunk::RowModel| #[trigger]
                    batch.rows.contains(row) implies file_holds(
                    more.last().1,
                    batch.db,
                    batch.table,
                    batch.chunk_time,
                    row,
                ) by {
                    assert(op_holds(ops[n - 1], batch.db, batch.table, batch.chunk_time, row));
                }
                lemma_batch_keeps(t, batch, wal_seq, more, more, flushed);
                assert forall|db: Seq<char>, table: Seq<char>|
                    #[trigger] buffer::table_of(after, db, table) is Some implies table_recoverable(
                    buffer::table_of(after, db, table)->0,
                    db,
                    table,
                    more,
                    flushed,
                ) by {
                    buffer::put_then_get(
                        before,
                        batch.db,
                        batch.table,
                        wal_core::applied(t, batch, wal_seq),
                        db,
                        table,
                    );
                }
            },
            wal::OpModel::Noop => {},
        }
    }
}

/// Applying a log file that was written keeps every row in memory recoverable, and makes
/// its own rows recoverable.
pub proof fn write_is_recoverable(
    dbs: Seq<buffer::DatabaseModel>,
    files: Seq<(u64, Seq<wal::OpModel>)>,
    flushed: u64,
    seq: u64,
    ops: Seq<wal::OpModel>,
)
    requires
        recoverable(dbs, files, flushed),
        seq > flushed,
    ensures
        recoverable(wal_core::after_ops(dbs, ops, seq), files.push((seq, ops)), flushed),
{
    lemma_more_files(dbs, files, files.push((seq, ops)), flushed);
    lemma_ops_keep(dbs, ops, ops.len() as int, files, seq, flushed);
    assert(ops.take(ops.len() as int) =~= ops);
}

/// Handing chunks off, and removing the log files up to the number that is safe then, keeps
/// every row that stays in memory recoverable.
pub proof fn hand_off_is_recoverable(
    dbs: Seq<buffer::DatabaseModel>,
    files: Seq<(u64, Seq<wal::OpModel>)>,
    flushed: u64,
    db: Seq<char>,
    table: Seq<char>,
    times: Seq<i64>,
    current_seq: u64,
)
    requires
        recoverable(dbs, files, flushed),
    ensures
        ({
            let after = scheduler::without_chunks(dbs, db, table, times);
            let through = scheduler::safe_seq(after, current_seq);
            recoverable(after, files_above(files, through), through)
        }),
{
    let after = scheduler::without_chunks(dbs, db, table, times);
    let through = scheduler::safe_seq(after, current_seq);
    let left = files_above(files, through);
    scheduler::hand_off_takes_only_the_flushed_chunks(dbs, db, table, times, db, table);
    assert forall|other_db: Seq<char>, other: Seq<char>|
        #[trigger] buffer::table_of(after, other_db, other) is Some implies table_recoverable(
        buffer::table_of(after, other_db, other)->0,
        other_db,
        other,
        left,
        through,
    ) by {
        scheduler::hand_off_takes_only_the_flushed_chunks(dbs, db, table, times, other_db, other);
        let u = buffer::table_of(after, other_db, other)->0;
        assert(buffer::table_of(dbs, other_db, other) is Some);
        let t = buffer::table_of(dbs, other_db, other)->0;
        assert(table_recoverable(t, other_db, other, files, flushed));
        assert forall|c: int| 0 <= c < u.chunks.len() implies through < (
        #[trigger] u.chunks[c]).min_wal_seq by {
            assert(u.chunks.contains(u.chunks[c]));
            assert(t.chunks.contains(u.chunks[c]));
            let k = choose|k: int| 0 <= k < t.chunks.len() && t.chunks[k] == u.chunks[c];
            assert(flushed < t.chunks[k].min_wal_seq);
            let i = buffer::db_position(after, other_db);
            let j = buffer::table_position(after[i].tables, other);
            buffer::lemma_db_position(after, other_db);
            buffer::lemma_table_position(after[i].tables, other);
            scheduler::safe_seq_keeps_needed_files(after, current_seq, i, j, c);
        }
        assert forall|c: int, r: int|
            0 <= c < u.chunks.len() && 0 <= r < u.chunks[c].rows.len() implies kept(
            left,
            other_db,
            other,
            u.chunks[c],
            #[trigger] u.chunks[c].rows[r],
        ) by {
            let row = u.chunks[c].rows[r];
            assert(u.chunks.contains(u.chunks[c]));
            assert(t.chunks.contains(u.chunks[c]));
            let k = choose|k: int| 0 <= k < t.chunks.len() && t.chunks[k] == u.chunks[c];
            assert(t.chunks[k].rows[r] == row);
            assert(kept(files, other_db, other, t.chunks[k], row));
            let f = choose|f: int|
                0 <= f < files.len() && t.chunks[k].min_wal_seq <= (#[trigger] files[f]).0
                    && file_holds(files[f].1, other_db, other, t.chunks[k].chunk_time, row);
            assert(through < u.chunks[c].min_wal_seq);
            files.lemma_filter_contains(is_above(through), f);
            let g = choose|g: int| 0 <= g < left.len() && left[g] == files[f];
            assert(left[g].0 >= u.chunks[c].min_wal_seq);
        }
    }
}

proof fn lemma_replayed(files: Seq<(u64, Seq<wal::OpModel>)>, flushed: u64)
    requires
        forall|f: int| 0 <= f < files.len() ==> (#[trigger] files[f]).0 > flushed,
    ensures
        recoverable(wal_core::after_files(Seq::empty(), files), files, flushed),
    decreases files.len(),
{
    if files.len() > 0 {
        let front = files.drop_last();
        assert forall|f: int| 0 <= f < front.len() implies (#[trigger] front[f]).0 > flushed by {
            assert(front[f] == files[f]);
        }
        lemma_replayed(front, flushed);
        assert(files[files.len() - 1].0 > flushed);
        write_is_recoverable(
            wal_core::after_files(Seq::empty(), front),
            front,
            flushed,
            files.last().0,
            files.last().1,
        );
        assert(front.push((files.last().0, files.last().1)) =~= files);
    } else {
        assert forall|db: Seq<char>, table: Seq<char>|
            #[trigger] buffer::table_of(
                wal_core::after_files(Seq::empty(), files),
                db,
                table,
            ) is None by {}
    }
}

/// After a restart every row in memory is recoverable again.
pub proof fn restart_is_recoverable(files: Seq<(u64, Seq<wal::OpModel>)>, flushed: u64)
    ensures
        ({
            let left = files_above(files, flushed);
            recoverable(wal_core::after_files(Seq::empty(), left), left, flushed)
        }),
{
    let left = files_above(files, flushed);
    broadcast use vstd::seq_lib::group_filter_ensures;
    assert forall|f: int| 0 <= f < left.len() implies (#[trigger] left[f]).0 > flushed by {
        assert(is_above(flushed)(left[f]));
    }
    lemma_replayed(left, flushed);
}

/// What was in memory before a crash is in memory after it: replaying the log files above
/// the flushed number brings every row back into its chunk.
pub proof fn rows_survive_a_crash(
    dbs: Seq<buffer::DatabaseModel>,
    files: Seq<(u64, Seq<wal::OpModel>)>,
    flushed: u64,
    db: Seq<char>,
    table: Seq<char>,
    chunk_time: i64,
    row: chunk::RowModel,
)
    requires
        recoverable(dbs, files, flushed),
        in_memory(dbs, db, table, chunk_time, row),
    ensures
        in_memory(
            wal_core::after_files(Seq::empty(), files_above(files, flushed)),
            db,
            table,
            chunk_time,
            row,
        ),
{
    let t = buffer::table_of(dbs, db, table)->0;
    let c = choose|c: int|
        0 <= c < t.chunks.len() && (#[trigger] t.chunks[c]).chunk_time == chunk_time
            && t.chunks[c].rows.contains(row);
    let r = choose|r: int| 0 <= r < t.chunks[c].rows.len() && t.chunks[c].rows[r] == row;
    assert(kept(files, db, table, t.chunks[c], t.chunks[c].rows[r]));
    let f = choose|f: int|
        0 <= f < files.len() && t.chunks[c].min_wal_seq <= (#[trigger] files[f]).0 && file_holds(
            files[f].1,
            db,
            table,
            t.chunks[c].chunk_time,
            row,
        );
    assert(flushed < t.chunks[c].min_wal_seq);
    let left = files_above(files, flushed);
    files.lemma_filter_contains(is_above(flushed), f);
    let g = choose|g: int| 0 <= g < left.len() && left[g] == files[f];
    lemma_files_rows(left, g, db, table, chunk_time, row);
}

} // verus!
