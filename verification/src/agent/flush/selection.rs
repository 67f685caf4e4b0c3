//! Which chunks a snapshot takes, and which log files may go after it.

use crate::agent::buffer;
use crate::agent::buffer::chunk;
use crate::agent::flush::scheduler;
use vstd::prelude::*;

verus! {

/// Whether a table of the buffer has a chunk of a time before the marker.
pub open spec fn has_due_chunk(
    dbs: Seq<buffer::DatabaseModel>,
    marker: i64,
    db: Seq<char>,
    table: Seq<char>,
    time: i64,
) -> bool {
    time < marker && exists|i: int, j: int, c: int|
        #![trigger dbs[i].tables[j].1.chunks[c]]
        0 <= i < dbs.len() && 0 <= j < dbs[i].tables.len() && 0 <= c
            < dbs[i].tables[j].1.chunks.len() && dbs[i].name == db && dbs[i].tables[j].0 == table
            && dbs[i].tables[j].1.chunks[c].chunk_time == time
}

/// Whether some task takes the chunk of a time of a table.
pub open spec fn is_taken(
    tasks: Seq<scheduler::TaskModel>,
    db: Seq<char>,
    table: Seq<char>,
    time: i64,
) -> bool {
    exists|k: int|
        0 <= k < tasks.len() && (#[trigger] tasks[k]).db == db && tasks[k].table == table
            && tasks[k].chunk_times.contains(time)
}

proof fn lemma_due_times(chunks: Seq<chunk::ChunkModel>, marker: i64)
    ensures
        forall|time: i64| #[trigger]
            scheduler::due_times(chunks, marker).contains(time) <==> time < marker && exists|c: int|
                0 <= c < chunks.len() && (#[trigger] chunks[c]).chunk_time == time,
        chunk::times_once(chunks) ==> scheduler::due_times(chunks, marker).no_duplicates(),
    decreases chunks.len(),
{
    let times = scheduler::due_times(chunks, marker);
    if chunks.len() > 0 {
        let front = chunks.drop_last();
        let before = scheduler::due_times(front, marker);
        lemma_due_times(front, marker);
        assert forall|time: i64| #[trigger] times.contains(time) <==> time < marker && exists|
            c: int,
        | 0 <= c < chunks.len() && (#[trigger] chunks[c]).chunk_time == time by {
            assert(before.contains(time) <==> time < marker && exists|c: int|
                0 <= c < front.len() && (#[trigger] front[c]).chunk_time == time);
            if times.contains(time) {
                let k = choose|k: int| 0 <= k < times.len() && times[k] == time;
                if k < before.len() {
                    assert(before[k] == time);
                    let c = choose|c: int|
                        0 <= c < front.len() && (#[trigger] front[c]).chunk_time == time;
                    assert(chunks[c].chunk_time == time);
                } else {
                    assert(chunks[chunks.len() - 1].chunk_time == time);
                }
            }
            if time < marker && exists|c: int|
                0 <= c < chunks.len() && (#[trigger] chunks[c]).chunk_time == time {
                let c = choose|c: int|
                    0 <= c < chunks.len() && (#[trigger] chunks[c]).chunk_time == time;
                if c < front.len() {
                    assert(front[c].chunk_time == time);
                    let k = choose|k: int| 0 <= k < before.len() && before[k] == time;
                    assert(times[k] == time);
                } else {
                    assert(times[before.len() as int] == time);
                }
            }
        }
        if chunk::times_once(chunks) {
            assert(chunk::times_once(front)) by {
                assert forall|i: int, j: int|
                    #![trigger front[i], front[j]]
                    0 <= i < j < front.len() implies front[i].chunk_time != front[j].chunk_time by {
                    assert(front[i] == chunks[i] && front[j] == chunks[j]);
                }
            }
            assert forall|i: int, j: int|
                0 <= i < times.len() && 0 <= j < times.len() && i != j implies times[i]
                != times[j] by {
                if i < before.len() && j < before.len() {
                    assert(before[i] != before[j]);
                } else {
                    let k = if i < j {
                        i
                    } else {
                        j
                    };
                    assert(before.contains(before[k]));
                    let c = choose|c: int|
                        0 <= c < front.len() && (#[trigger] front[c]).chunk_time == before[k];
                    assert(chunks[c].chunk_time == before[k]);
                    assert(chunks[chunks.len() - 1].chunk_time == times[before.len() as int]);
                    assert(chunks[c].chunk_time != chunks[chunks.len() - 1].chunk_time);
                }
            }
        }
    }
}

/// Whether a task is that of a table: it names it, and lists the times of its chunks before
/// the marker, all of them and no others.
pub open spec fn is_task_of(
    task: scheduler::TaskModel,
    db: Seq<char>,
    entry: (Seq<char>, chunk::TableModel),
    marker: i64,
) -> bool {
    &&& task.db == db
    &&& task.table == entry.0
    &&& task.chunk_times.len() > 0
    &&& forall|time: i64| #[trigger]
        task.chunk_times.contains(time) <==> time < marker && exists|c: int|
            0 <= c < entry.1.chunks.len() && (#[trigger] entry.1.chunks[c]).chunk_time == time
}

proof fn lemma_due_tables(
    db: Seq<char>,
    tables: Seq<(Seq<char>, chunk::TableModel)>,
    marker: i64,
)
    ensures
        forall|k: int|
            0 <= k < scheduler::due_tables(db, tables, marker).len() ==> exists|j: int|
                0 <= j < tables.len() && is_task_of(
                    #[trigger] scheduler::due_tables(db, tables, marker)[k],
                    db,
                    #[trigger] tables[j],
                    marker,
                ),
        forall|j: int, c: int|
            #![trigger tables[j].1.chunks[c]]
            0 <= j < tables.len() && 0 <= c < tables[j].1.chunks.len()
                && tables[j].1.chunks[c].chunk_time < marker ==> is_taken(
                scheduler::due_tables(db, tables, marker),
                db,
                tables[j].0,
                tables[j].1.chunks[c].chunk_time,
            ),
    decreases tables.len(),
{
    let tasks = scheduler::due_tables(db, tables, marker);
    if tables.len() > 0 {
        let front = tables.drop_last();
        let before = scheduler::due_tables(db, front, marker);
        let times = scheduler::due_times(tables.last().1.chunks, marker);
        lemma_due_tables(db, front, marker);
        lemma_due_times(tables.last().1.chunks, marker);
        assert forall|k: int| 0 <= k < tasks.len() implies exists|j: int|
            0 <= j < tables.len() && is_task_of(
                #[trigger] tasks[k],
                db,
                #[trigger] tables[j],
                marker,
            ) by {
            if k < before.len() {
                assert(before[k] == tasks[k]);
                let j = choose|j: int|
                    0 <= j < front.len() && is_task_of(before[k], db, #[trigger] front[j], marker);
                assert(tables[j] == front[j]);
            } else {
                assert(is_task_of(tasks[k], db, tables[tables.len() - 1], marker));
            }
        }
        assert forall|j: int, c: int|
            #![trigger tables[j].1.chunks[c]]
            0 <= j < tables.len() && 0 <= c < tables[j].1.chunks.len()
                && tables[j].1.chunks[c].chunk_time < marker implies is_taken(
            tasks,
            db,
            tables[j].0,
            tables[j].1.chunks[c].chunk_time,
        ) by {
            let time = tables[j].1.chunks[c].chunk_time;
            if j < front.len() {
                assert(front[j].1.chunks[c].chunk_time == time);
                let k = choose|k: int|
                    0 <= k < before.len() && (#[trigger] before[k]).db == db && before[k].table
                        == front[j].0 && before[k].chunk_times.contains(time);
                assert(tasks[k] == before[k]);
            } else {
                assert(times.contains(time));
                let n = choose|n: int| 0 <= n < times.len() && times[n] == time;
                assert(tasks[before.len() as int].chunk_times == times);
            }
        }
    }
}

proof fn lemma_due_tasks(dbs: Seq<buffer::DatabaseModel>, marker: i64)
    ensures
        forall|k: int|
            0 <= k < scheduler::due_tasks(dbs, marker).len() ==> exists|i: int, j: int|
                0 <= i < dbs.len() && 0 <= j < dbs[i].tables.len() && is_task_of(
                    #[trigger] scheduler::due_tasks(dbs, marker)[k],
                    dbs[i].name,
                    #[trigger] dbs[i].tables[j],
                    marker,
                ),
        forall|i: int, j: int, c: int|
            #![trigger dbs[i].tables[j].1.chunks[c]]
            0 <= i < dbs.len() && 0 <= j < dbs[i].tables.len() && 0 <= c
                < dbs[i].tables[j].1.chunks.len() && dbs[i].tables[j].1.chunks[c].chunk_time
                < marker ==> is_taken(
                scheduler::due_tasks(dbs, marker),
                dbs[i].name,
                dbs[i].tables[j].0,
                dbs[i].tables[j].1.chunks[c].chunk_time,
            ),
    decreases dbs.len(),
{
    let tasks = scheduler::due_tasks(dbs, marker);
    if dbs.len() > 0 {
        let front = dbs.drop_last();
        let last = dbs.last();
        let before = scheduler::due_tasks(front, marker);
        let own = scheduler::due_tables(last.name, last.tables, marker);
        lemma_due_tasks(front, marker);
        lemma_due_tables(last.name, last.tables, marker);
        assert forall|k: int| 0 <= k < tasks.len() implies exists|i: int, j: int|
            0 <= i < dbs.len() && 0 <= j < dbs[i].tables.len() && is_task_of(
                #[trigger] tasks[k],
                dbs[i].name,
                #[trigger] dbs[i].tables[j],
                marker,
            ) by {
            if k < before.len() {
                assert(before[k] == tasks[k]);
                let (i, j) = choose|i: int, j: int|
                    0 <= i < front.len() && 0 <= j < front[i].tables.len() && is_task_of(
                        before[k],
                        front[i].name,
                        #[trigger] front[i].tables[j],
                        marker,
                    );
                assert(dbs[i].tables[j] == front[i].tables[j]);
            } else {
                assert(own[k - before.len()] == tasks[k]);
                let j = choose|j: int|
                    0 <= j < last.tables.len() && is_task_of(
                        own[k - before.len()],
                        last.name,
                        #[trigger] last.tables[j],
                        marker,
                    );
                assert(dbs[dbs.len() - 1].tables[j] == last.tables[j]);
            }
        }
        assert forall|i: int, j: int, c: int|
            #![trigger dbs[i].tables[j].1.chunks[c]]
            0 <= i < dbs.len() && 0 <= j < dbs[i].tables.len() && 0 <= c
                < dbs[i].tables[j].1.chunks.len() && dbs[i].tables[j].1.chunks[c].chunk_time
                < marker implies is_taken(
            tasks,
            dbs[i].name,
            dbs[i].tables[j].0,
            dbs[i].tables[j].1.chunks[c].chunk_time,
        ) by {
            let time = dbs[i].tables[j].1.chunks[c].chunk_time;
            if i < front.len() {
                assert(front[i].tables[j].1.chunks[c].chunk_time == time);
                let k = choose|k: int|
                    0 <= k < before.len() && (#[trigger] before[k]).db == dbs[i].name
                        && before[k].table == dbs[i].tables[j].0
                        && before[k].chunk_times.contains(time);
                assert(tasks[k] == before[k]);
            } else {
                assert(last.tables[j].1.chunks[c].chunk_time == time);
                let k = choose|k: int|
                    0 <= k < own.len() && (#[trigger] own[k]).db == last.name && own[k].table
                        == last.tables[j].0 && own[k].chunk_times.contains(time);
                assert(tasks[before.len() + k] == own[k]);
            }
        }
    }
}

/// A snapshot takes every chunk that is old enough, of every table of every database, and
/// nothing else; a table without such a chunk has no task.
pub proof fn every_due_chunk_is_taken(dbs: Seq<buffer::DatabaseModel>, marker: i64)
    ensures
        forall|db: Seq<char>, table: Seq<char>, time: i64| #[trigger]
            is_taken(scheduler::due_tasks(dbs, marker), db, table, time) <==> has_due_chunk(
                dbs,
                marker,
                db,
                table,
                time,
            ),
        forall|k: int|
            0 <= k < scheduler::due_tasks(dbs, marker).len() ==> (
            #[trigger] scheduler::due_tasks(dbs, marker)[k]).chunk_times.len() > 0,
{
    let tasks = scheduler::due_tasks(dbs, marker);
    lemma_due_tasks(dbs, marker);
    assert forall|db: Seq<char>, table: Seq<char>, time: i64| #[trigger]
        is_taken(tasks, db, table, time) <==> has_due_chunk(dbs, marker, db, table, time) by {
        if is_taken(tasks, db, table, time) {
            let k = choose|k: int|
                0 <= k < tasks.len() && (#[trigger] tasks[k]).db == db && tasks[k].table == table
                    && tasks[k].chunk_times.contains(time);
            let (i, j) = choose|i: int, j: int|
                0 <= i < dbs.len() && 0 <= j < dbs[i].tables.len() && is_task_of(
                    tasks[k],
                    dbs[i].name,
                    #[trigger] dbs[i].tables[j],
                    marker,
                );
            let entry = dbs[i].tables[j];
            let c = choose|c: int|
                0 <= c < entry.1.chunks.len() && (#[trigger] entry.1.chunks[c]).chunk_time == time;
            assert(dbs[i].tables[j].1.chunks[c].chunk_time == time);
        }
    }
    assert forall|k: int| 0 <= k < tasks.len() implies (#[trigger] tasks[k]).chunk_times.len()
        > 0 by {
        let (i, j) = choose|i: int, j: int|
            0 <= i < dbs.len() && 0 <= j < dbs[i].tables.len() && is_task_of(
                tasks[k],
                dbs[i].name,
                #[trigger] dbs[i].tables[j],
                marker,
            );
    }
}

/// Whether no two tasks are for the same table.
pub open spec fn tasks_once(tasks: Seq<scheduler::TaskModel>) -> bool {
    forall|k: int, m: int|
        #![trigger tasks[k], tasks[m]]
        0 <= k < m < tasks.len() ==> tasks[k].db != tasks[m].db || tasks[k].table != tasks[m].table
}

proof fn lemma_due_tables_once(
    db: Seq<char>,
    tables: Seq<(Seq<char>, chunk::TableModel)>,
    marker: i64,
)
    requires
        buffer::tables_once(tables),
    ensures
        tasks_once(scheduler::due_tables(db, tables, marker)),
    decreases tables.len(),
{
    if tables.len() > 0 {
        let front = tables.drop_last();
        let tasks = scheduler::due_tables(db, tables, marker);
        let before = scheduler::due_tables(db, front, marker);
        assert(buffer::tables_once(front)) by {
            assert forall|i: int, j: int|
                #![trigger front[i], front[j]]
                0 <= i < j < front.len() implies front[i].0 != front[j].0 by {
                assert(front[i] == tables[i] && front[j] == tables[j]);
            }
        }
        lemma_due_tables_once(db, front, marker);
        lemma_due_tables(db, front, marker);
        assert forall|k: int, m: int|
            #![trigger tasks[k], tasks[m]]
            0 <= k < m < tasks.len() implies tasks[k].db != tasks[m].db || tasks[k].table
            != tasks[m].table by {
            assert(tasks[k] == before[k]);
            if m < before.len() {
                assert(tasks[m] == before[m]);
            } else {
                let j = choose|j: int|
                    0 <= j < front.len() && is_task_of(before[k], db, #[trigger] front[j], marker);
                assert(front[j] == tables[j]);
                assert(tables[j].0 != tables[tables.len() - 1].0);
            }
        }
    }
}

/// A snapshot takes each table in one task, and lists each of its chunks once.
pub proof fn tables_are_taken_once(dbs: Seq<buffer::DatabaseModel>, marker: i64)
    requires
        buffer::names_once(dbs),
    ensures
        tasks_once(scheduler::due_tasks(dbs, marker)),
    decreases dbs.len(),
{
    if dbs.len() > 0 {
        let front = dbs.drop_last();
        let last = dbs.last();
        let tasks = scheduler::due_tasks(dbs, marker);
        let before = scheduler::due_tasks(front, marker);
        let own = scheduler::due_tables(last.name, last.tables, marker);
        assert(buffer::names_once(front)) by {
            assert forall|i: int, j: int|
                #![trigger front[i], front[j]]
                0 <= i < j < front.len() implies front[i].name != front[j].name by {
                assert(front[i] == dbs[i] && front[j] == dbs[j]);
            }
            assert forall|i: int| 0 <= i < front.len() implies buffer::tables_once(
                (#[trigger] front[i]).tables,
            ) by {
                assert(front[i] == dbs[i]);
            }
        }
        tables_are_taken_once(front, marker);
        assert(dbs[dbs.len() - 1] == last);
        lemma_due_tables_once(last.name, last.tables, marker);
        lemma_due_tasks(front, marker);
        lemma_due_tables(last.name, last.tables, marker);
        assert forall|k: int, m: int|
            #![trigger tasks[k], tasks[m]]
            0 <= k < m < tasks.len() implies tasks[k].db != tasks[m].db || tasks[k].table
            != tasks[m].table by {
            if m < before.len() {
                assert(tasks[k] == before[k] && tasks[m] == before[m]);
            } else if k >= before.len() {
                assert(tasks[k] == own[k - before.len()] && tasks[m] == own[m - before.len()]);
            } else {
                assert(tasks[k] == before[k] && tasks[m] == own[m - before.len()]);
                let (i, j) = choose|i: int, j: int|
                    0 <= i < front.len() && 0 <= j < front[i].tables.len() && is_task_of(
                        before[k],
                        front[i].name,
                        #[trigger] front[i].tables[j],
                        marker,
                    );
                assert(front[i] == dbs[i]);
                assert(own[m - before.len()].db == last.name);
            }
        }
    }
}

/// The chunks of a table keep their order in its task, each once.
pub proof fn times_are_listed_once(chunks: Seq<chunk::ChunkModel>, marker: i64)
    requires
        chunk::times_once(chunks),
    ensures
        scheduler::due_times(chunks, marker).no_duplicates(),
        scheduler::due_times(chunks, marker) == chunks.filter(
            |c: chunk::ChunkModel| c.chunk_time < marker,
        ).map_values(|c: chunk::ChunkModel| c.chunk_time),
    decreases chunks.len(),
{
    lemma_due_times(chunks, marker);
    lemma_times_in_order(chunks, marker);
}

proof fn lemma_times_in_order(chunks: Seq<chunk::ChunkModel>, marker: i64)
    ensures
        scheduler::due_times(chunks, marker) == chunks.filter(
            |c: chunk::ChunkModel| c.chunk_time < marker,
        ).map_values(|c: chunk::ChunkModel| c.chunk_time),
    decreases chunks.len(),
{
    reveal(Seq::filter);
    let due = |c: chunk::ChunkModel| c.chunk_time < marker;
    let time = |c: chunk::ChunkModel| c.chunk_time;
    if chunks.len() > 0 {
        let front = chunks.drop_last();
        lemma_times_in_order(front, marker);
        if due(chunks.last()) {
            assert(chunks.filter(due).map_values(time) =~= front.filter(due).map_values(
                time,
            ).push(chunks.last().chunk_time));
        }
    } else {
        assert(chunks.filter(due).map_values(time) =~= Seq::<i64>::empty());
    }
}

/// Whether a chunk of the buffer needs a log file.
pub open spec fn needs_from(dbs: Seq<buffer::DatabaseModel>, seq: u64) -> bool {
    exists|i: int, j: int, c: int|
        #![trigger dbs[i].tables[j].1.chunks[c]]
        0 <= i < dbs.len() && 0 <= j < dbs[i].tables.len() && 0 <= c
            < dbs[i].tables[j].1.chunks.len() && dbs[i].tables[j].1.chunks[c].min_wal_seq == seq
}

proof fn lemma_chunks_min_reached(chunks: Seq<chunk::ChunkModel>)
    ensures
        scheduler::chunks_min_seq(chunks) < u64::MAX ==> exists|c: int|
            0 <= c < chunks.len() && (#[trigger] chunks[c]).min_wal_seq
                == scheduler::chunks_min_seq(chunks),
    decreases chunks.len(),
{
    if chunks.len() > 0 {
        let front = chunks.drop_last();
        lemma_chunks_min_reached(front);
        let n = scheduler::chunks_min_seq(chunks);
        if n < u64::MAX {
            if chunks.last().min_wal_seq == n {
                assert(chunks[chunks.len() - 1].min_wal_seq == n);
            } else {
                let c = choose|c: int|
                    0 <= c < front.len() && (#[trigger] front[c]).min_wal_seq
                        == scheduler::chunks_min_seq(front);
                assert(chunks[c].min_wal_seq == n);
            }
        }
    }
}

proof fn lemma_tables_min_reached(tables: Seq<(Seq<char>, chunk::TableModel)>)
    ensures
        scheduler::tables_min_seq(tables) < u64::MAX ==> exists|j: int, c: int|
            #![trigger tables[j].1.chunks[c]]
            0 <= j < tables.len() && 0 <= c < tables[j].1.chunks.len()
                && tables[j].1.chunks[c].min_wal_seq == scheduler::tables_min_seq(tables),
    decreases tables.len(),
{
    if tables.len() > 0 {
        let front = tables.drop_last();
        lemma_tables_min_reached(front);
        lemma_chunks_min_reached(tables.last().1.chunks);
        let n = scheduler::tables_min_seq(tables);
        if n < u64::MAX {
            if scheduler::chunks_min_seq(tables.last().1.chunks) == n {
                let chunks = tables.last().1.chunks;
                let c = choose|c: int|
                    0 <= c < chunks.len() && (#[trigger] chunks[c]).min_wal_seq == n;
                assert(tables[tables.len() - 1].1.chunks[c].min_wal_seq == n);
            } else {
                let (j, c) = choose|j: int, c: int|
                    #![trigger front[j].1.chunks[c]]
                    0 <= j < front.len() && 0 <= c < front[j].1.chunks.len()
                        && front[j].1.chunks[c].min_wal_seq == scheduler::tables_min_seq(front);
                assert(tables[j].1.chunks[c].min_wal_seq == n);
            }
        }
    }
}

proof fn lemma_min_reached(dbs: Seq<buffer::DatabaseModel>)
    ensures
        scheduler::min_seq(dbs) < u64::MAX ==> needs_from(dbs, scheduler::min_seq(dbs)),
    decreases dbs.len(),
{
    if dbs.len() > 0 {
        let front = dbs.drop_last();
        lemma_min_reached(front);
        lemma_tables_min_reached(dbs.last().tables);
        let n = scheduler::min_seq(dbs);
        if n < u64::MAX {
            if scheduler::tables_min_seq(dbs.last().tables) == n {
                let tables = dbs.last().tables;
                let (j, c) = choose|j: int, c: int|
                    #![trigger tables[j].1.chunks[c]]
                    0 <= j < tables.len() && 0 <= c < tables[j].1.chunks.len()
                        && tables[j].1.chunks[c].min_wal_seq == n;
                assert(dbs[dbs.len() - 1].tables[j].1.chunks[c].min_wal_seq == n);
            } else {
                let (i, j, c) = choose|i: int, j: int, c: int|
                    #![trigger front[i].tables[j].1.chunks[c]]
                    0 <= i < front.len() && 0 <= j < front[i].tables.len() && 0 <= c
                        < front[i].tables[j].1.chunks.len()
                        && front[i].tables[j].1.chunks[c].min_wal_seq == scheduler::min_seq(front);
                assert(dbs[i].tables[j].1.chunks[c].min_wal_seq == n);
            }
        }
    }
}

/// The log is cleaned as far as it may be: where a log file below the next one is kept, a
/// chunk needs the first that is kept, and where no chunk needs one, only the next stays.
pub proof fn log_is_cleaned_as_far_as_it_may(dbs: Seq<buffer::DatabaseModel>, current_seq: u64)
    requires
        current_seq > 0,
        forall|seq: u64| #[trigger] needs_from(dbs, seq) ==> seq > 0,
    ensures
        ({
            let safe = scheduler::safe_seq(dbs, current_seq);
            needs_from(dbs, (safe + 1) as u64) || safe == current_seq - 1 && forall|seq: u64|
                #[trigger]
                needs_from(dbs, seq) ==> seq == u64::MAX
        }),
{
    lemma_min_reached(dbs);
    let n = scheduler::min_seq(dbs);
    if n == u64::MAX {
        assert forall|seq: u64| #[trigger] needs_from(dbs, seq) implies seq == u64::MAX by {
            let (i, j, c) = choose|i: int, j: int, c: int|
                #![trigger dbs[i].tables[j].1.chunks[c]]
                0 <= i < dbs.len() && 0 <= j < dbs[i].tables.len() && 0 <= c
                    < dbs[i].tables[j].1.chunks.len() && dbs[i].tables[j].1.chunks[c].min_wal_seq
                    == seq;
            scheduler::lemma_min_seq(dbs, i);
            scheduler::lemma_tables_min(dbs[i].tables, j);
            scheduler::lemma_chunks_min(dbs[i].tables[j].1.chunks, c);
        }
    } else {
        assert(needs_from(dbs, n));
    }
}

} // verus!
