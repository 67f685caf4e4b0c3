//! Snapshots: which chunks leave the buffer, in which order of steps, and what of the log
//! may go with them.

use crate::agent::buffer;
use crate::agent::buffer::chunk;
use crate::agent::buffer::chunk::{Chunk, Table};
use crate::agent::buffer::Buffer;
use crate::agent::flush::http_upload;
use crate::agent::hot_config::HotConfig;
use crate::agent::wal;
use crate::agent::wal::wal_core;
use crate::config;
use crate::config::Config;
use crate::decimal;
use crate::text;
use vstd::prelude::*;

verus! {

/// The state of the snapshots, as the status report shows it.
#[derive(Debug, Clone, Copy)]
pub struct SnapshotStatus {
    /// Time of the last upload that succeeded, in milliseconds since 1970.
    pub last_at: Option<i64>,
    /// Whether the last upload succeeded.
    pub upload_ok: bool,
    /// Bytes of the last upload.
    pub last_size_bytes: u64,
    /// Seconds until the next snapshot.
    pub next_in_secs: i64,
}

/// The part of an agent that decides on snapshots.
pub struct SnapshotScheduler {
    pub config: Config,
    pub staging_dir: String,
    pub last_snapshot: SnapshotStatus,
    /// Parameters that can change at run time; they go before the configuration.
    pub hot: Option<HotConfig>,
}

/// What a turn of the scheduler's loop does.
#[derive(Debug, Clone, Copy)]
pub struct Turn {
    pub retry_staging: bool,
    pub snapshot: bool,
    pub forced: bool,
}

/// The turns between two retries of staged files.
pub const STAGING_RETRY_TURNS: u64 = 6;

/// The remainder of `a` by `b`, with the sign of `a`.
pub open spec fn signed_rem(a: int, b: int) -> int {
    if a >= 0 {
        a % b
    } else {
        -((-a) % b)
    }
}

/// The seconds until the next snapshot: what is left of the interval that runs.
pub open spec fn next_in(interval: int, since_last: int) -> int {
    let left = interval - signed_rem(since_last, interval);
    if left < 0 {
        0
    } else {
        left
    }
}

/// The quotient of a number of milliseconds by 1000, towards zero.
pub open spec fn whole_secs(ms: int) -> int {
    if ms >= 0 {
        ms / 1000
    } else {
        -((-ms) / 1000)
    }
}

impl SnapshotScheduler {
    pub open spec fn spec_interval(&self) -> int {
        match self.hot {
            Some(h) => h.snapshot_interval_secs as int,
            None => config::duration_secs(self.config.flush.snapshot_interval@),
        }
    }

    pub open spec fn spec_memory_limit(&self) -> nat {
        match self.hot {
            Some(h) => h.memory_limit_bytes as nat,
            None => config::size_bytes(self.config.flush.memory_limit@),
        }
    }

    /// The seconds until the next snapshot, counted from the last upload or from the start.
    pub open spec fn spec_next_in(&self, elapsed_secs: i64, now_ms: i64) -> int {
        next_in(
            if self.spec_interval() < 1 {
                1
            } else {
                self.spec_interval()
            },
            match self.last_snapshot.last_at {
                Some(at) => whole_secs(now_ms - at),
                None => elapsed_secs as int,
            },
        )
    }

    pub fn new(config: Config) -> (r: SnapshotScheduler)
        requires
            config.interval_fits(),
        ensures
            r.config == config,
            r.staging_dir@ == text::path_in(config.data.dir@, "staging"@),
            r.hot is None,
            r.last_snapshot == (SnapshotStatus {
                last_at: None,
                upload_ok: true,
                last_size_bytes: 0,
                next_in_secs: config::duration_secs(config.flush.snapshot_interval@) as i64,
            }),
    {
        let staging_dir = text::join_path(config.data.dir.as_str(), "staging");
        let last_snapshot = SnapshotStatus {
            last_at: None,
            upload_ok: true,
            last_size_bytes: 0,
            next_in_secs: config.snapshot_interval_secs(),
        };
        SnapshotScheduler { config, staging_dir, last_snapshot, hot: None }
    }

    /// The seconds between two snapshots.
    pub fn current_snapshot_interval(&self) -> (r: i64)
        requires
            self.hot is None ==> self.config.interval_fits(),
        ensures
            r == self.spec_interval(),
    {
        match &self.hot {
            Some(h) => h.snapshot_interval_secs(),
            None => self.config.snapshot_interval_secs(),
        }
    }

    /// The bytes at which a snapshot is forced.
    pub fn current_memory_limit(&self) -> (r: usize)
        requires
            self.hot is None ==> self.config.memory_fits(),
        ensures
            r == self.spec_memory_limit(),
    {
        match &self.hot {
            Some(h) => h.memory_limit_bytes(),
            None => self.config.memory_limit_bytes(),
        }
    }

    /// The state of the snapshots; `elapsed_secs` is the time since the start, which counts
    /// where nothing was uploaded yet.
    pub fn last_snapshot_status(&self, elapsed_secs: i64, now_ms: i64) -> (r: SnapshotStatus)
        requires
            self.hot is None ==> self.config.interval_fits(),
            self.last_snapshot.last_at is Some ==> i64::MIN <= now_ms
                - self.last_snapshot.last_at->0 <= i64::MAX,
            self.spec_next_in(elapsed_secs, now_ms) <= i64::MAX,
        ensures
            r == (SnapshotStatus {
                next_in_secs: self.spec_next_in(elapsed_secs, now_ms) as i64,
                ..self.last_snapshot
            }),
    {
        let current = self.current_snapshot_interval();
        let interval: i64 = if current < 1 {
            1
        } else {
            current
        };
        let since_last: i64 = match self.last_snapshot.last_at {
            Some(at) => {
                let ms: i128 = now_ms as i128 - at as i128;
                if ms >= 0 {
                    (ms / 1000) as i64
                } else {
                    (-((-ms) / 1000)) as i64
                }
            },
            None => elapsed_secs,
        };
        let rem: i64 = if since_last >= 0 {
            since_last % interval
        } else {
            let positive: i128 = -(since_last as i128);
            (-(positive % interval as i128)) as i64
        };
        let left: i64 = interval - rem;
        SnapshotStatus {
            last_at: self.last_snapshot.last_at,
            upload_ok: self.last_snapshot.upload_ok,
            last_size_bytes: self.last_snapshot.last_size_bytes,
            next_in_secs: if left < 0 {
                0
            } else {
                left
            },
        }
    }

    /// What turn number `turn` of the loop does, with `total_bytes` in the buffer and
    /// `elapsed_secs` since the last snapshot.
    pub fn plan_turn(&self, turn: u64, total_bytes: usize, elapsed_secs: u64) -> (r: Turn)
        requires
            self.hot is None ==> self.config.limits_fit(),
        ensures
            r.retry_staging == (turn % STAGING_RETRY_TURNS == 0),
            r.forced == (total_bytes >= self.spec_memory_limit()),
            r.snapshot == (r.forced || elapsed_secs >= 1 && elapsed_secs >= self.spec_interval()),
    {
        let interval = self.current_snapshot_interval();
        let due: u64 = if interval < 1 {
            1
        } else {
            interval as u64
        };
        let forced = total_bytes >= self.current_memory_limit();
        Turn {
            retry_staging: turn % STAGING_RETRY_TURNS == 0,
            snapshot: forced || elapsed_secs >= due,
            forced,
        }
    }

    /// Notes an upload that succeeded.
    pub fn note_success(&mut self, size_bytes: u64, now_ms: i64)
        ensures
            *final(self) == (SnapshotScheduler {
                last_snapshot: SnapshotStatus {
                    last_at: Some(now_ms),
                    upload_ok: true,
                    last_size_bytes: size_bytes,
                    ..old(self).last_snapshot
                },
                ..*old(self)
            }),
    {
        self.last_snapshot = SnapshotStatus {
            last_at: Some(now_ms),
            upload_ok: true,
            last_size_bytes: size_bytes,
            next_in_secs: self.last_snapshot.next_in_secs,
        };
    }

    /// Notes an upload that failed.
    pub fn note_failure(&mut self, size_bytes: u64)
        ensures
            *final(self) == (SnapshotScheduler {
                last_snapshot: SnapshotStatus {
                    upload_ok: false,
                    last_size_bytes: size_bytes,
                    ..old(self).last_snapshot
                },
                ..*old(self)
            }),
    {
        self.last_snapshot = SnapshotStatus {
            last_at: self.last_snapshot.last_at,
            upload_ok: false,
            last_size_bytes: size_bytes,
            next_in_secs: self.last_snapshot.next_in_secs,
        };
    }
}

/// The seconds until the next snapshot lie within the interval when the clock runs forward.
pub proof fn next_snapshot_lies_within_the_interval(interval: int, since_last: int)
    requires
        interval >= 1,
        since_last >= 0,
    ensures
        0 < next_in(interval, since_last) <= interval,
{
    vstd::arithmetic::div_mod::lemma_mod_bound(since_last, interval);
}

/// The time before which chunks are old enough to leave: one interval before now, down to a
/// multiple of the interval towards zero.
pub open spec fn end_time_marker(now_ns: int, interval_secs: int) -> int {
    let interval_ns = interval_secs * 1_000_000_000;
    crate::agent::write::chunk_start(now_ns - interval_ns, interval_ns)
}

/// The time before which chunks are old enough to leave.
pub fn compute_end_time_marker(now_ns: i64, snapshot_interval_secs: i64) -> (r: i64)
    requires
        snapshot_interval_secs != 0,
        i64::MIN <= snapshot_interval_secs * 1_000_000_000 <= i64::MAX,
        i64::MIN <= now_ns - snapshot_interval_secs * 1_000_000_000 <= i64::MAX,
    ensures
        r == end_time_marker(now_ns as int, snapshot_interval_secs as int),
{
    let interval_ns: i64 = snapshot_interval_secs * 1_000_000_000;
    crate::agent::write::chunk_time_of(now_ns - interval_ns, interval_ns)
}

/// A chunk before the marker is over: it ended at least one interval ago.
pub proof fn chunks_before_the_marker_are_over(
    now_ns: i64,
    interval_secs: i64,
    chunk_time: i64,
)
    requires
        interval_secs > 0,
        now_ns - interval_secs * 1_000_000_000 >= 0,
        interval_secs * 1_000_000_000 <= i64::MAX,
        chunk_time < end_time_marker(now_ns as int, interval_secs as int),
    ensures
        chunk_time + interval_secs * 1_000_000_000 < now_ns,
{
    let interval_ns = (interval_secs * 1_000_000_000) as i64;
    crate::agent::write::chunk_start_is_near((now_ns - interval_ns) as i64, interval_ns);
}

/// The times of the chunks before the marker, in order.
pub open spec fn due_times(chunks: Seq<chunk::ChunkModel>, marker: i64) -> Seq<i64>
    decreases chunks.len(),
{
    if chunks.len() == 0 {
        Seq::empty()
    } else if chunks.last().chunk_time < marker {
        due_times(chunks.drop_last(), marker).push(chunks.last().chunk_time)
    } else {
        due_times(chunks.drop_last(), marker)
    }
}

/// A table with chunks that are old enough to leave.
#[derive(Debug)]
pub struct SnapshotTask {
    pub db: String,
    pub table: String,
    pub chunk_times: Vec<i64>,
}

#[verifier::ext_equal]
pub struct TaskModel {
    pub db: Seq<char>,
    pub table: Seq<char>,
    pub chunk_times: Seq<i64>,
}

impl View for SnapshotTask {
    type V = TaskModel;

    open spec fn view(&self) -> TaskModel {
        TaskModel { db: self.db@, table: self.table@, chunk_times: self.chunk_times@ }
    }
}

/// The tables of one database with chunks before the marker.
pub open spec fn due_tables(
    db: Seq<char>,
    tables: Seq<(Seq<char>, chunk::TableModel)>,
    marker: i64,
) -> Seq<TaskModel>
    decreases tables.len(),
{
    if tables.len() == 0 {
        Seq::empty()
    } else {
        let before = due_tables(db, tables.drop_last(), marker);
        let times = due_times(tables.last().1.chunks, marker);
        if times.len() > 0 {
            before.push(TaskModel { db, table: tables.last().0, chunk_times: times })
        } else {
            before
        }
    }
}

/// The tables of all databases with chunks before the marker.
pub open spec fn due_tasks(dbs: Seq<buffer::DatabaseModel>, marker: i64) -> Seq<TaskModel>
    decreases dbs.len(),
{
    if dbs.len() == 0 {
        Seq::empty()
    } else {
        due_tasks(dbs.drop_last(), marker) + due_tables(dbs.last().name, dbs.last().tables, marker)
    }
}

/// The times of a table's chunks before the marker.
pub fn select_chunk_times(table: &Table, marker: i64) -> (r: Vec<i64>)
    ensures
        r@ == due_times(table@.chunks, marker),
{
    let ghost chunks = table@.chunks;
    let mut r: Vec<i64> = Vec::new();
    let mut i: usize = 0;
    assert(chunks.take(0) =~= Seq::<chunk::ChunkModel>::empty());
    while i < table.chunks.len()
        invariant
            i <= table.chunks@.len(),
            chunks == table@.chunks,
            r@ == due_times(chunks.take(i as int), marker),
        decreases table.chunks@.len() - i,
    {
        assert(chunks.take(i + 1).drop_last() =~= chunks.take(i as int));
        assert(chunks.take(i + 1).last() == table.chunks@[i as int]@);
        if table.chunks[i].chunk_time < marker {
            r.push(table.chunks[i].chunk_time);
        }
        i += 1;
    }
    assert(chunks.take(i as int) =~= chunks);
    r
}

pub open spec fn task_models(tasks: Seq<SnapshotTask>) -> Seq<TaskModel> {
    tasks.map_values(|t: SnapshotTask| t@)
}

/// The tables with chunks before the marker.
pub fn select_chunks(buffer: &Buffer, marker: i64) -> (r: Vec<SnapshotTask>)
    ensures
        task_models(r@) == due_tasks(buffer@, marker),
{
    let ghost dbs = buffer@;
    let mut r: Vec<SnapshotTask> = Vec::new();
    let mut i: usize = 0;
    assert(task_models(r@) =~= due_tasks(dbs.take(0), marker));
    while i < buffer.databases.len()
        invariant
            i <= buffer.databases@.len(),
            dbs == buffer@,
            task_models(r@) == due_tasks(dbs.take(i as int), marker),
        decreases buffer.databases@.len() - i,
    {
        let d = &buffer.databases[i];
        assert(dbs.take(i + 1).drop_last() =~= dbs.take(i as int));
        assert(dbs.take(i + 1).last() == d@);
        let ghost before = task_models(r@);
        let ghost tables = d@.tables;
        let mut j: usize = 0;
        assert(before + due_tables(d@.name, tables.take(0), marker) =~= before);
        while j < d.tables.len()
            invariant
                i < buffer.databases@.len(),
                *d == buffer.databases@[i as int],
                tables == d@.tables,
                j <= d.tables@.len(),
                task_models(r@) == before + due_tables(d@.name, tables.take(j as int), marker),
            decreases d.tables@.len() - j,
        {
            assert(tables.take(j + 1).drop_last() =~= tables.take(j as int));
            assert(tables.take(j + 1).last() == buffer::table_entry(d.tables@[j as int]));
            let chunk_times = select_chunk_times(&d.tables[j], marker);
            if chunk_times.len() > 0 {
                let ghost was = r@;
                let task = SnapshotTask {
                    db: d.name.clone(),
                    table: d.tables[j].name.clone(),
                    chunk_times,
                };
                r.push(task);
                assert(task_models(r@) =~= task_models(was).push(task@));
                assert(before + due_tables(d@.name, tables.take(j + 1), marker) =~= (before
                    + due_tables(d@.name, tables.take(j as int), marker)).push(task@));
            }
            j += 1;
        }
        assert(tables.take(j as int) =~= tables);
        i += 1;
    }
    assert(dbs.take(i as int) =~= dbs);
    r
}

/// The least number of a log file that a chunk needs, and `u64::MAX` without chunks.
pub open spec fn chunks_min_seq(chunks: Seq<chunk::ChunkModel>) -> u64
    decreases chunks.len(),
{
    if chunks.len() == 0 {
        u64::MAX
    } else {
        chunk::min_u64(chunks_min_seq(chunks.drop_last()), chunks.last().min_wal_seq)
    }
}

pub open spec fn tables_min_seq(tables: Seq<(Seq<char>, chunk::TableModel)>) -> u64
    decreases tables.len(),
{
    if tables.len() == 0 {
        u64::MAX
    } else {
        chunk::min_u64(
            tables_min_seq(tables.drop_last()),
            chunks_min_seq(tables.last().1.chunks),
        )
    }
}

/// The least number of a log file that the buffer needs.
pub open spec fn min_seq(dbs: Seq<buffer::DatabaseModel>) -> u64
    decreases dbs.len(),
{
    if dbs.len() == 0 {
        u64::MAX
    } else {
        chunk::min_u64(min_seq(dbs.drop_last()), tables_min_seq(dbs.last().tables))
    }
}

/// The number up to which log files may go: below what the buffer needs, or below the next
/// file where it needs none.
pub open spec fn safe_seq(dbs: Seq<buffer::DatabaseModel>, current_seq: u64) -> u64 {
    let min = min_seq(dbs);
    let bound = if min == u64::MAX {
        current_seq
    } else {
        min
    };
    if bound == 0 {
        0
    } else {
        (bound - 1) as u64
    }
}

/// The chunks without those of the given times.
pub open spec fn without_times(chunks: Seq<chunk::ChunkModel>, times: Seq<i64>) -> Seq<
    chunk::ChunkModel,
>
    decreases chunks.len(),
{
    if chunks.len() == 0 {
        Seq::empty()
    } else if times.contains(chunks.last().chunk_time) {
        without_times(chunks.drop_last(), times)
    } else {
        without_times(chunks.drop_last(), times).push(chunks.last())
    }
}

/// The databases without some chunks of a table.
pub open spec fn without_chunks(
    dbs: Seq<buffer::DatabaseModel>,
    db: Seq<char>,
    table: Seq<char>,
    times: Seq<i64>,
) -> Seq<buffer::DatabaseModel> {
    match buffer::table_of(dbs, db, table) {
        Some(t) => buffer::with_table(
            dbs,
            db,
            table,
            chunk::TableModel { chunks: without_times(t.chunks, times), ..t },
        ),
        None => dbs,
    }
}

pub(crate) proof fn lemma_chunks_min(chunks: Seq<chunk::ChunkModel>, i: int)
    requires
        0 <= i < chunks.len(),
    ensures
        chunks_min_seq(chunks) <= chunks[i].min_wal_seq,
    decreases chunks.len(),
{
    if i < chunks.len() - 1 {
        assert(chunks.drop_last()[i] == chunks[i]);
        lemma_chunks_min(chunks.drop_last(), i);
    }
}

pub(crate) proof fn lemma_tables_min(tables: Seq<(Seq<char>, chunk::TableModel)>, i: int)
    requires
        0 <= i < tables.len(),
    ensures
        tables_min_seq(tables) <= chunks_min_seq(tables[i].1.chunks),
    decreases tables.len(),
{
    if i < tables.len() - 1 {
        assert(tables.drop_last()[i] == tables[i]);
        lemma_tables_min(tables.drop_last(), i);
    }
}

pub(crate) proof fn lemma_min_seq(dbs: Seq<buffer::DatabaseModel>, i: int)
    requires
        0 <= i < dbs.len(),
    ensures
        min_seq(dbs) <= tables_min_seq(dbs[i].tables),
    decreases dbs.len(),
{
    if i < dbs.len() - 1 {
        assert(dbs.drop_last()[i] == dbs[i]);
        lemma_min_seq(dbs.drop_last(), i);
    }
}

/// No log file that a chunk of the buffer needs may go: the safe number lies below the
/// first file of every chunk that has rows from a log file, and below the next file.
pub proof fn safe_seq_keeps_needed_files(
    dbs: Seq<buffer::DatabaseModel>,
    current_seq: u64,
    d: int,
    t: int,
    c: int,
)
    requires
        0 <= d < dbs.len(),
        0 <= t < dbs[d].tables.len(),
        0 <= c < dbs[d].tables[t].1.chunks.len(),
        0 < dbs[d].tables[t].1.chunks[c].min_wal_seq,
    ensures
        safe_seq(dbs, current_seq) < dbs[d].tables[t].1.chunks[c].min_wal_seq,
{
    lemma_min_seq(dbs, d);
    lemma_tables_min(dbs[d].tables, t);
    lemma_chunks_min(dbs[d].tables[t].1.chunks, c);
}

/// The next log file may never go.
pub proof fn safe_seq_lies_below_the_next_file(dbs: Seq<buffer::DatabaseModel>, current_seq: u64)
    requires
        current_seq > 0,
        min_seq(dbs) == u64::MAX || min_seq(dbs) <= current_seq,
    ensures
        safe_seq(dbs, current_seq) < current_seq,
{
}

/// The number up to which log files may go.
pub fn safe_wal_seq(buffer: &Buffer, current_seq: u64) -> (r: u64)
    ensures
        r == safe_seq(buffer@, current_seq),
{
    let ghost dbs = buffer@;
    let mut min: u64 = u64::MAX;
    let mut i: usize = 0;
    assert(dbs.take(0) =~= Seq::<buffer::DatabaseModel>::empty());
    while i < buffer.databases.len()
        invariant
            i <= buffer.databases@.len(),
            dbs == buffer@,
            min == min_seq(dbs.take(i as int)),
        decreases buffer.databases@.len() - i,
    {
        assert(dbs.take(i + 1).drop_last() =~= dbs.take(i as int));
        assert(dbs.take(i + 1).last() == buffer.databases@[i as int]@);
        let db_min = database_min_seq(&buffer.databases[i]);
        if db_min < min {
            min = db_min;
        }
        i += 1;
    }
    assert(dbs.take(i as int) =~= dbs);
    if min == u64::MAX {
        current_seq.saturating_sub(1)
    } else {
        min.saturating_sub(1)
    }
}

fn database_min_seq(d: &buffer::Database) -> (r: u64)
    ensures
        r == tables_min_seq(d@.tables),
{
    let ghost tables = d@.tables;
    let mut min: u64 = u64::MAX;
    let mut j: usize = 0;
    assert(tables.take(0) =~= Seq::<(Seq<char>, chunk::TableModel)>::empty());
    while j < d.tables.len()
        invariant
            j <= d.tables@.len(),
            tables == d@.tables,
            min == tables_min_seq(tables.take(j as int)),
        decreases d.tables@.len() - j,
    {
        assert(tables.take(j + 1).drop_last() =~= tables.take(j as int));
        assert(tables.take(j + 1).last() == buffer::table_entry(d.tables@[j as int]));
        let ghost chunks = d.tables@[j as int]@.chunks;
        let mut table_min: u64 = u64::MAX;
        let mut k: usize = 0;
        assert(chunks.take(0) =~= Seq::<chunk::ChunkModel>::empty());
        while k < d.tables[j].chunks.len()
            invariant
                j < d.tables@.len(),
                chunks == d.tables@[j as int]@.chunks,
                k <= d.tables@[j as int].chunks@.len(),
                table_min == chunks_min_seq(chunks.take(k as int)),
            decreases d.tables@[j as int].chunks@.len() - k,
        {
            assert(chunks.take(k + 1).drop_last() =~= chunks.take(k as int));
            assert(chunks.take(k + 1).last() == d.tables@[j as int].chunks@[k as int]@);
            if d.tables[j].chunks[k].min_wal_seq < table_min {
                table_min = d.tables[j].chunks[k].min_wal_seq;
            }
            k += 1;
        }
        assert(chunks.take(k as int) =~= chunks);
        if table_min < min {
            min = table_min;
        }
        j += 1;
    }
    assert(tables.take(j as int) =~= tables);
    min
}

fn has_time(times: &Vec<i64>, time: i64) -> (r: bool)
    ensures
        r == times@.contains(time),
{
    let mut i: usize = 0;
    while i < times.len()
        invariant
            i <= times@.len(),
            forall|k: int| 0 <= k < i ==> times@[k] != time,
        decreases times@.len() - i,
    {
        if times[i] == time {
            assert(times@[i as int] == time);
            return true;
        }
        i += 1;
    }
    false
}

/// Removes the chunks of the given times from a table.
fn remove_chunks(table: &mut Table, times: &Vec<i64>)
    requires
        old(table).wf(),
    ensures
        final(table).wf(),
        final(table).name == old(table).name,
        final(table)@ == (chunk::TableModel {
            chunks: without_times(old(table)@.chunks, times@),
            ..old(table)@
        }),
{
    let ghost all = table@.chunks;
    let mut kept: Vec<Chunk> = Vec::new();
    let ghost mut done: int = 0;
    assert(all.skip(0) =~= all);
    assert(all.take(0) =~= Seq::<chunk::ChunkModel>::empty());
    assert(kept@.map_values(|c: Chunk| c@) =~= without_times(all.take(0), times@));
    while table.chunks.len() > 0
        invariant
            0 <= done <= all.len(),
            table.chunks@.map_values(|c: Chunk| c@) == all.skip(done),
            kept@.map_values(|c: Chunk| c@) == without_times(all.take(done), times@),
            forall|i: int| 0 <= i < table.chunks@.len() ==> (#[trigger] table.chunks@[i]).wf(),
            forall|i: int| 0 <= i < kept@.len() ==> (#[trigger] kept@[i]).wf(),
            table.name == old(table).name,
            table.schema == old(table).schema,
        decreases table.chunks@.len(),
    {
        let ghost was = table.chunks@;
        let ghost kept_before = kept@;
        assert(was.map_values(|c: Chunk| c@).len() == was.len());
        assert(was.map_values(|c: Chunk| c@)[0] == all.skip(done)[0]);
        let c = table.chunks.remove(0);
        assert(table.chunks@.map_values(|c: Chunk| c@) =~= all.skip(done + 1)) by {
            assert forall|k: int| 0 <= k < table.chunks@.len() implies table.chunks@.map_values(
                |c: Chunk| c@,
            )[k] == #[trigger] all.skip(done + 1)[k] by {
                assert(was.map_values(|c: Chunk| c@)[k + 1] == all.skip(done)[k + 1]);
                assert(table.chunks@[k] == was[k + 1]);
            }
        }
        assert(all.take(done + 1).drop_last() =~= all.take(done));
        assert(all.take(done + 1).last() == c@);
        assert forall|i: int| 0 <= i < table.chunks@.len() implies (
        #[trigger] table.chunks@[i]).wf() by {
            assert(table.chunks@[i] == was[i + 1]);
        }
        if !has_time(times, c.chunk_time) {
            kept.push(c);
            assert(kept@.map_values(|c: Chunk| c@) =~= kept_before.map_values(|c: Chunk| c@).push(
                c@,
            ));
        }
        proof {
            done = done + 1;
        }
    }
    assert(done == all.len()) by {
        assert(table.chunks@.map_values(|c: Chunk| c@).len() == all.skip(done).len());
    }
    assert(all.take(done) =~= all);
    table.chunks = kept;
}

proof fn lemma_without_times(chunks: Seq<chunk::ChunkModel>, times: Seq<i64>)
    ensures
        forall|c: chunk::ChunkModel| #[trigger]
            without_times(chunks, times).contains(c) <==> chunks.contains(c) && !times.contains(
                c.chunk_time,
            ),
    decreases chunks.len(),
{
    let kept = without_times(chunks, times);
    if chunks.len() > 0 {
        let rest = chunks.drop_last();
        let before = without_times(rest, times);
        lemma_without_times(rest, times);
        assert forall|c: chunk::ChunkModel| #[trigger]
            kept.contains(c) <==> chunks.contains(c) && !times.contains(c.chunk_time) by {
            assert(before.contains(c) <==> rest.contains(c) && !times.contains(c.chunk_time));
            if rest.contains(c) {
                let k = choose|k: int| 0 <= k < rest.len() && rest[k] == c;
                assert(chunks[k] == c);
            }
            if chunks.contains(c) && c != chunks.last() {
                let k = choose|k: int| 0 <= k < chunks.len() && chunks[k] == c;
                assert(rest[k] == c);
            }
            if kept != before {
                assert(kept =~= before.push(chunks.last()));
                if before.contains(c) {
                    let k = choose|k: int| 0 <= k < before.len() && before[k] == c;
                    assert(kept[k] == c);
                }
                if c == chunks.last() {
                    assert(kept[before.len() as int] == c);
                }
                if kept.contains(c) && c != chunks.last() {
                    let k = choose|k: int| 0 <= k < kept.len() && kept[k] == c;
                    assert(before[k] == c);
                }
            }
            assert(chunks[chunks.len() - 1] == chunks.last());
        }
    }
}

/// Handing chunks off takes exactly the chunks of the given times out of their table and
/// leaves every other table as it is.
pub proof fn hand_off_takes_only_the_flushed_chunks(
    dbs: Seq<buffer::DatabaseModel>,
    db: Seq<char>,
    table: Seq<char>,
    times: Seq<i64>,
    other_db: Seq<char>,
    other_table: Seq<char>,
)
    ensures
        other_db != db || other_table != table ==> buffer::table_of(
            without_chunks(dbs, db, table, times),
            other_db,
            other_table,
        ) == buffer::table_of(dbs, other_db, other_table),
        buffer::table_of(dbs, db, table) matches Some(t) ==> {
            &&& buffer::table_of(without_chunks(dbs, db, table, times), db, table) matches Some(u)
            &&& u.schema == t.schema
            &&& forall|c: chunk::ChunkModel| #[trigger]
                u.chunks.contains(c) <==> t.chunks.contains(c) && !times.contains(c.chunk_time)
        },
{
    match buffer::table_of(dbs, db, table) {
        Some(t) => {
            lemma_without_times(t.chunks, times);
            buffer::put_then_get(
                dbs,
                db,
                table,
                chunk::TableModel { chunks: without_times(t.chunks, times), ..t },
                other_db,
                other_table,
            );
        },
        None => {},
    }
}

proof fn lemma_without_times_once(chunks: Seq<chunk::ChunkModel>, times: Seq<i64>)
    requires
        chunk::times_once(chunks),
    ensures
        chunk::times_once(without_times(chunks, times)),
    decreases chunks.len(),
{
    if chunks.len() > 0 {
        let rest = chunks.drop_last();
        let before = without_times(rest, times);
        let kept = without_times(chunks, times);
        assert forall|i: int, j: int|
            #![trigger rest[i], rest[j]]
            0 <= i < j < rest.len() implies rest[i].chunk_time != rest[j].chunk_time by {
            assert(rest[i] == chunks[i] && rest[j] == chunks[j]);
        }
        lemma_without_times_once(rest, times);
        lemma_without_times(rest, times);
        if !times.contains(chunks.last().chunk_time) {
            assert forall|i: int, j: int|
                #![trigger kept[i], kept[j]]
                0 <= i < j < kept.len() implies kept[i].chunk_time != kept[j].chunk_time by {
                assert(kept[i] == before[i]);
                if j < before.len() {
                    assert(kept[j] == before[j]);
                } else {
                    assert(before.contains(before[i]));
                    let k = choose|k: int| 0 <= k < rest.len() && rest[k] == before[i];
                    assert(chunks[k] == before[i]);
                    assert(chunks[chunks.len() - 1] == kept[j]);
                }
            }
        }
    }
}

/// Handing chunks off lets no name stand twice, and gives no table two chunks of one time.
pub proof fn hand_off_keeps_the_buffer_in_order(
    dbs: Seq<buffer::DatabaseModel>,
    db: Seq<char>,
    table: Seq<char>,
    times: Seq<i64>,
)
    requires
        buffer::names_once(dbs),
        buffer::chunk_times_once(dbs),
    ensures
        buffer::names_once(without_chunks(dbs, db, table, times)),
        buffer::chunk_times_once(without_chunks(dbs, db, table, times)),
{
    match buffer::table_of(dbs, db, table) {
        Some(t) => {
            let value = chunk::TableModel { chunks: without_times(t.chunks, times), ..t };
            buffer::lemma_table_is_listed(dbs, db, table);
            lemma_without_times_once(t.chunks, times);
            buffer::putting_keeps_names_once(dbs, db, table, value);
            buffer::putting_keeps_chunk_times_once(dbs, db, table, value);
        },
        None => {},
    }
}

/// Removes the chunks of the given times from a table of the buffer, and returns the number
/// up to which log files may go. To be called once a durable copy of the chunks exists
/// elsewhere: what they hold by then is what leaves.
pub fn hand_off(
    buffer: &mut Buffer,
    db: &str,
    table: &str,
    chunk_times: &Vec<i64>,
    current_seq: u64,
) -> (r: u64)
    requires
        old(buffer).wf(),
    ensures
        final(buffer).wf(),
        final(buffer)@ == without_chunks(old(buffer)@, db@, table@, chunk_times@),
        r == safe_seq(final(buffer)@, current_seq),
{
    match buffer.get_table_mut(db, table) {
        Some(t) => {
            remove_chunks(t, chunk_times);
        },
        None => {},
    }
    safe_wal_seq(buffer, current_seq)
}

/// How the bytes of a chunk leave the agent.
#[derive(Debug)]
pub enum UploadPlan {
    /// Into a file below the agent's own directory.
    Local { path: String },
    /// Into the configured bucket.
    S3 { agent_id: String, time_min: i64 },
    /// To the server.
    Http { url: String, agent_id: String },
    /// Not at all: the configuration lacks what the backend needs.
    Refused { reason: String },
}

/// The address of the server, empty without one.
pub open spec fn server_url_of(c: Config) -> Seq<char> {
    match c.agent {
        Some(a) => a.server_url@,
        None => Seq::empty(),
    }
}

/// The name of the agent, `default` without one.
pub open spec fn agent_id_of(c: Config) -> Seq<char> {
    match c.agent {
        Some(a) => a.id@,
        None => "default"@,
    }
}

/// The path of a chunk that stays with the agent.
pub open spec fn local_path(dir: Seq<char>, db: Seq<char>, table: Seq<char>, chunk_time: i64) -> Seq<
    char,
> {
    text::path_in(
        text::path_in(text::path_in(dir, db), table),
        "local_"@ + decimal::signed_numeral(chunk_time as int) + ".parquet"@,
    )
}

/// Whether `plan` is the way that the configuration has for a chunk.
pub open spec fn plan_right(
    c: Config,
    db: Seq<char>,
    table: Seq<char>,
    chunk_time: i64,
    time_min: i64,
    plan: UploadPlan,
) -> bool {
    if c.flush.backend@ == "local"@ {
        plan matches UploadPlan::Local { path } && path@ == local_path(
            c.data.dir@,
            db,
            table,
            chunk_time,
        )
    } else if c.flush.backend@ == "s3"@ {
        if c.s3 is None {
            plan matches UploadPlan::Refused { reason } && reason@ == "S3 config missing"@
        } else {
            plan matches UploadPlan::S3 { agent_id, time_min: t } && agent_id@ == agent_id_of(c)
                && t == time_min
        }
    } else {
        plan matches UploadPlan::Http { url, agent_id } && url@ == http_upload::ingest_url(
            server_url_of(c),
            db,
            table,
            Some(chunk_time),
        ) && agent_id@ == agent_id_of(c)
    }
}

/// The way that the configuration has for a chunk.
pub fn plan_upload(config: &Config, db: &str, table: &str, chunk_time: i64, time_min: i64) -> (r:
    UploadPlan)
    ensures
        plan_right(*config, db@, table@, chunk_time, time_min, r),
{
    let agent_id = match &config.agent {
        Some(a) => a.id.clone(),
        None => "default".to_owned(),
    };
    if text::same(config.flush.backend.as_str(), "local") {
        let name = text::join3("local_", decimal::format_i64(chunk_time).as_str(), ".parquet");
        let db_dir = text::join_path(config.data.dir.as_str(), db);
        let table_dir = text::join_path(db_dir.as_str(), table);
        UploadPlan::Local { path: text::join_path(table_dir.as_str(), name.as_str()) }
    } else if text::same(config.flush.backend.as_str(), "s3") {
        if config.s3.is_none() {
            UploadPlan::Refused { reason: "S3 config missing".to_owned() }
        } else {
            UploadPlan::S3 { agent_id, time_min }
        }
    } else {
        let server_url = match &config.agent {
            Some(a) => a.server_url.clone(),
            None => String::new(),
        };
        assert(server_url@ =~= server_url_of(*config));
        UploadPlan::Http {
            url: http_upload::build_ingest_url(server_url.as_str(), db, table, Some(chunk_time)),
            agent_id,
        }
    }
}

/// The chunks of the given times, in the order of the times; a time without a chunk is
/// left out.
pub open spec fn chunks_at(chunks: Seq<chunk::ChunkModel>, times: Seq<i64>) -> Seq<
    chunk::ChunkModel,
>
    decreases times.len(),
{
    if times.len() == 0 {
        Seq::empty()
    } else {
        let before = chunks_at(chunks, times.drop_last());
        let p = chunk::chunk_position(chunks, times.last());
        if p < chunks.len() {
            before.push(chunks[p])
        } else {
            before
        }
    }
}

/// Copies of the chunks of the given times.
pub fn copy_chunks(table: &Table, times: &Vec<i64>) -> (r: Vec<Chunk>)
    ensures
        chunk::chunk_models(r@) == chunks_at(table@.chunks, times@),
{
    let ghost chunks = table@.chunks;
    let mut r: Vec<Chunk> = Vec::new();
    let mut i: usize = 0;
    assert(chunk::chunk_models(r@) =~= chunks_at(chunks, times@.take(0)));
    while i < times.len()
        invariant
            i <= times@.len(),
            chunks == table@.chunks,
            chunk::chunk_models(r@) == chunks_at(chunks, times@.take(i as int)),
        decreases times@.len() - i,
    {
        assert(times@.take(i + 1).drop_last() =~= times@.take(i as int));
        assert(times@.take(i + 1).last() == times@[i as int]);
        proof {
            chunk::lemma_chunk_position(chunks, times@[i as int]);
        }
        let mut j: usize = 0;
        while j < table.chunks.len() && table.chunks[j].chunk_time != times[i]
            invariant
                i < times@.len(),
                j <= table.chunks@.len(),
                chunks == table@.chunks,
                forall|k: int|
                    0 <= k < j ==> (#[trigger] table.chunks@[k]).chunk_time != times@[i as int],
            decreases table.chunks@.len() - j,
        {
            j += 1;
        }
        let ghost p = chunk::chunk_position(chunks, times@[i as int]);
        assert(j == p) by {
            if p < j {
                assert(chunks[p].chunk_time == table.chunks@[p].chunk_time);
            }
            if j < p {
                assert(chunks[j as int].chunk_time == table.chunks@[j as int].chunk_time);
            }
        }
        if j < table.chunks.len() {
            let ghost was = r@;
            let c = table.chunks[j].clone();
            r.push(c);
            assert(chunk::chunk_models(r@) =~= chunk::chunk_models(was).push(c@));
        }
        i += 1;
    }
    assert(times@.take(i as int) =~= times@);
    r
}

proof fn lemma_chunks_at(chunks: Seq<chunk::ChunkModel>, times: Seq<i64>)
    requires
        chunk::times_once(chunks),
    ensures
        forall|c: chunk::ChunkModel| #[trigger]
            chunks_at(chunks, times).contains(c) <==> chunks.contains(c) && times.contains(
                c.chunk_time,
            ),
    decreases times.len(),
{
    let found = chunks_at(chunks, times);
    if times.len() > 0 {
        let rest = times.drop_last();
        let before = chunks_at(chunks, rest);
        let time = times.last();
        let p = chunk::chunk_position(chunks, time);
        lemma_chunks_at(chunks, rest);
        chunk::lemma_chunk_position(chunks, time);
        assert forall|c: chunk::ChunkModel| #[trigger]
            found.contains(c) <==> chunks.contains(c) && times.contains(c.chunk_time) by {
            assert(before.contains(c) <==> chunks.contains(c) && rest.contains(c.chunk_time));
            assert(times =~= rest.push(time));
            assert(times.contains(c.chunk_time) <==> rest.contains(c.chunk_time) || c.chunk_time
                == time) by {
                if rest.contains(c.chunk_time) {
                    let k = choose|k: int| 0 <= k < rest.len() && rest[k] == c.chunk_time;
                    assert(times[k] == c.chunk_time);
                }
                if c.chunk_time == time {
                    assert(times[times.len() - 1] == c.chunk_time);
                }
                if times.contains(c.chunk_time) && c.chunk_time != time {
                    let k = choose|k: int| 0 <= k < times.len() && times[k] == c.chunk_time;
                    assert(rest[k] == c.chunk_time);
                }
            }
            if chunks.contains(c) && c.chunk_time == time {
                let k = choose|k: int| 0 <= k < chunks.len() && chunks[k] == c;
                assert(chunks[k] == c && chunks[p].chunk_time == time);
                assert(k == p);
            }
            if p < chunks.len() {
                assert(found =~= before.push(chunks[p]));
                assert(chunks.contains(chunks[p]));
                if before.contains(c) {
                    let k = choose|k: int| 0 <= k < before.len() && before[k] == c;
                    assert(found[k] == c);
                }
                if c == chunks[p] {
                    assert(found[before.len() as int] == c);
                }
                if found.contains(c) && c != chunks[p] {
                    let k = choose|k: int| 0 <= k < found.len() && found[k] == c;
                    assert(before[k] == c);
                }
            }
        }
    }
}

/// A batch for another time leaves the chunks of the given times as they are.
pub proof fn batch_for_another_time_leaves_chunks(
    t: chunk::TableModel,
    batch: wal::BatchModel,
    wal_seq: u64,
    times: Seq<i64>,
)
    requires
        !times.contains(batch.chunk_time),
    ensures
        chunks_at(wal_core::applied(t, batch, wal_seq).chunks, times) == chunks_at(t.chunks, times),
    decreases times.len(),
{
    if times.len() > 0 {
        let rest = times.drop_last();
        let time = times.last();
        assert(times[times.len() - 1] == time);
        assert(!rest.contains(batch.chunk_time)) by {
            if rest.contains(batch.chunk_time) {
                let k = choose|k: int| 0 <= k < rest.len() && rest[k] == batch.chunk_time;
                assert(times[k] == batch.chunk_time);
            }
        }
        batch_for_another_time_leaves_chunks(t, batch, wal_seq, rest);
        let after = wal_core::applied(t, batch, wal_seq).chunks;
        wal_core::lemma_applied_chunks(t, batch, wal_seq);
        chunk::lemma_chunk_position(t.chunks, time);
        chunk::lemma_chunk_position(after, time);
        let p = chunk::chunk_position(t.chunks, time);
        let q = chunk::chunk_position(after, time);
        if p < t.chunks.len() {
            assert(after[p] == t.chunks[p]);
            if q < p {
                assert(t.chunks[q].chunk_time == time);
            }
        } else if q < after.len() {
            assert(after[q].chunk_time == time);
            assert(t.chunks[q].chunk_time == time);
        }
    }
}

/// What leaves a table is what was encoded, where no row joined its chunks in between:
/// where the chunks of the given times are at the hand-off, `now`, what they were when they
/// were copied for encoding, `then`, the chunks that leave are exactly the copied ones, so
/// every row that leaves was encoded.
pub proof fn chunks_that_leave_were_encoded(
    then: Seq<buffer::DatabaseModel>,
    now: Seq<buffer::DatabaseModel>,
    db: Seq<char>,
    table: Seq<char>,
    times: Seq<i64>,
)
    requires
        buffer::chunk_times_once(now),
        buffer::table_of(then, db, table) is Some,
        buffer::table_of(now, db, table) is Some,
        chunks_at(buffer::table_of(now, db, table)->0.chunks, times) == chunks_at(
            buffer::table_of(then, db, table)->0.chunks,
            times,
        ),
    ensures
        buffer::table_of(without_chunks(now, db, table, times), db, table) matches Some(left)
            && forall|c: chunk::ChunkModel|
            buffer::table_of(now, db, table)->0.chunks.contains(c) && !(
            #[trigger] left.chunks.contains(c)) <==> chunks_at(
                buffer::table_of(then, db, table)->0.chunks,
                times,
            ).contains(c),
{
    let chunks = buffer::table_of(now, db, table)->0.chunks;
    buffer::lemma_table_is_listed(now, db, table);
    lemma_chunks_at(chunks, times);
    hand_off_takes_only_the_flushed_chunks(now, db, table, times, db, table);
    let left = buffer::table_of(without_chunks(now, db, table, times), db, table)->0;
    assert forall|c: chunk::ChunkModel|
        chunks.contains(c) && !(#[trigger] left.chunks.contains(c)) <==> chunks_at(
            buffer::table_of(then, db, table)->0.chunks,
            times,
        ).contains(c) by {
        assert(chunks_at(chunks, times).contains(c) <==> chunks.contains(c) && times.contains(
            c.chunk_time,
        ));
    }
}

/// Where a snapshot stands with the table that it is at.
#[derive(Debug, Clone, Copy)]
pub enum Phase {
    Ready,
    Encoding { chunk_time: i64, time_min: i64 },
    Uploading { chunk_time: i64, size: u64 },
    Staging,
    SavingMeta { uploaded: bool, through: u64 },
    CleaningLog { uploaded: bool },
    Ended,
}

/// A snapshot that runs: the tables to flush, the one that it is at, and how many tables
/// were uploaded.
#[derive(Debug)]
pub struct SnapshotRun {
    pub tasks: Vec<SnapshotTask>,
    pub at: usize,
    pub flushed: usize,
    pub phase: Phase,
}

/// What the outside reports to a snapshot.
pub enum SnapshotEvent {
    /// Go on with the next table.
    Next,
    /// The chunks were encoded into so many bytes, or that failed.
    Encoded(Result<u64, String>),
    Uploaded(Result<(), String>),
    Staged(Result<(), String>),
    MetaSaved(Result<(), String>),
    LogCleaned,
}

/// What a snapshot asks the outside to do.
pub enum SnapshotAction {
    Encode { chunks: Vec<Chunk> },
    Upload { plan: UploadPlan },
    /// Save the bytes, durably, under the path.
    Stage { path: String },
    /// Save the flushed number, durably.
    SaveMeta { through: u64 },
    /// Remove the log files up to the number.
    CleanLog { through: u64 },
    /// Report `Next`.
    Continue,
    Done { flushed: usize },
    Failed { reason: String },
}

impl SnapshotRun {
    pub open spec fn wf(&self) -> bool {
        &&& self.at <= self.tasks@.len()
        &&& self.flushed <= self.at
        &&& !(self.phase is Ready || self.phase is Ended) ==> self.at < self.tasks@.len()
    }

    /// Whether the snapshot waits for the event.
    pub open spec fn expects(&self, event: SnapshotEvent) -> bool {
        match event {
            SnapshotEvent::Next => self.phase is Ready,
            SnapshotEvent::Encoded(_) => self.phase is Encoding,
            SnapshotEvent::Uploaded(_) => self.phase is Uploading,
            SnapshotEvent::Staged(_) => self.phase is Staging,
            SnapshotEvent::MetaSaved(_) => self.phase is SavingMeta,
            SnapshotEvent::LogCleaned => self.phase is CleaningLog,
        }
    }

    pub open spec fn task(&self) -> TaskModel {
        self.tasks@[self.at as int]@
    }

    /// A snapshot of the chunks before the marker.
    pub fn begin(buffer: &Buffer, marker: i64) -> (r: SnapshotRun)
        ensures
            r.wf(),
            r.phase is Ready,
            r.at == 0,
            r.flushed == 0,
            task_models(r.tasks@) == due_tasks(buffer@, marker),
    {
        SnapshotRun { tasks: select_chunks(buffer, marker), at: 0, flushed: 0, phase: Phase::Ready }
    }

    /// Tests whether the snapshot waits for the event.
    pub fn waits_for(&self, event: &SnapshotEvent) -> (r: bool)
        ensures
            r == self.expects(*event),
    {
        match event {
            SnapshotEvent::Next => matches!(self.phase, Phase::Ready),
            SnapshotEvent::Encoded(_) => matches!(self.phase, Phase::Encoding { .. }),
            SnapshotEvent::Uploaded(_) => matches!(self.phase, Phase::Uploading { .. }),
            SnapshotEvent::Staged(_) => matches!(self.phase, Phase::Staging),
            SnapshotEvent::MetaSaved(_) => matches!(self.phase, Phase::SavingMeta { .. }),
            SnapshotEvent::LogCleaned => matches!(self.phase, Phase::CleaningLog { .. }),
        }
    }

    /// Takes an event and says what to do next. The chunks of a table leave the buffer when
    /// the copy of them that was encoded was uploaded, or saved as a staged file. They leave
    /// by their times: a row that joined one of them after the copy was taken is not in the
    /// copy, and leaves too. The log is cleaned only when the flushed number was saved.
    pub fn step(
        &mut self,
        scheduler: &mut SnapshotScheduler,
        buffer: &mut Buffer,
        current_seq: u64,
        now_ms: i64,
        event: SnapshotEvent,
    ) -> (r: SnapshotAction)
        requires
            old(self).wf(),
            old(buffer).wf(),
            old(self).expects(event),
        ensures
            final(self).wf(),
            final(buffer).wf(),
            final(self).tasks == old(self).tasks,
            final(scheduler).config == old(scheduler).config,
            final(scheduler).staging_dir == old(scheduler).staging_dir,
            final(scheduler).hot == old(scheduler).hot,
            !(event matches SnapshotEvent::Uploaded(_)) ==> *final(scheduler) == *old(scheduler),
            !(event matches SnapshotEvent::Uploaded(Ok(_))) && !(event matches SnapshotEvent::Staged(
                Ok(_),
            )) ==> *final(buffer) == *old(buffer),
            !(event is LogCleaned) ==> final(self).at == old(self).at && final(self).flushed
                == old(self).flushed,
            match event {
                SnapshotEvent::Next => if old(self).at == old(self).tasks@.len() {
                    r == (SnapshotAction::Done { flushed: old(self).flushed })
                        && final(self).phase is Ended
                } else {
                    let task = old(self).task();
                    match buffer::table_of(old(buffer)@, task.db, task.table) {
                        Some(t) => {
                            let chunks = chunks_at(t.chunks, task.chunk_times);
                            &&& r matches SnapshotAction::Encode { chunks: c }
                            &&& chunk::chunk_models(c@) == chunks
                            &&& final(self).phase == (if chunks.len() > 0 {
                                Phase::Encoding {
                                    chunk_time: chunks[0].chunk_time,
                                    time_min: chunks[0].time_min,
                                }
                            } else {
                                Phase::Encoding { chunk_time: 0, time_min: 0 }
                            })
                        },
                        None => {
                            &&& r matches SnapshotAction::Failed { reason }
                            &&& reason@ == "table not found"@
                            &&& final(self).phase is Ended
                        },
                    }
                },
                SnapshotEvent::Encoded(Ok(size)) => {
                    let task = old(self).task();
                    &&& r matches SnapshotAction::Upload { plan }
                    &&& plan_right(
                        old(scheduler).config,
                        task.db,
                        task.table,
                        old(self).phase->Encoding_chunk_time,
                        old(self).phase->Encoding_time_min,
                        plan,
                    )
                    &&& final(self).phase == (Phase::Uploading {
                        chunk_time: old(self).phase->Encoding_chunk_time,
                        size,
                    })
                },
                SnapshotEvent::Encoded(Err(e)) => {
                    &&& r matches SnapshotAction::Failed { reason }
                    &&& reason@ == "parquet write: "@ + e@
                    &&& final(self).phase is Ended
                },
                SnapshotEvent::Uploaded(Ok(())) => {
                    let task = old(self).task();
                    let through = safe_seq(final(buffer)@, current_seq);
                    &&& final(buffer)@ == without_chunks(
                        old(buffer)@,
                        task.db,
                        task.table,
                        task.chunk_times,
                    )
                    &&& r == (SnapshotAction::SaveMeta { through })
                    &&& final(self).phase == (Phase::SavingMeta { uploaded: true, through })
                    &&& final(scheduler).last_snapshot == (SnapshotStatus {
                        last_at: Some(now_ms),
                        upload_ok: true,
                        last_size_bytes: old(self).phase->Uploading_size,
                        ..old(scheduler).last_snapshot
                    })
                },
                SnapshotEvent::Uploaded(Err(_)) => {
                    let task = old(self).task();
                    &&& r matches SnapshotAction::Stage { path }
                    &&& path@ == http_upload::staged_path(
                        old(scheduler).staging_dir@,
                        task.db,
                        task.table,
                        old(self).phase->Uploading_chunk_time,
                    )
                    &&& final(self).phase is Staging
                    &&& final(scheduler).last_snapshot == (SnapshotStatus {
                        upload_ok: false,
                        last_size_bytes: old(self).phase->Uploading_size,
                        ..old(scheduler).last_snapshot
                    })
                },
                SnapshotEvent::Staged(Ok(())) => {
                    let task = old(self).task();
                    let through = safe_seq(final(buffer)@, current_seq);
                    &&& final(buffer)@ == without_chunks(
                        old(buffer)@,
                        task.db,
                        task.table,
                        task.chunk_times,
                    )
                    &&& r == (SnapshotAction::SaveMeta { through })
                    &&& final(self).phase == (Phase::SavingMeta { uploaded: false, through })
                },
                SnapshotEvent::Staged(Err(e)) => {
                    &&& r matches SnapshotAction::Failed { reason }
                    &&& reason@ == "staging save: "@ + e@
                    &&& final(self).phase is Ended
                },
                SnapshotEvent::MetaSaved(Ok(())) => {
                    &&& r == (SnapshotAction::CleanLog {
                        through: old(self).phase->SavingMeta_through,
                    })
                    &&& final(self).phase == (Phase::CleaningLog {
                        uploaded: old(self).phase->SavingMeta_uploaded,
                    })
                },
                SnapshotEvent::MetaSaved(Err(e)) => {
                    &&& r == (SnapshotAction::Failed { reason: e })
                    &&& final(self).phase is Ended
                },
                SnapshotEvent::LogCleaned => {
                    &&& r is Continue
                    &&& final(self).phase is Ready
                    &&& final(self).at == old(self).at + 1
                    &&& final(self).flushed == old(self).flushed + (if old(
                        self,
                    ).phase->CleaningLog_uploaded {
                        1int
                    } else {
                        0int
                    })
                },
            },
    {
        match event {
            SnapshotEvent::Next => {
                if self.at == self.tasks.len() {
                    self.phase = Phase::Ended;
                    return SnapshotAction::Done { flushed: self.flushed };
                }
                let task = &self.tasks[self.at];
                match buffer.get_table(task.db.as_str(), task.table.as_str()) {
                    Some(t) => {
                        let chunks = copy_chunks(t, &task.chunk_times);
                        assert(chunk::chunk_models(chunks@).len() == chunks@.len());
                        if chunks.len() > 0 {
                            assert(chunk::chunk_models(chunks@)[0] == chunks@[0]@);
                            self.phase = Phase::Encoding {
                                chunk_time: chunks[0].chunk_time,
                                time_min: chunks[0].time_min,
                            };
                        } else {
                            self.phase = Phase::Encoding { chunk_time: 0, time_min: 0 };
                        }
                        SnapshotAction::Encode { chunks }
                    },
                    None => {
                        self.phase = Phase::Ended;
                        SnapshotAction::Failed { reason: "table not found".to_owned() }
                    },
                }
            },
            SnapshotEvent::Encoded(outcome) => match outcome {
                Ok(size) => match self.phase {
                    Phase::Encoding { chunk_time, time_min } => {
                        let task = &self.tasks[self.at];
                        let plan = plan_upload(
                            &scheduler.config,
                            task.db.as_str(),
                            task.table.as_str(),
                            chunk_time,
                            time_min,
                        );
                        self.phase = Phase::Uploading { chunk_time, size };
                        SnapshotAction::Upload { plan }
                    },
                    _ => SnapshotAction::Continue,
                },
                Err(e) => {
                    self.phase = Phase::Ended;
                    SnapshotAction::Failed { reason: text::join2("parquet write: ", e.as_str()) }
                },
            },
            SnapshotEvent::Uploaded(outcome) => match self.phase {
                Phase::Uploading { chunk_time, size } => {
                    let task = &self.tasks[self.at];
                    match outcome {
                        Ok(()) => {
                            scheduler.note_success(size, now_ms);
                            let through = hand_off(
                                buffer,
                                task.db.as_str(),
                                task.table.as_str(),
                                &task.chunk_times,
                                current_seq,
                            );
                            self.phase = Phase::SavingMeta { uploaded: true, through };
                            SnapshotAction::SaveMeta { through }
                        },
                        Err(_) => {
                            scheduler.note_failure(size);
                            let path = http_upload::staging_path(
                                scheduler.staging_dir.as_str(),
                                task.db.as_str(),
                                task.table.as_str(),
                                chunk_time,
                            );
                            self.phase = Phase::Staging;
                            SnapshotAction::Stage { path }
                        },
                    }
                },
                _ => SnapshotAction::Continue,
            },
            SnapshotEvent::Staged(outcome) => match outcome {
                Ok(()) => {
                    let task = &self.tasks[self.at];
                    let through = hand_off(
                        buffer,
                        task.db.as_str(),
                        task.table.as_str(),
                        &task.chunk_times,
                        current_seq,
                    );
                    self.phase = Phase::SavingMeta { uploaded: false, through };
                    SnapshotAction::SaveMeta { through }
                },
                Err(e) => {
                    self.phase = Phase::Ended;
                    SnapshotAction::Failed { reason: text::join2("staging save: ", e.as_str()) }
                },
            },
            SnapshotEvent::MetaSaved(outcome) => match outcome {
                Ok(()) => match self.phase {
                    Phase::SavingMeta { uploaded, through } => {
                        self.phase = Phase::CleaningLog { uploaded };
                        SnapshotAction::CleanLog { through }
                    },
                    _ => SnapshotAction::Continue,
                },
                Err(e) => {
                    self.phase = Phase::Ended;
                    SnapshotAction::Failed { reason: e }
                },
            },
            SnapshotEvent::LogCleaned => match self.phase {
                Phase::CleaningLog { uploaded } => {
                    assert(self.at < self.tasks.len());
                    self.at = self.at + 1;
                    if uploaded {
                        self.flushed = self.flushed + 1;
                    }
                    self.phase = Phase::Ready;
                    SnapshotAction::Continue
                },
                _ => SnapshotAction::Continue,
            },
        }
    }
}

/// A staged file that is to be uploaded again.
#[derive(Debug)]
pub struct StagedUpload {
    pub db: String,
    pub table: String,
    pub name: String,
    pub chunk_time: i64,
    pub plan: UploadPlan,
}

/// A file found in the staging directory: database, table and name.
#[derive(Debug)]
pub struct StagedEntry {
    pub db: String,
    pub table: String,
    pub name: String,
}

/// Whether `upload` is the retry of `entry`.
pub open spec fn retry_right(c: Config, entry: StagedEntry, upload: StagedUpload) -> bool {
    &&& upload.db@ == entry.db@
    &&& upload.table@ == entry.table@
    &&& upload.name@ == entry.name@
    &&& http_upload::staged_time(entry.name@) == Some(upload.chunk_time as int)
    &&& plan_right(
        c,
        entry.db@,
        entry.table@,
        upload.chunk_time,
        upload.chunk_time,
        upload.plan,
    )
}

/// The entries whose name denotes a chunk's time.
pub open spec fn recognized(entries: Seq<StagedEntry>) -> Seq<StagedEntry>
    decreases entries.len(),
{
    if entries.len() == 0 {
        Seq::empty()
    } else if http_upload::staged_time(entries.last().name@) is Some {
        recognized(entries.drop_last()).push(entries.last())
    } else {
        recognized(entries.drop_last())
    }
}

impl SnapshotScheduler {
    /// The uploads to try again for the files of the staging directory; files of other
    /// names are left alone.
    pub fn retry_staging(&self, entries: &Vec<StagedEntry>) -> (r: Vec<StagedUpload>)
        ensures
            r@.len() == recognized(entries@).len(),
            forall|i: int|
                0 <= i < r@.len() ==> retry_right(
                    self.config,
                    recognized(entries@)[i],
                    #[trigger] r@[i],
                ),
    {
        let mut r: Vec<StagedUpload> = Vec::new();
        let mut i: usize = 0;
        assert(entries@.take(0) =~= Seq::<StagedEntry>::empty());
        while i < entries.len()
            invariant
                i <= entries@.len(),
                r@.len() == recognized(entries@.take(i as int)).len(),
                forall|k: int|
                    0 <= k < r@.len() ==> retry_right(
                        self.config,
                        recognized(entries@.take(i as int))[k],
                        #[trigger] r@[k],
                    ),
            decreases entries@.len() - i,
        {
            let entry = &entries[i];
            assert(entries@.take(i + 1).drop_last() =~= entries@.take(i as int));
            assert(entries@.take(i + 1).last() == *entry);
            match http_upload::staged_chunk_time(entry.name.as_str()) {
                Some(chunk_time) => {
                    let plan = plan_upload(
                        &self.config,
                        entry.db.as_str(),
                        entry.table.as_str(),
                        chunk_time,
                        chunk_time,
                    );
                    r.push(
                        StagedUpload {
                            db: entry.db.clone(),
                            table: entry.table.clone(),
                            name: entry.name.clone(),
                            chunk_time,
                            plan,
                        },
                    );
                },
                None => {},
            }
            i += 1;
        }
        assert(entries@.take(i as int) =~= entries@);
        r
    }
}

/// How many staged files were delivered.
#[derive(Debug, Clone, Copy)]
pub struct RetryTally {
    pub delivered: usize,
}

impl RetryTally {
    /// Takes the outcome of one retry; the file is to be removed exactly where it was
    /// delivered.
    pub fn record(&mut self, outcome: &Result<(), String>) -> (remove: bool)
        requires
            old(self).delivered < usize::MAX,
        ensures
            remove == outcome is Ok,
            final(self).delivered == old(self).delivered + (if outcome is Ok {
                1int
            } else {
                0int
            }),
    {
        match outcome {
            Ok(()) => {
                self.delivered = self.delivered + 1;
                true
            },
            Err(_) => false,
        }
    }
}

/// A chunk that was staged after a failed upload is tried again under its own time.
pub proof fn staged_chunk_is_retried(entries: Seq<StagedEntry>, i: int, chunk_time: i64)
    requires
        0 <= i < entries.len(),
        entries[i].name@ == http_upload::staged_name(chunk_time),
    ensures
        recognized(entries).contains(entries[i]),
        http_upload::staged_time(entries[i].name@) == Some(chunk_time as int),
    decreases entries.len(),
{
    http_upload::staged_name_reads_back(chunk_time);
    let all = recognized(entries);
    if i == entries.len() - 1 {
        assert(all.last() == entries[i]);
    } else {
        let rest = entries.drop_last();
        assert(rest[i] == entries[i]);
        staged_chunk_is_retried(rest, i, chunk_time);
        let k = choose|k: int| 0 <= k < recognized(rest).len() && recognized(rest)[k] == rest[i];
        assert(all[k] == entries[i]);
    }
}

} // verus!
