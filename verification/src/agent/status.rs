//! The status report of an agent.

use crate::agent::buffer;
use crate::agent::buffer::chunk;
use crate::agent::buffer::chunk::{Chunk, FieldDef, Table};
use crate::agent::buffer::{Buffer, Database};
use crate::agent::flush::scheduler::SnapshotStatus;
use crate::agent::wal::wal_core::WalManager;
use crate::config;
use crate::config::Config;
use crate::http;
use crate::text;
use crate::time;
use vstd::prelude::*;

verus! {

#[derive(Debug)]
pub struct TableStatus {
    pub name: String,
    pub row_count: usize,
    pub chunk_count: usize,
    pub time_min: String,
    pub time_max: String,
    pub tag_keys: Vec<String>,
    /// Name and type of each field.
    pub field_defs: Vec<(String, String)>,
    pub memory_bytes: usize,
}

#[derive(Debug)]
pub struct DatabaseStatus {
    pub name: String,
    pub tables: Vec<TableStatus>,
}

#[derive(Debug)]
pub struct BufferStatus {
    pub database_count: usize,
    pub total_rows: usize,
    pub total_memory_bytes: usize,
    pub memory_limit_bytes: usize,
    pub databases: Vec<DatabaseStatus>,
}

#[derive(Debug)]
pub struct WalStatus {
    pub current_sequence: u64,
    pub pending_ops: usize,
}

#[derive(Debug)]
pub struct SnapshotReport {
    pub last_snapshot_at: Option<String>,
    pub last_upload_status: String,
    pub last_upload_size_bytes: u64,
    pub next_snapshot_in_secs: i64,
}

#[derive(Debug)]
pub struct ConnectionStatus {
    pub server_url: Option<String>,
    pub registered: bool,
    pub heartbeat_failures: u64,
}

/// What an agent tells of itself, besides its machine.
#[derive(Debug)]
pub struct StatusReport {
    pub agent_id: String,
    pub started_at: String,
    pub buffer: BufferStatus,
    pub wal: WalStatus,
    pub snapshot: SnapshotReport,
    pub connection: ConnectionStatus,
}

/// The least time of a row of the chunks; `i64::MAX` without one.
pub open spec fn least_time(chunks: Seq<chunk::ChunkModel>) -> i64
    decreases chunks.len(),
{
    if chunks.len() == 0 {
        i64::MAX
    } else {
        chunk::min_i64(least_time(chunks.drop_last()), chunks.last().time_min)
    }
}

/// The greatest time of a row of the chunks; `i64::MIN` without one.
pub open spec fn greatest_time(chunks: Seq<chunk::ChunkModel>) -> i64
    decreases chunks.len(),
{
    if chunks.len() == 0 {
        i64::MIN
    } else {
        chunk::max_i64(greatest_time(chunks.drop_last()), chunks.last().time_max)
    }
}

pub open spec fn row_total(chunks: Seq<chunk::ChunkModel>) -> nat
    decreases chunks.len(),
{
    if chunks.len() == 0 {
        0
    } else {
        row_total(chunks.drop_last()) + chunks.last().rows.len()
    }
}

pub open spec fn tables_row_total(tables: Seq<(Seq<char>, chunk::TableModel)>) -> nat
    decreases tables.len(),
{
    if tables.len() == 0 {
        0
    } else {
        tables_row_total(tables.drop_last()) + row_total(tables.last().1.chunks)
    }
}

/// The number of rows in the buffer.
pub open spec fn buffer_row_total(dbs: Seq<buffer::DatabaseModel>) -> nat
    decreases dbs.len(),
{
    if dbs.len() == 0 {
        0
    } else {
        buffer_row_total(dbs.drop_last()) + tables_row_total(dbs.last().tables)
    }
}

/// `value`, or 0 where it stands for no time.
pub open spec fn time_or_zero(value: i64, none: i64) -> i64 {
    if value == none {
        0
    } else {
        value
    }
}

/// Whether `r` is the report of a table.
pub open spec fn table_status_right(
    entry: (Seq<char>, chunk::TableModel),
    r: TableStatus,
) -> bool {
    let t = entry.1;
    &&& r.name@ == entry.0
    &&& r.row_count == chunk::capped(row_total(t.chunks))
    &&& r.chunk_count == t.chunks.len()
    &&& r.time_min@ == time::iso_of(time_or_zero(least_time(t.chunks), i64::MAX))
    &&& r.time_max@ == time::iso_of(time_or_zero(greatest_time(t.chunks), i64::MIN))
    &&& text::views(r.tag_keys@) == t.schema.tag_keys
    &&& text::pair_views(r.field_defs@) == t.schema.fields.map_values(
        |f: (Seq<char>, chunk::FieldType)| (f.0, f.1.spec_name()),
    )
    &&& r.memory_bytes == chunk::capped(chunk::chunks_size(t.chunks))
}

/// Whether `r` is the report of a database.
pub open spec fn database_status_right(d: buffer::DatabaseModel, r: DatabaseStatus) -> bool {
    &&& r.name@ == d.name
    &&& r.tables@.len() == d.tables.len()
    &&& forall|j: int|
        0 <= j < d.tables.len() ==> table_status_right(d.tables[j], #[trigger] r.tables@[j])
}

/// Whether `r` is the report of the buffer.
pub open spec fn buffer_status_right(
    dbs: Seq<buffer::DatabaseModel>,
    memory_limit: nat,
    r: BufferStatus,
) -> bool {
    &&& r.database_count == dbs.len()
    &&& r.total_rows == chunk::capped(buffer_row_total(dbs))
    &&& r.total_memory_bytes == chunk::capped(buffer::dbs_size(dbs))
    &&& r.memory_limit_bytes == memory_limit
    &&& r.databases@.len() == dbs.len()
    &&& forall|i: int|
        0 <= i < dbs.len() ==> database_status_right(dbs[i], #[trigger] r.databases@[i])
}

/// Name and type of each field.
pub fn fields_of(defs: &Vec<FieldDef>) -> (r: Vec<(String, String)>)
    ensures
        text::pair_views(r@) == defs@.map_values(
            |f: FieldDef| (f.name@, f.value_type.spec_name()),
        ),
{
    let mut r: Vec<(String, String)> = Vec::new();
    let mut i: usize = 0;
    while i < defs.len()
        invariant
            i <= defs@.len(),
            r@.len() == i,
            forall|k: int|
                0 <= k < i ==> (#[trigger] r@[k]).0@ == defs@[k].name@ && r@[k].1@
                    == defs@[k].value_type.spec_name(),
        decreases defs@.len() - i,
    {
        r.push((defs[i].name.clone(), defs[i].value_type.name().to_owned()));
        i += 1;
    }
    assert(text::pair_views(r@) =~= defs@.map_values(
        |f: FieldDef| (f.name@, f.value_type.spec_name()),
    ));
    r
}

/// The first and the last time of some chunks, 0 where they have none, and their number of
/// rows.
pub fn time_span(parts: &Vec<Chunk>) -> (r: (i64, i64, usize))
    ensures
        r.0 == time_or_zero(least_time(chunk::chunk_models(parts@)), i64::MAX),
        r.1 == time_or_zero(greatest_time(chunk::chunk_models(parts@)), i64::MIN),
        r.2 == chunk::capped(row_total(chunk::chunk_models(parts@))),
{
    let ghost chunks = chunk::chunk_models(parts@);
    let mut least: i64 = i64::MAX;
    let mut greatest: i64 = i64::MIN;
    let mut rows: usize = 0;
    let mut i: usize = 0;
    assert(chunks.take(0) =~= Seq::<chunk::ChunkModel>::empty());
    while i < parts.len()
        invariant
            i <= parts@.len(),
            chunks == chunk::chunk_models(parts@),
            least == least_time(chunks.take(i as int)),
            greatest == greatest_time(chunks.take(i as int)),
            rows == chunk::capped(row_total(chunks.take(i as int))),
        decreases parts@.len() - i,
    {
        let c = &parts[i];
        assert(chunks.take(i + 1).drop_last() =~= chunks.take(i as int));
        assert(chunks.take(i + 1).last() == c@);
        if c.time_min < least {
            least = c.time_min;
        }
        if c.time_max > greatest {
            greatest = c.time_max;
        }
        rows = rows.saturating_add(c.rows.len());
        i += 1;
    }
    assert(chunks.take(i as int) =~= chunks);
    if least == i64::MAX {
        least = 0;
    }
    if greatest == i64::MIN {
        greatest = 0;
    }
    (least, greatest, rows)
}

/// The report of a table.
pub fn table_status(table: &Table) -> (r: TableStatus)
    ensures
        table_status_right(buffer::table_entry(*table), r),
{
    let (time_min, time_max, row_count) = time_span(&table.chunks);
    let r = TableStatus {
        name: table.name.clone(),
        row_count,
        chunk_count: table.chunks.len(),
        time_min: time::ms_to_iso(time_min),
        time_max: time::ms_to_iso(time_max),
        tag_keys: text::copy_list(&table.schema.tag_keys),
        field_defs: fields_of(&table.schema.field_defs),
        memory_bytes: table.estimated_size(),
    };
    assert(text::pair_views(r.field_defs@) =~= table@.schema.fields.map_values(
        |f: (Seq<char>, chunk::FieldType)| (f.0, f.1.spec_name()),
    ));
    r
}

fn database_status(d: &Database) -> (r: DatabaseStatus)
    ensures
        database_status_right(d@, r),
{
    let mut tables: Vec<TableStatus> = Vec::new();
    let mut j: usize = 0;
    while j < d.tables.len()
        invariant
            j <= d.tables@.len(),
            tables@.len() == j,
            forall|k: int|
                0 <= k < j ==> table_status_right(d@.tables[k], #[trigger] tables@[k]),
        decreases d.tables@.len() - j,
    {
        assert(d@.tables[j as int] == buffer::table_entry(d.tables@[j as int]));
        tables.push(table_status(&d.tables[j]));
        j += 1;
    }
    DatabaseStatus { name: d.name.clone(), tables }
}

fn count_rows(d: &Database) -> (r: usize)
    ensures
        r == chunk::capped(tables_row_total(d@.tables)),
{
    let ghost tables = d@.tables;
    let mut total: usize = 0;
    let mut j: usize = 0;
    assert(tables.take(0) =~= Seq::<(Seq<char>, chunk::TableModel)>::empty());
    while j < d.tables.len()
        invariant
            j <= d.tables@.len(),
            tables == d@.tables,
            total == chunk::capped(tables_row_total(tables.take(j as int))),
        decreases d.tables@.len() - j,
    {
        assert(tables.take(j + 1).drop_last() =~= tables.take(j as int));
        assert(tables.take(j + 1).last() == buffer::table_entry(d.tables@[j as int]));
        let ghost chunks = d.tables@[j as int]@.chunks;
        let mut rows: usize = 0;
        let mut k: usize = 0;
        assert(chunks.take(0) =~= Seq::<chunk::ChunkModel>::empty());
        while k < d.tables[j].chunks.len()
            invariant
                j < d.tables@.len(),
                chunks == d.tables@[j as int]@.chunks,
                k <= d.tables@[j as int].chunks@.len(),
                rows == chunk::capped(row_total(chunks.take(k as int))),
            decreases d.tables@[j as int].chunks@.len() - k,
        {
            assert(chunks.take(k + 1).drop_last() =~= chunks.take(k as int));
            assert(chunks.take(k + 1).last() == d.tables@[j as int].chunks@[k as int]@);
            rows = rows.saturating_add(d.tables[j].chunks[k].rows.len());
            k += 1;
        }
        assert(chunks.take(k as int) =~= chunks);
        total = total.saturating_add(rows);
        j += 1;
    }
    assert(tables.take(j as int) =~= tables);
    total
}

/// The report of the buffer.
pub fn buffer_status(buffer: &Buffer, memory_limit_bytes: usize) -> (r: BufferStatus)
    ensures
        buffer_status_right(buffer@, memory_limit_bytes as nat, r),
{
    let ghost dbs = buffer@;
    let mut databases: Vec<DatabaseStatus> = Vec::new();
    let mut total_rows: usize = 0;
    let mut i: usize = 0;
    assert(dbs.take(0) =~= Seq::<buffer::DatabaseModel>::empty());
    while i < buffer.databases.len()
        invariant
            i <= buffer.databases@.len(),
            dbs == buffer@,
            databases@.len() == i,
            total_rows == chunk::capped(buffer_row_total(dbs.take(i as int))),
            forall|k: int|
                0 <= k < i ==> database_status_right(dbs[k], #[trigger] databases@[k]),
        decreases buffer.databases@.len() - i,
    {
        assert(dbs.take(i + 1).drop_last() =~= dbs.take(i as int));
        assert(dbs.take(i + 1).last() == buffer.databases@[i as int]@);
        databases.push(database_status(&buffer.databases[i]));
        total_rows = total_rows.saturating_add(count_rows(&buffer.databases[i]));
        i += 1;
    }
    assert(dbs.take(i as int) =~= dbs);
    BufferStatus {
        database_count: buffer.databases.len(),
        total_rows,
        total_memory_bytes: buffer.total_estimated_size(),
        memory_limit_bytes,
        databases,
    }
}

pub struct StatusHandler;

impl StatusHandler {
    /// The report of an agent. `heartbeat_failures` is there where the agent has a
    /// connection to a server.
    pub fn handle(
        config: &Config,
        buffer: &Buffer,
        wal: &WalManager,
        snapshot: &SnapshotStatus,
        heartbeat_failures: Option<u64>,
    ) -> (r: StatusReport)
        requires
            config.memory_fits(),
        ensures
            r.agent_id@ == (match config.agent {
                Some(a) => a.id@,
                None => "unknown"@,
            }),
            r.started_at@ == "1970-01-01T00:00:00Z"@,
            buffer_status_right(
                buffer@,
                config::size_bytes(config.flush.memory_limit@),
                r.buffer,
            ),
            r.wal.current_sequence == wal.current_seq,
            r.wal.pending_ops == wal.pending_ops@.len(),
            r.snapshot.last_snapshot_at is Some == snapshot.last_at is Some,
            snapshot.last_at is Some ==> r.snapshot.last_snapshot_at->0@ == time::iso_of(
                snapshot.last_at->0,
            ),
            r.snapshot.last_upload_status@ == (if snapshot.upload_ok {
                "ok"@
            } else {
                "fail"@
            }),
            r.snapshot.last_upload_size_bytes == snapshot.last_size_bytes,
            r.snapshot.next_snapshot_in_secs == snapshot.next_in_secs,
            match heartbeat_failures {
                Some(n) => {
                    &&& r.connection.registered
                    &&& r.connection.heartbeat_failures == n
                    &&& r.connection.server_url is Some
                    &&& r.connection.server_url->0@ == (match config.agent {
                        Some(a) => a.server_url@,
                        None => Seq::empty(),
                    })
                },
                None => {
                    &&& !r.connection.registered
                    &&& r.connection.heartbeat_failures == 0
                    &&& r.connection.server_url is None
                },
            },
    {
        let agent_id = match &config.agent {
            Some(a) => a.id.clone(),
            None => "unknown".to_owned(),
        };
        let connection = match heartbeat_failures {
            Some(n) => {
                let server_url = match &config.agent {
                    Some(a) => a.server_url.clone(),
                    None => String::new(),
                };
                ConnectionStatus {
                    server_url: Some(server_url),
                    registered: true,
                    heartbeat_failures: n,
                }
            },
            None => ConnectionStatus { server_url: None, registered: false, heartbeat_failures: 0 },
        };
        let last_snapshot_at = match snapshot.last_at {
            Some(at) => Some(time::ms_to_iso(at)),
            None => None,
        };
        let last_upload_status = if snapshot.upload_ok {
            "ok".to_owned()
        } else {
            "fail".to_owned()
        };
        StatusReport {
            agent_id,
            started_at: time::ms_to_iso(0),
            buffer: buffer_status(buffer, config.memory_limit_bytes()),
            wal: WalStatus {
                current_sequence: wal.current_sequence(),
                pending_ops: wal.pending_ops_count(),
            },
            snapshot: SnapshotReport {
                last_snapshot_at,
                last_upload_status,
                last_upload_size_bytes: snapshot.last_size_bytes,
                next_snapshot_in_secs: snapshot.next_in_secs,
            },
            connection,
        }
    }
}

} // verus!
