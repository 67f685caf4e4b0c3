//! Agent and server in one process.

use crate::agent::buffer::chunk;
use crate::agent::buffer::chunk::{Chunk, TableSchema};
use crate::agent::status;
use crate::config::Config;
use crate::server::metadata_store;
use crate::server::metadata_store::MetadataStore;
use crate::text;
use vstd::prelude::*;

verus! {

/// What a process runs.
#[derive(Debug, Clone, Copy, PartialEq, Eq, Structural)]
pub enum RunMode {
    Agent,
    Server,
    Mix,
}

/// Reads what a process is to run, or tells that there is no such mode.
pub fn parse_run_mode(s: &str) -> (r: Result<RunMode, String>)
    ensures
        if s@ == "agent"@ {
            r == Ok::<RunMode, String>(RunMode::Agent)
        } else if s@ == "server"@ {
            r == Ok::<RunMode, String>(RunMode::Server)
        } else if s@ == "mix"@ {
            r == Ok::<RunMode, String>(RunMode::Mix)
        } else {
            r is Err && r->Err_0@ == "Unsupported mode: "@ + s@
                + ". Available modes depend on compiled features."@
        },
{
    if text::same(s, "agent") {
        Ok(RunMode::Agent)
    } else if text::same(s, "server") {
        Ok(RunMode::Server)
    } else if text::same(s, "mix") {
        Ok(RunMode::Mix)
    } else {
        Err(
            text::join3(
                "Unsupported mode: ",
                s,
                ". Available modes depend on compiled features.",
            ),
        )
    }
}

/// The port of the agent beside a server: the next one.
pub fn agent_port(server_port: u16) -> (r: u16)
    requires
        server_port < u16::MAX,
    ensures
        r == server_port + 1,
{
    server_port + 1
}

/// Where the metadata is kept.
pub fn metadata_path(config: &Config) -> (r: String)
    ensures
        r@ == (match config.metadata {
            Some(m) => m.db_path@,
            None => "/var/lib/iedb/iedb.db"@,
        }),
{
    match &config.metadata {
        Some(m) => m.db_path.clone(),
        None => "/var/lib/iedb/iedb.db".to_owned(),
    }
}

/// The table in the metadata after chunks of it were written to a file.
pub open spec fn flushed(
    row: metadata_store::TableRow,
    schema: chunk::SchemaModel,
    chunks: Seq<chunk::ChunkModel>,
    now_ms: i64,
) -> metadata_store::TableRow {
    metadata_store::counted(
        row,
        status::time_or_zero(status::least_time(chunks), i64::MAX),
        status::time_or_zero(status::greatest_time(chunks), i64::MIN),
        chunk::capped(status::row_total(chunks)) as usize,
        schema.fields.map_values(|f: (Seq<char>, chunk::FieldType)| (f.0, f.1.spec_name())),
        schema.tag_keys,
        now_ms,
    )
}

/// Notes in the metadata that chunks of a table were written to a file, so that the server
/// finds their rows. Tells whether the number of rows still fits; where it does not, nothing
/// is noted.
pub fn note_local_flush(
    metadata: &mut MetadataStore,
    db: &str,
    table_name: &str,
    schema: &TableSchema,
    chunks: &Vec<Chunk>,
    now_ms: i64,
) -> (r: bool)
    ensures
        ({
            let row = metadata_store::row_or_new(old(metadata)@, db@, table_name@);
            let written = chunk::chunk_models(chunks@);
            let rows = chunk::capped(status::row_total(written)) as usize;
            &&& r == (i64::MIN <= row.total_rows + rows as i64 <= i64::MAX)
            &&& r ==> final(metadata)@ == metadata_store::with_row(
                old(metadata)@,
                flushed(row, schema@, written, now_ms),
            )
            &&& !r ==> *final(metadata) == *old(metadata)
        }),
{
    let (time_min, time_max, rows) = status::time_span(chunks);
    if !metadata.can_count(db, table_name, rows) {
        return false;
    }
    let fields = status::fields_of(&schema.field_defs);
    assert(text::pair_views(fields@) =~= schema@.fields.map_values(
        |f: (Seq<char>, chunk::FieldType)| (f.0, f.1.spec_name()),
    ));
    metadata.update_stats(
        db,
        table_name,
        time_min,
        time_max,
        rows,
        &fields,
        &schema.tag_keys,
        now_ms,
    );
    true
}

} // verus!
