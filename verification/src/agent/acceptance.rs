//! What an agent takes, and what it does with it.

use crate::agent::buffer;
use crate::agent::buffer::chunk;
use crate::agent::flush::scheduler;
use crate::agent::flush::scheduler::{StagedEntry, StagedUpload};
use crate::agent::service;
use crate::agent::service::AgentServiceRoute;
use crate::agent::status;
use crate::agent::status::BufferStatus;
use crate::agent::wal;
use crate::agent::wal::wal_core;
use crate::agent::wal::wal_core::{LogModel, WalManager};
use crate::agent::write::{PointModel, WriteHandler, WriteStep};
use crate::decimal;
use crate::http;
use crate::notation;
use crate::text;
use crate::time;
use vstd::prelude::*;
use vstd::utf8::*;

verus! {

/// Requests to an agent are told apart by method and path.
pub proof fn requests_are_told_apart(method: Seq<char>, path: Seq<char>, r: AgentServiceRoute)
    requires
        service::agent_route_right(method, path, r),
    ensures
        r is Write <==> method == "POST"@ && path == "/write"@,
        r is Query <==> method == "GET"@ && path == "/query"@,
        r is Rows <==> method == "GET"@ && path == "/api/v1/query/parquet"@,
        r is Status <==> method == "GET"@ && path == "/api/v1/status"@,
        r is Page <==> method == "GET"@ && path != "/query"@ && path != "/api/v1/query/parquet"@
            && path != "/api/v1/status"@ && path != "/health"@,
        r is Reply ==> (r->Reply_0.status == 200 <==> method == "GET"@ && path == "/health"@) && (
        r->Reply_0.status == 404 <==> method != "GET"@),
{
    reveal_strlit("GET");
    reveal_strlit("POST");
    reveal_strlit("/query");
    reveal_strlit("/health");
    reveal_strlit("/api/v1/query/parquet");
    reveal_strlit("/api/v1/status");
    assert("GET"@.len() == 3 && "POST"@.len() == 4 && "/query"@.len() == 6 && "/health"@.len() == 7
        && "/api/v1/query/parquet"@.len() == 21 && "/api/v1/status"@.len() == 14);
}

/// Points go to the database that the query string names first, and to that of the name
/// `default` where it names none.
pub proof fn points_go_to_the_named_database(
    query: Seq<char>,
    before: Seq<(Seq<char>, Seq<char>)>,
    db: Seq<char>,
    after: Seq<(Seq<char>, Seq<char>)>,
)
    requires
        forall|i: int| 0 <= i < before.len() ==> (#[trigger] before[i]).0 != "db"@,
    ensures
        http::form_pairs(query) == before.push(("db"@, db)) + after
            ==> crate::agent::write::database_of(Some(query)) == db,
        http::form_pairs(query) == before ==> crate::agent::write::database_of(Some(query))
            == "default"@,
        crate::agent::write::database_of(None) == "default"@,
{
    let all = before.push(("db"@, db)) + after;
    assert forall|k: int| 0 <= k < before.len() implies (#[trigger] all[k]).0 != "db"@ by {
        assert(all[k] == before[k]);
    }
    notation::first_pair_counts(before, "db"@, before.len() as int);
    notation::first_pair_counts(all, "db"@, before.len() as int);
}

/// A number of seconds is told in nanoseconds, and by the nearest number of 64 bits where
/// these do not fit.
pub proof fn seconds_are_told_in_nanoseconds(secs: int)
    ensures
        i64::MIN <= secs * 1_000_000_000 <= i64::MAX ==> crate::agent::write::saturated_ns(secs)
            == secs * 1_000_000_000,
        secs * 1_000_000_000 > i64::MAX ==> crate::agent::write::saturated_ns(secs) == i64::MAX,
        secs * 1_000_000_000 < i64::MIN ==> crate::agent::write::saturated_ns(secs) == i64::MIN,
{
}

/// The log takes operations up to its limit, which is the one set last.
pub proof fn log_has_room_up_to_its_limit(w: WalManager)
    ensures
        w.op_count <= w.limit() ==> w.op_count + crate::agent::write::room(w) == w.limit(),
        w.op_count >= w.limit() ==> crate::agent::write::room(w) == 0,
        w.hot matches Some(h) ==> w.limit() == h.wal_max_buffer_ops,
        w.hot is None ==> w.limit() == w.op_limit,
{
}

proof fn lemma_one_more(lines: Seq<Option<PointModel>>)
    ensures
        crate::agent::write::point_count(lines) == lines.filter(
            |l: Option<PointModel>| l is Some,
        ).len(),
    decreases lines.len(),
{
    reveal(Seq::filter);
    if lines.len() > 0 {
        lemma_one_more(lines.drop_last());
    }
}

/// The points of lines are all lines that are one.
pub proof fn lines_with_points_are_counted(lines: Seq<Option<PointModel>>)
    ensures
        crate::agent::write::point_count(lines) == lines.filter(
            |l: Option<PointModel>| l is Some,
        ).len(),
{
    lemma_one_more(lines);
}

/// A write that is refused or holds no point changes nothing; one whose batches have room is
/// to be logged, all its points, behind the operations that waited, in the next file; and one
/// whose batches have none is refused, with as many of its operations waiting as had room.
pub proof fn writes_are_logged_whole(
    before: WriteHandler,
    after: WriteHandler,
    query: Option<Seq<char>>,
    body: Seq<u8>,
    now_ns: i64,
    r: WriteStep,
)
    requires
        before.wal.wf(),
        after.handled(before, query, body, now_ns, r),
    ensures
        after.buffer == before.buffer,
        after.config == before.config,
        after.wal.current_seq == before.wal.current_seq,
        body.len() > before.config.server.max_body_bytes ==> after == before && r is Reply
            && r->Reply_0.status == 413,
        body.len() <= before.config.server.max_body_bytes && !valid_utf8(body) ==> after == before
            && r is Reply && r->Reply_0.status == 400,
        body.len() <= before.config.server.max_body_bytes && valid_utf8(body) ==> {
            let lines = crate::agent::write::parsed_lines(decode_utf8(body));
            let points = lines.filter(|l: Option<PointModel>| l is Some).len();
            let waiting = wal::op_models(before.wal.pending_ops@);
            &&& points == 0 ==> after == before && r is Reply && r->Reply_0.status == 204
            &&& points > 0 ==> r is Persist || (r is Reply && r->Reply_0.status == 503)
            &&& r is Persist ==> {
                let ops = wal::op_models(r->file.ops@);
                &&& r->rows == points
                &&& r->file.seq == before.wal.current_seq
                &&& waiting.is_prefix_of(ops)
                &&& ops.len() > waiting.len()
                &&& ops.len() <= waiting.len() + crate::agent::write::room(before.wal)
                &&& after.wal.pending_ops@.len() == 0
                &&& forall|i: int|
                    waiting.len() <= i < ops.len() ==> ((#[trigger] ops[i]) matches
                        wal::OpModel::Write(b) && b.db == crate::agent::write::database_of(query))
            }
            &&& points > 0 && r is Reply ==> {
                let ops = wal::op_models(after.wal.pending_ops@);
                &&& waiting.is_prefix_of(ops)
                &&& ops.len() == waiting.len() + crate::agent::write::room(before.wal)
            }
        },
{
    if body.len() <= before.config.server.max_body_bytes && valid_utf8(body) {
        let lines = crate::agent::write::parsed_lines(decode_utf8(body));
        let db = crate::agent::write::database_of(query);
        let batches = crate::agent::write::batches_of(lines, db, before.interval_ns(), now_ns);
        let waiting = wal::op_models(before.wal.pending_ops@);
        let writes = crate::agent::write::write_ops(batches);
        lemma_one_more(lines);
        crate::agent::write::batches_hold_every_point(lines, db, before.interval_ns(), now_ns);
        lemma_batches_db(db, crate::agent::write::grouped(lines, now_ns), before.interval_ns());
        if r is Persist {
            let ops = wal::op_models(r->file.ops@);
            assert(ops.subrange(0, waiting.len() as int) =~= waiting);
            assert forall|i: int| waiting.len() <= i < ops.len() implies ((#[trigger] ops[i])
                matches wal::OpModel::Write(b) && b.db == db) by {
                assert(ops[i] == writes[i - waiting.len()]);
                assert(writes[i - waiting.len()] == wal::OpModel::Write(
                    batches[i - waiting.len()],
                ));
            }
        }
        if batches.len() > crate::agent::write::room(before.wal) && batches.len() > 0 {
            let ops = wal::op_models(after.wal.pending_ops@);
            assert(ops.subrange(0, waiting.len() as int) =~= waiting);
        }
    }
}

proof fn lemma_batches_db(
    db: Seq<char>,
    groups: Seq<crate::agent::write::TableRowsModel>,
    interval_ns: i64,
)
    ensures
        forall|i: int|
            0 <= i < crate::agent::write::all_batches(db, groups, interval_ns).len() ==> (
            #[trigger] crate::agent::write::all_batches(db, groups, interval_ns)[i]).db == db,
    decreases groups.len(),
{
    if groups.len() > 0 {
        lemma_batches_db(db, groups.drop_last(), interval_ns);
        let before = crate::agent::write::all_batches(db, groups.drop_last(), interval_ns);
        let own = crate::agent::write::table_batches(db, groups.last(), interval_ns);
        let all = crate::agent::write::all_batches(db, groups, interval_ns);
        assert forall|i: int| 0 <= i < all.len() implies (#[trigger] all[i]).db == db by {
            if i < before.len() {
                assert(all[i] == before[i]);
            } else {
                assert(all[i] == own[i - before.len()]);
            }
        }
    }
}

/// An operation waits behind those that wait where the log has not reached its limit, and is
/// turned away otherwise. Taking what waits leaves nothing waiting; a file that is written
/// uses its number up, and one that is not leaves it.
pub proof fn log_takes_operations_in_turn(log: LogModel, op: wal::OpModel, limit: usize)
    requires
        limit == (match log.hot {
            Some(h) => h.wal_max_buffer_ops,
            None => log.op_limit,
        }),
    ensures
        log.waiting.len() < limit ==> log.with_op(op).waiting == log.waiting.push(op),
        log.waiting.len() >= limit ==> log.with_op(op).waiting == log.waiting,
        log.with_op(op).next == log.next,
        log.with_op(op).dir == log.dir && log.with_op(op).hot == log.hot && log.with_op(op).op_limit
            == log.op_limit,
        log.accepts() <==> log.waiting.len() < limit,
        log.emptied().waiting.len() == 0,
        log.emptied().next == log.next && log.emptied().dir == log.dir && log.emptied().hot
            == log.hot && log.emptied().op_limit == log.op_limit,
        log.filed(true).next == log.next + 1,
        log.filed(false).next == log.next,
        log.filed(true).waiting == log.waiting && log.filed(false).waiting == log.waiting,
{
}

/// The next number is the least above what was flushed and above the numbers of all files.
pub proof fn next_number_is_the_least(names: Seq<Seq<char>>, flushed: u64)
    ensures
        wal_core::next_seq(names, flushed) == flushed + 1 || exists|i: int|
            0 <= i < names.len() && wal_core::seq_of_name(#[trigger] names[i]) == Some(
                (wal_core::next_seq(names, flushed) - 1) as nat,
            ),
        wal_core::next_seq(names, flushed) > flushed,
        forall|i: int|
            0 <= i < names.len() ==> (wal_core::seq_of_name(#[trigger] names[i]) matches Some(n)
                ==> n < wal_core::next_seq(names, flushed)),
{
    lemma_greatest(names);
    assert forall|i: int| 0 <= i < names.len() implies (wal_core::seq_of_name(
        #[trigger] names[i],
    ) matches Some(n) ==> n < wal_core::next_seq(names, flushed)) by {
        wal_core::next_seq_is_fresh(names, flushed, i);
    }
}

/// A log file is told by the number in front of the ending of its name, and a file of another
/// ending is none. The name that a file is written under has twenty digits, and files of
/// different numbers have different names.
pub proof fn log_files_are_told_by_their_number(digits: Seq<char>, name: Seq<char>, a: u64, b: u64)
    ensures
        wal_core::seq_of_name(digits + ".wal"@) == decimal::unsigned_value(
            digits,
            u64::MAX as nat,
        ),
        !".wal"@.is_suffix_of(name) ==> wal_core::seq_of_name(name) is None,
        wal_core::name_of_seq(a as nat).len() == 24,
        wal_core::seq_of_name(wal_core::name_of_seq(a as nat)) == Some(a as nat),
        wal_core::name_of_seq(a as nat) == wal_core::name_of_seq(b as nat) <==> a == b,
{
    reveal_strlit(".wal");
    assert(".wal"@.len() == 4);
    let all = digits + ".wal"@;
    assert(all.take(all.len() - ".wal"@.len()) =~= digits);
    assert(all.subrange(all.len() - ".wal"@.len(), all.len() as int) =~= ".wal"@);
    decimal::padded_numeral_reads_back(a);
    wal_core::log_file_name_reads_back(a);
    wal_core::log_file_name_reads_back(b);
}

proof fn lemma_greatest(names: Seq<Seq<char>>)
    ensures
        wal_core::max_seq(names) matches Some(m) ==> exists|i: int|
            0 <= i < names.len() && wal_core::seq_of_name(#[trigger] names[i]) == Some(m),
    decreases names.len(),
{
    if names.len() > 0 {
        let front = names.drop_last();
        lemma_greatest(front);
        let l = names.len() - 1;
        assert(names[l] == names.last());
        if wal_core::max_seq(names) is Some && wal_core::seq_of_name(names[l])
            != wal_core::max_seq(names) {
            let m = wal_core::max_seq(front)->0;
            let i = choose|i: int|
                0 <= i < front.len() && wal_core::seq_of_name(#[trigger] front[i]) == Some(m);
            assert(names[i] == front[i]);
        }
    }
}

/// The report of a buffer tells of every table of every database, in their order: its name,
/// its rows, its chunks, its columns, its times and its size.
pub proof fn every_table_is_reported(
    dbs: Seq<buffer::DatabaseModel>,
    memory_limit: nat,
    r: BufferStatus,
    i: int,
    j: int,
)
    requires
        status::buffer_status_right(dbs, memory_limit, r),
        0 <= i < dbs.len(),
        0 <= j < dbs[i].tables.len(),
    ensures
        r.database_count == dbs.len() && r.databases@.len() == dbs.len(),
        r.memory_limit_bytes == memory_limit,
        r.total_rows == chunk::capped(status::buffer_row_total(dbs)),
        r.total_memory_bytes == chunk::capped(buffer::dbs_size(dbs)),
        r.databases@[i].name@ == dbs[i].name,
        r.databases@[i].tables@.len() == dbs[i].tables.len(),
        ({
            let told = r.databases@[i].tables@[j];
            let t = dbs[i].tables[j].1;
            &&& told.name@ == dbs[i].tables[j].0
            &&& told.row_count == chunk::capped(status::row_total(t.chunks))
            &&& told.chunk_count == t.chunks.len()
            &&& told.memory_bytes == chunk::capped(chunk::chunks_size(t.chunks))
            &&& text::views(told.tag_keys@) == t.schema.tag_keys
            &&& told.field_defs@.len() == t.schema.fields.len()
            &&& forall|k: int|
                0 <= k < t.schema.fields.len() ==> (#[trigger] told.field_defs@[k]).0@
                    == t.schema.fields[k].0 && told.field_defs@[k].1@
                    == t.schema.fields[k].1.spec_name()
            &&& status::least_time(t.chunks) != i64::MAX ==> told.time_min@ == time::iso_of(
                status::least_time(t.chunks),
            )
            &&& status::greatest_time(t.chunks) != i64::MIN ==> told.time_max@ == time::iso_of(
                status::greatest_time(t.chunks),
            )
        }),
{
    assert(status::database_status_right(dbs[i], r.databases@[i]));
    let told = r.databases@[i].tables@[j];
    let t = dbs[i].tables[j].1;
    assert(status::table_status_right(dbs[i].tables[j], told));
    let pairs = text::pair_views(told.field_defs@);
    assert(pairs.len() == t.schema.fields.len());
    assert forall|k: int| 0 <= k < t.schema.fields.len() implies (
    #[trigger] told.field_defs@[k]).0@ == t.schema.fields[k].0 && told.field_defs@[k].1@
        == t.schema.fields[k].1.spec_name() by {
        assert(pairs[k] == (told.field_defs@[k].0@, told.field_defs@[k].1@));
    }
}

/// A staged file is tried again as what it is: the chunk of its table, of the time that its
/// name tells.
pub proof fn staged_files_keep_their_chunk(
    c: crate::config::Config,
    entry: StagedEntry,
    upload: StagedUpload,
)
    requires
        scheduler::retry_right(c, entry, upload),
    ensures
        upload.db@ == entry.db@,
        upload.table@ == entry.table@,
        upload.name@ == entry.name@,
        exists|n: Seq<char>|
            #[trigger] (n + ".parquet"@) == entry.name@ && decimal::signed_value(n) == Some(
                upload.chunk_time as int,
            ),
        scheduler::plan_right(
            c,
            upload.db@,
            upload.table@,
            upload.chunk_time,
            upload.chunk_time,
            upload.plan,
        ),
{
    let name = entry.name@;
    let n = name.take(name.len() - ".parquet"@.len());
    assert(name.subrange(name.len() - ".parquet"@.len(), name.len() as int) == ".parquet"@);
    assert(n + ".parquet"@ =~= name);
}

/// Staged files are tried again every sixth turn, merged files are remembered for a week
/// and agents count as online for half a minute.
pub proof fn spans_are_as_configured(turn: u64)
    ensures
        turn % scheduler::STAGING_RETRY_TURNS == 0 <==> turn % 6 == 0,
        crate::server::compaction::TOMBSTONE_MS == 7 * 24 * 60 * 60 * 1000,
        crate::server::agent_api::ONLINE_MS == 30 * 1000,
{
}

} // verus!
