//! When chunks leave an agent, which ones, and where to.

use crate::agent::buffer::chunk;
use crate::agent::flush::http_upload;
use crate::agent::flush::scheduler;
use crate::agent::flush::scheduler::{SnapshotScheduler, StagedEntry, UploadPlan};
use crate::config;
use crate::config::Config;
use crate::decimal;
use crate::notation;
use crate::text;
use vstd::prelude::*;

verus! {

/// The next snapshot falls on the first multiple of the interval that is still to come.
pub proof fn snapshots_fall_on_multiples(interval: int, since_last: int)
    requires
        interval >= 1,
        since_last >= 0,
    ensures
        (since_last + scheduler::next_in(interval, since_last)) % interval == 0,
        0 < scheduler::next_in(interval, since_last) <= interval,
        scheduler::next_in(interval, -since_last) == interval + since_last % interval,
{
    let n = scheduler::next_in(interval, since_last);
    assert(n == interval - since_last % interval);
    vstd::arithmetic::div_mod::lemma_fundamental_div_mod(since_last, interval);
    let q = since_last / interval;
    assert(since_last + n == interval * q + interval);
    assert(interval * q + interval == (q + 1) * interval) by (nonlinear_arith);
    vstd::arithmetic::div_mod::lemma_mod_multiples_basic(q + 1, interval);
    assert((-since_last < 0) ==> scheduler::signed_rem(-since_last, interval) == -(since_last
        % interval));
}

/// The seconds of a number of milliseconds leave less than a second over; before zero they
/// are those of the number without its sign, with it.
pub proof fn milliseconds_are_whole_seconds(ms: int)
    requires
        ms >= 0,
    ensures
        scheduler::whole_secs(ms) * 1000 <= ms < scheduler::whole_secs(ms) * 1000 + 1000,
        scheduler::whole_secs(-ms) == -scheduler::whole_secs(ms),
{
}

/// The next snapshot is counted from the last upload, or from the start where there was none,
/// in intervals of at least one second.
pub proof fn next_snapshot_is_counted(s: SnapshotScheduler, elapsed_secs: i64, now_ms: i64)
    ensures
        ({
            let interval = if s.spec_interval() >= 1 {
                s.spec_interval()
            } else {
                1
            };
            let since: int = if s.last_snapshot.last_at is Some {
                scheduler::whole_secs(now_ms - s.last_snapshot.last_at->0)
            } else {
                elapsed_secs as int
            };
            &&& since >= 0 ==> (since + s.spec_next_in(elapsed_secs, now_ms)) % interval == 0
            &&& since >= 0 ==> 0 < s.spec_next_in(elapsed_secs, now_ms) <= interval
            &&& since < 0 ==> s.spec_next_in(elapsed_secs, now_ms) == interval + (-since) % interval
        }),
        s.hot is Some ==> s.spec_interval() == (s.hot->0).snapshot_interval_secs
            && s.spec_memory_limit() == (s.hot->0).memory_limit_bytes,
        s.hot is None ==> s.spec_interval() == config::duration_secs(
            s.config.flush.snapshot_interval@,
        ) && s.spec_memory_limit() == config::size_bytes(s.config.flush.memory_limit@),
{
    let interval = if s.spec_interval() >= 1 {
        s.spec_interval()
    } else {
        1
    };
    let since: int = if s.last_snapshot.last_at is Some {
        scheduler::whole_secs(now_ms - s.last_snapshot.last_at->0)
    } else {
        elapsed_secs as int
    };
    if since >= 0 {
        snapshots_fall_on_multiples(interval, since);
    } else {
        snapshots_fall_on_multiples(interval, -since);
    }
}

/// Chunks may leave that begin before the marker: a multiple of the interval, the last one
/// that lies at least one interval back.
pub proof fn marker_lies_one_interval_back(now_ns: int, interval_secs: int)
    requires
        interval_secs > 0,
        now_ns >= interval_secs * 1_000_000_000,
    ensures
        scheduler::end_time_marker(now_ns, interval_secs) % (interval_secs * 1_000_000_000) == 0,
        scheduler::end_time_marker(now_ns, interval_secs) + interval_secs * 1_000_000_000 <= now_ns,
        now_ns < scheduler::end_time_marker(now_ns, interval_secs) + 2 * (interval_secs
            * 1_000_000_000),
{
    let d = interval_secs * 1_000_000_000;
    let back = now_ns - d;
    vstd::arithmetic::div_mod::lemma_fundamental_div_mod(back, d);
    vstd::arithmetic::div_mod::lemma_mod_bound(back, d);
    let q = back / d;
    assert(d * q == q * d) by (nonlinear_arith);
    vstd::arithmetic::div_mod::lemma_mod_multiples_basic(q, d);
    assert(scheduler::end_time_marker(now_ns, interval_secs) == d * q);
}

/// Handing off keeps the chunks of all other times, in their order.
pub proof fn other_chunks_stay(chunks: Seq<chunk::ChunkModel>, times: Seq<i64>)
    ensures
        scheduler::without_times(chunks, times) == chunks.filter(
            |c: chunk::ChunkModel| !times.contains(c.chunk_time),
        ),
    decreases chunks.len(),
{
    reveal(Seq::filter);
    let stays = |c: chunk::ChunkModel| !times.contains(c.chunk_time);
    if chunks.len() > 0 {
        other_chunks_stay(chunks.drop_last(), times);
        assert(stays(chunks.last()) == !times.contains(chunks.last().chunk_time));
    } else {
        assert(chunks.filter(stays) =~= Seq::empty());
    }
}

/// What is encoded for some times, then others, is what is encoded for the first, then for the
/// others; for one time it is the first chunk of that time, or nothing.
pub proof fn chunks_are_encoded_by_their_times(
    chunks: Seq<chunk::ChunkModel>,
    a: Seq<i64>,
    b: Seq<i64>,
    i: int,
    t: i64,
)
    requires
        0 <= i <= chunks.len(),
        forall|k: int| 0 <= k < i ==> (#[trigger] chunks[k]).chunk_time != t,
        i < chunks.len() ==> chunks[i].chunk_time == t,
    ensures
        scheduler::chunks_at(chunks, a + b) == scheduler::chunks_at(chunks, a)
            + scheduler::chunks_at(chunks, b),
        scheduler::chunks_at(chunks, Seq::empty()) == Seq::<chunk::ChunkModel>::empty(),
        i < chunks.len() ==> scheduler::chunks_at(chunks, seq![t]) == seq![chunks[i]],
        i == chunks.len() ==> scheduler::chunks_at(chunks, seq![t]) == Seq::<
            chunk::ChunkModel,
        >::empty(),
    decreases b.len(),
{
    reveal_with_fuel(scheduler::chunks_at, 2);
    assert(seq![t].drop_last() =~= Seq::empty());
    chunk::lemma_chunk_position(chunks, t);
    let p = chunk::chunk_position(chunks, t);
    if p < i {
        assert(chunks[p].chunk_time != t);
    }
    if i < p {
        assert(chunks[i].chunk_time != t);
    }
    assert(p == i);
    assert(scheduler::chunks_at(chunks, seq![t]) =~= if i < chunks.len() {
        seq![chunks[i]]
    } else {
        Seq::empty()
    });
    if b.len() == 0 {
        assert(a + b =~= a);
        assert(scheduler::chunks_at(chunks, a) + scheduler::chunks_at(chunks, b)
            =~= scheduler::chunks_at(chunks, a));
    } else {
        chunks_are_encoded_by_their_times(chunks, a, b.drop_last(), i, t);
        assert((a + b).drop_last() =~= a + b.drop_last());
        assert(scheduler::chunks_at(chunks, a + b) =~= scheduler::chunks_at(chunks, a)
            + scheduler::chunks_at(chunks, b));
    }
}

/// The files that are tried again are all those whose name is a number before `.parquet`, in
/// their order.
pub proof fn staged_files_are_all_retried(entries: Seq<StagedEntry>)
    ensures
        scheduler::recognized(entries) == entries.filter(
            |e: StagedEntry|
                ".parquet"@.is_suffix_of(e.name@) && decimal::signed_value(
                    e.name@.take(e.name@.len() - ".parquet"@.len()),
                ) is Some,
        ),
    decreases entries.len(),
{
    reveal(Seq::filter);
    let known = |e: StagedEntry|
        ".parquet"@.is_suffix_of(e.name@) && decimal::signed_value(
            e.name@.take(e.name@.len() - ".parquet"@.len()),
        ) is Some;
    if entries.len() > 0 {
        staged_files_are_all_retried(entries.drop_last());
        assert(known(entries.last()) == (http_upload::staged_time(entries.last().name@) is Some));
    } else {
        assert(entries.filter(known) =~= Seq::empty());
    }
}

/// The name of a staged file tells the number in front of its ending.
pub proof fn staged_names_tell_their_time(n: Seq<char>, name: Seq<char>)
    ensures
        http_upload::staged_time(n + ".parquet"@) == decimal::signed_value(n),
        !".parquet"@.is_suffix_of(name) ==> http_upload::staged_time(name) is None,
{
    let all = n + ".parquet"@;
    assert(all.take(all.len() - ".parquet"@.len()) =~= n);
    assert(all.subrange(all.len() - ".parquet"@.len(), all.len() as int) =~= ".parquet"@);
}

pub(crate) proof fn lemma_no_slash(time: int)
    ensures
        !decimal::signed_numeral(time).contains('/'),
{
    let n: nat = if time < 0 {
        (-time) as nat
    } else {
        time as nat
    };
    notation::numbers_are_written_plainly(n);
    let s = decimal::signed_numeral(time);
    if s.contains('/') {
        let i = choose|i: int| 0 <= i < s.len() && s[i] == '/';
        let d = decimal::numeral(n);
        if time < 0 {
            assert(i > 0);
            assert(s[i] == d[i - 1]);
            assert(decimal::is_digit(d[i - 1]));
        } else {
            assert(s[i] == d[i]);
            assert(decimal::is_digit(d[i]));
        }
    }
}

proof fn lemma_file_names(a: i64, b: i64)
    ensures
        !http_upload::staged_name(a).contains('/'),
        !("local_"@ + decimal::signed_numeral(a as int) + ".parquet"@).contains('/'),
        "local_"@ + decimal::signed_numeral(a as int) + ".parquet"@ == "local_"@
            + decimal::signed_numeral(b as int) + ".parquet"@ ==> a == b,
{
    reveal_strlit(".parquet");
    reveal_strlit("local_");
    lemma_no_slash(a as int);
    let n = decimal::signed_numeral(a as int);
    let m = decimal::signed_numeral(b as int);
    let s = http_upload::staged_name(a);
    assert(!".parquet"@.contains('/'));
    if s.contains('/') {
        let i = choose|i: int| 0 <= i < s.len() && s[i] == '/';
        if i < n.len() {
            assert(n[i] == '/');
        } else {
            assert(".parquet"@[i - n.len()] == '/');
        }
    }
    let t = "local_"@ + n + ".parquet"@;
    if t.contains('/') {
        let i = choose|i: int| 0 <= i < t.len() && t[i] == '/';
        if i < 6 {
            assert("local_"@[i] == '/');
        } else if i < 6 + n.len() {
            assert(n[i - 6] == '/');
        } else {
            assert(".parquet"@[i - 6 - n.len()] == '/');
        }
    }
    let u = "local_"@ + m + ".parquet"@;
    if t == u {
        assert(t.len() == 6 + n.len() + 8 && u.len() == 6 + m.len() + 8);
        assert(t.subrange(6, 6 + n.len() as int) =~= n);
        assert(u.subrange(6, 6 + m.len() as int) =~= m);
        http_upload::staged_names_differ(a, b);
    }
}

/// Chunks of different databases, tables or times are staged under different paths, and stay
/// with the agent under different paths. The names of the databases and tables are those that
/// can stand for a directory: not empty and without slashes.
pub proof fn chunks_have_their_own_files(
    dir: Seq<char>,
    db_a: Seq<char>,
    table_a: Seq<char>,
    time_a: i64,
    db_b: Seq<char>,
    table_b: Seq<char>,
    time_b: i64,
)
    requires
        db_a.len() > 0 && !db_a.contains('/'),
        db_b.len() > 0 && !db_b.contains('/'),
        table_a.len() > 0 && !table_a.contains('/'),
        table_b.len() > 0 && !table_b.contains('/'),
    ensures
        http_upload::staged_path(dir, db_a, table_a, time_a) == http_upload::staged_path(
            dir,
            db_b,
            table_b,
            time_b,
        ) <==> db_a == db_b && table_a == table_b && time_a == time_b,
        scheduler::local_path(dir, db_a, table_a, time_a) == scheduler::local_path(
            dir,
            db_b,
            table_b,
            time_b,
        ) <==> db_a == db_b && table_a == table_b && time_a == time_b,
{
    lemma_file_names(time_a, time_b);
    lemma_file_names(time_b, time_a);
    http_upload::staged_names_differ(time_a, time_b);
    if http_upload::staged_path(dir, db_a, table_a, time_a) == http_upload::staged_path(
        dir,
        db_b,
        table_b,
        time_b,
    ) {
        lemma_two_directories(
            dir,
            db_a,
            table_a,
            http_upload::staged_name(time_a),
            db_b,
            table_b,
            http_upload::staged_name(time_b),
        );
    }
    if scheduler::local_path(dir, db_a, table_a, time_a) == scheduler::local_path(
        dir,
        db_b,
        table_b,
        time_b,
    ) {
        lemma_two_directories(
            dir,
            db_a,
            table_a,
            "local_"@ + decimal::signed_numeral(time_a as int) + ".parquet"@,
            db_b,
            table_b,
            "local_"@ + decimal::signed_numeral(time_b as int) + ".parquet"@,
        );
    }
}

pub(crate) proof fn lemma_two_directories(
    dir: Seq<char>,
    a: Seq<char>,
    b: Seq<char>,
    x: Seq<char>,
    c: Seq<char>,
    d: Seq<char>,
    y: Seq<char>,
)
    requires
        a.len() > 0 && !a.contains('/'),
        b.len() > 0 && !b.contains('/'),
        c.len() > 0 && !c.contains('/'),
        d.len() > 0 && !d.contains('/'),
        !x.contains('/'),
        !y.contains('/'),
        text::path_in(text::path_in(text::path_in(dir, a), b), x) == text::path_in(
            text::path_in(text::path_in(dir, c), d),
            y,
        ),
    ensures
        a == c && b == d && x == y,
{
    let p = text::path_in(text::path_in(dir, a), b);
    let q = text::path_in(text::path_in(dir, c), d);
    assert(b.contains(b[0]) && b.contains(b.last()));
    assert(d.contains(d[0]) && d.contains(d.last()));
    if x.len() > 0 {
        assert(x.contains(x[0]));
    }
    if y.len() > 0 {
        assert(y.contains(y[0]));
    }
    notation::paths_lead_into_their_directory(text::path_in(dir, a), b);
    notation::paths_lead_into_their_directory(text::path_in(dir, c), d);
    assert(p.last() == b.last() && q.last() == d.last());
    let all = text::path_in(p, x);
    assert(all == p + seq!['/'] + x);
    assert(all == q + seq!['/'] + y);
    if x.len() < y.len() {
        assert(all[all.len() - x.len() - 1] == '/');
        assert(all[all.len() - x.len() - 1] == y[y.len() - x.len() - 1]);
        assert(y.contains(y[y.len() - x.len() - 1]));
    }
    if y.len() < x.len() {
        assert(all[all.len() - y.len() - 1] == '/');
        assert(all[all.len() - y.len() - 1] == x[x.len() - y.len() - 1]);
        assert(x.contains(x[x.len() - y.len() - 1]));
    }
    assert(all.subrange(all.len() - x.len(), all.len() as int) =~= x);
    assert(all.subrange(all.len() - y.len(), all.len() as int) =~= y);
    assert(all.subrange(0, p.len() as int) =~= p);
    assert(all.subrange(0, q.len() as int) =~= q);
    notation::directories_have_their_own_paths(dir, a, c, b, d);
}

/// A chunk goes where the backend of the configuration says: into a file of the agent, into
/// the bucket where there is one, and else to the server; it never goes two ways, and it is
/// refused only where the bucket is missing.
pub proof fn backend_decides(
    c: Config,
    db: Seq<char>,
    table: Seq<char>,
    chunk_time: i64,
    time_min: i64,
    plan: UploadPlan,
)
    requires
        scheduler::plan_right(c, db, table, chunk_time, time_min, plan),
    ensures
        plan is Local <==> c.flush.backend@ == "local"@,
        plan is S3 <==> c.flush.backend@ == "s3"@ && c.s3 is Some,
        plan is Refused <==> c.flush.backend@ == "s3"@ && c.s3 is None,
        plan is Http <==> c.flush.backend@ != "s3"@ && c.flush.backend@ != "local"@,
        plan matches UploadPlan::Local { path } ==> path@ == scheduler::local_path(
            c.data.dir@,
            db,
            table,
            chunk_time,
        ),
        plan matches UploadPlan::S3 { agent_id, time_min: t } ==> t == time_min && match c.agent {
            Some(a) => agent_id@ == a.id@,
            None => agent_id@ == "default"@,
        },
        plan matches UploadPlan::Http { url, agent_id } ==> match c.agent {
            Some(a) => agent_id@ == a.id@ && url@ == http_upload::ingest_url(
                a.server_url@,
                db,
                table,
                Some(chunk_time),
            ),
            None => agent_id@ == "default"@ && url@ == http_upload::ingest_url(
                Seq::empty(),
                db,
                table,
                Some(chunk_time),
            ),
        },
{
    reveal_strlit("local");
    reveal_strlit("s3");
    assert("local"@.len() == 5 && "s3"@.len() == 2);
}

/// The address of an upload is that of the server without slashes at its end, the path at
/// which the server takes files, and what a form has for the database, the table and the
/// chunk's time.
pub proof fn uploads_go_to_the_server(
    server_url: Seq<char>,
    db: Seq<char>,
    table: Seq<char>,
    chunk_time: Option<i64>,
    is_get: bool,
    with_agents: bool,
    r: crate::server::ServerRoute,
)
    ensures
        http_upload::ingest_url(server_url, db, table, chunk_time) == text::trimmed_end(
            server_url,
            '/',
        ) + "/api/v1/ingest/parquet"@ + seq!['?'] + crate::http::form_written(
            http_upload::ingest_pairs(db, table, chunk_time),
        ),
        crate::server::route_right(is_get, "/api/v1/ingest/parquet"@, with_agents, r) ==> r
            is Ingest,
        crate::http::first_value(http_upload::ingest_pairs(db, table, chunk_time), "db"@) == Some(
            db,
        ),
        crate::http::first_value(
            http_upload::ingest_pairs(db, table, chunk_time),
            "measurement"@,
        ) == Some(table),
        match chunk_time {
            Some(t) => crate::http::first_value(
                http_upload::ingest_pairs(db, table, chunk_time),
                "chunk_time"@,
            ) == Some(decimal::signed_numeral(t as int)),
            None => crate::http::first_value(
                http_upload::ingest_pairs(db, table, chunk_time),
                "chunk_time"@,
            ) is None,
        },
{
    reveal_strlit("/api/v1/ingest/parquet");
    reveal_strlit("/api/v1/ingest/parquet?");
    reveal_strlit("/api/v1/agents");
    reveal_strlit("db");
    reveal_strlit("measurement");
    reveal_strlit("chunk_time");
    http_upload::ingest_query_reads_back(db, table, chunk_time);
    assert("/api/v1/ingest/parquet?"@ =~= "/api/v1/ingest/parquet"@ + seq!['?']);
    let front = text::trimmed_end(server_url, '/');
    let back = http_upload::ingest_query(db, table, chunk_time);
    assert(front + "/api/v1/ingest/parquet?"@ + back =~= front + "/api/v1/ingest/parquet"@ + seq![
        '?',
    ] + back);
    assert("/api/v1/agents"@[8] != "/api/v1/ingest/parquet"@[8]);
    assert(!crate::server::is_agents_path("/api/v1/ingest/parquet"@));
    assert("db"@.len() == 2 && "measurement"@.len() == 11 && "chunk_time"@.len() == 10);
    let pairs = http_upload::ingest_pairs(db, table, chunk_time);
    assert(pairs[0].0 == "db"@ && pairs[1].0 == "measurement"@);
    notation::first_pair_counts(pairs, "db"@, 0);
    notation::first_pair_counts(pairs, "measurement"@, 1);
    notation::first_pair_counts(pairs, "chunk_time"@, 2);
}

} // verus!
