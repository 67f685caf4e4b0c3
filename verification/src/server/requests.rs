//! What uploads, queries and pages come to: names, places, messages.

use crate::agent::buffer::chunk;
use crate::agent::flush::leaving;
use crate::agent::status;
use crate::decimal;
use crate::frontend;
use crate::http;
use crate::mix;
use crate::notation;
use crate::server::federation;
use crate::server::federation::{FederationOutcome, QueryMode};
use crate::server::ingest_api;
use crate::server::ingest_api::{IngestApiHandler, IngestTarget};
use crate::server::knowledge;
use crate::server::metadata_api;
use crate::server::metadata_store;
use crate::server::query_engine;
use crate::server::query_engine::{Cell, CellJson};
use crate::server::sql_api;
use crate::server::sql_api::SqlStep;
use crate::server::table_provider;
use crate::text;
use vstd::prelude::*;

verus! {

/// A name that may be part of a path leads neither up nor down from its directory, and every
/// name that does neither may be one.
pub proof fn safe_names_stay_in_their_directory(name: Seq<char>)
    ensures
        ingest_api::safe_segment(name) <==> name.len() > 0 && !(name.len() == 1 && name[0] == '.')
            && (forall|i: int| 0 <= i < name.len() ==> #[trigger] name[i] != '/' && name[i] != '\\')
            && (forall|i: int, j: int|
            #![trigger name[i], name[j]]
            0 <= i && j == i + 1 && j < name.len() ==> !(name[i] == '.' && name[j] == '.')),
{
    reveal_strlit(".");
    reveal_strlit("..");
    assert("."@ =~= seq!['.']);
    assert(".."@ =~= seq!['.', '.']);
    if name.len() == 1 && name[0] == '.' {
        assert(name =~= "."@);
    }
    let clear = forall|i: int| 0 <= i < name.len() ==> #[trigger] name[i] != '/' && name[i] != '\\';
    if clear {
        assert(!name.contains('/') && !name.contains('\\'));
    }
    if !name.contains('/') && !name.contains('\\') {
        assert forall|i: int| 0 <= i < name.len() implies #[trigger] name[i] != '/' && name[i]
            != '\\' by {
            assert(name.contains(name[i]));
        }
    }
    let apart = forall|i: int, j: int|
        #![trigger name[i], name[j]]
        0 <= i && j == i + 1 && j < name.len() ==> !(name[i] == '.' && name[j] == '.');
    if apart {
        if text::has_part(name, ".."@) {
            let i = choose|i: int| text::part_at(name, ".."@, i);
            assert(name.subrange(i, i + 2)[0] == name[i]);
            assert(name.subrange(i, i + 2)[1] == name[i + 1]);
            assert(name[i] == '.' && name[i + 1] == '.');
        }
        if name == ".."@ {
            assert(name[0] == '.' && name[1] == '.');
        }
    }
    if !text::has_part(name, ".."@) {
        assert forall|i: int, j: int|
            #![trigger name[i], name[j]]
            0 <= i && j == i + 1 && j < name.len() implies !(name[i] == '.' && name[j] == '.') by {
            if name[i] == '.' && name[j] == '.' {
                assert(name.subrange(i, i + 2) =~= ".."@);
                assert(text::part_at(name, ".."@, i));
            }
        }
    }
}

/// A name keeps its length and the letters, digits, hyphens, underscores and dots of ASCII;
/// every other character becomes an underscore.
pub proof fn other_characters_are_replaced(name: Seq<char>)
    ensures
        ingest_api::sanitized(name).len() == name.len(),
        forall|i: int|
            0 <= i < name.len() ==> {
                let c = name[i];
                let kept = 'a' <= c <= 'z' || 'A' <= c <= 'Z' || '0' <= c <= '9' || c == '-' || c
                    == '_' || c == '.';
                #[trigger] ingest_api::sanitized(name)[i] == (if kept {
                    c
                } else {
                    '_'
                })
            },
        ingest_api::sanitized(ingest_api::sanitized(name)) == ingest_api::sanitized(name),
{
    assert(ingest_api::sanitized(ingest_api::sanitized(name)) =~= ingest_api::sanitized(name));
}

/// An upload is stored for the time that it was sent with, and without one for the time of
/// its arrival.
pub proof fn uploads_have_a_time(target: IngestTarget, now_ns: i64)
    ensures
        target.chunk_time matches Some(t) ==> ingest_api::chunk_time_of(target, Some(now_ns)) == t
            && ingest_api::chunk_time_of(target, None) == t,
        target.chunk_time is None ==> ingest_api::chunk_time_of(target, Some(now_ns)) == now_ns
            && ingest_api::chunk_time_of(target, None) == 0,
{
}

/// The file of an upload tells the agent and the chunk: those of different agents or times
/// have different names.
pub proof fn files_tell_agent_and_chunk(a: Seq<char>, s: i64, b: Seq<char>, t: i64)
    ensures
        ingest_api::file_name(a, s) == ingest_api::file_name(b, t) <==> a == b && s == t,
{
    reveal_strlit("_");
    reveal_strlit(".parquet");
    let x = decimal::signed_numeral(s as int);
    let y = decimal::signed_numeral(t as int);
    let f = ingest_api::file_name(a, s);
    let g = ingest_api::file_name(b, t);
    assert(".parquet"@.len() == 8 && "_"@ =~= seq!['_']);
    assert(f.len() == a.len() + 1 + x.len() + 8);
    assert(g.len() == b.len() + 1 + y.len() + 8);
    if f == g {
        if x.len() < y.len() {
            lemma_no_underscore(t as int, y.len() - x.len() - 1);
            assert(f[a.len() as int] == '_');
            assert(g[a.len() as int] == y[a.len() - b.len() - 1]);
        }
        if y.len() < x.len() {
            lemma_no_underscore(s as int, x.len() - y.len() - 1);
            assert(g[b.len() as int] == '_');
            assert(f[b.len() as int] == x[b.len() - a.len() - 1]);
        }
        assert(f.subrange(0, a.len() as int) =~= a);
        assert(g.subrange(0, b.len() as int) =~= b);
        ingest_api::file_name_tells_the_chunk(a, s, t);
    }
}

proof fn lemma_no_underscore(time: int, i: int)
    requires
        0 <= i < decimal::signed_numeral(time).len(),
    ensures
        decimal::signed_numeral(time)[i] != '_',
{
    let n: nat = if time < 0 {
        (-time) as nat
    } else {
        time as nat
    };
    notation::numbers_are_written_plainly(n);
    let d = decimal::numeral(n);
    if time < 0 {
        if i > 0 {
            assert(decimal::signed_numeral(time)[i] == d[i - 1]);
            assert(decimal::is_digit(d[i - 1]));
        }
    } else {
        assert(decimal::is_digit(d[i]));
    }
}

/// Uploads of different tables, agents or chunks are stored under different paths.
pub proof fn uploads_have_their_own_files(
    h: IngestApiHandler,
    a: IngestTarget,
    b: IngestTarget,
    now_ns: Option<i64>,
)
    requires
        ingest_api::safe_segment(a.db@) && ingest_api::safe_segment(a.table@),
        ingest_api::safe_segment(b.db@) && ingest_api::safe_segment(b.table@),
        !a.agent_id@.contains('/') && !b.agent_id@.contains('/'),
    ensures
        h.spec_path(a, now_ns) == h.spec_path(b, now_ns) <==> a.db@ == b.db@ && a.table@ == b.table@
            && a.agent_id@ == b.agent_id@ && ingest_api::chunk_time_of(a, now_ns)
            == ingest_api::chunk_time_of(b, now_ns),
{
    let s = ingest_api::chunk_time_of(a, now_ns);
    let t = ingest_api::chunk_time_of(b, now_ns);
    lemma_file_name_plain(a.agent_id@, s);
    lemma_file_name_plain(b.agent_id@, t);
    files_tell_agent_and_chunk(a.agent_id@, s, b.agent_id@, t);
    if h.spec_path(a, now_ns) == h.spec_path(b, now_ns) {
        leaving::lemma_two_directories(
            h.data_dir@,
            a.db@,
            a.table@,
            ingest_api::file_name(a.agent_id@, s),
            b.db@,
            b.table@,
            ingest_api::file_name(b.agent_id@, t),
        );
    }
}

proof fn lemma_file_name_plain(agent_id: Seq<char>, time: i64)
    requires
        !agent_id.contains('/'),
    ensures
        !ingest_api::file_name(agent_id, time).contains('/'),
{
    reveal_strlit("_");
    reveal_strlit(".parquet");
    leaving::lemma_no_slash(time as int);
    let f = ingest_api::file_name(agent_id, time);
    let n = decimal::signed_numeral(time as int);
    if f.contains('/') {
        let i = choose|i: int| 0 <= i < f.len() && f[i] == '/';
        let k = agent_id.len() as int;
        if i < k {
            assert(agent_id[i] == '/');
        } else if i == k {
            assert(f[i] == '_');
        } else if i < k + 1 + n.len() {
            assert(n[i - k - 1] == '/');
        } else {
            assert(".parquet"@[i - k - 1 - n.len()] == '/');
        }
    }
}

/// A parameter has the first value of its name, and else the one that stands for it.
pub proof fn parameters_have_their_first_value(
    before: Seq<(Seq<char>, Seq<char>)>,
    name: Seq<char>,
    value: Seq<char>,
    after: Seq<(Seq<char>, Seq<char>)>,
    default: Seq<char>,
    query: Seq<char>,
)
    requires
        forall|i: int| 0 <= i < before.len() ==> (#[trigger] before[i]).0 != name,
    ensures
        ingest_api::param_or(before, name, default) == default,
        ingest_api::param_or(before.push((name, value)) + after, name, default) == value,
        name == "chunk_time"@ ==> ingest_api::time_param(before) is None && ingest_api::time_param(
            before.push((name, value)) + after,
        ) == decimal::signed_value(value),
        metadata_api::param_of(None, name) == Seq::<char>::empty(),
        http::form_pairs(query) == before.push((name, value)) + after ==> metadata_api::param_of(
            Some(query),
            name,
        ) == value,
        http::form_pairs(query) == before ==> metadata_api::param_of(Some(query), name) == Seq::<
            char,
        >::empty(),
{
    let all = before.push((name, value)) + after;
    assert forall|k: int| 0 <= k < before.len() implies (#[trigger] all[k]).0 != name by {
        assert(all[k] == before[k]);
    }
    notation::first_pair_counts(before, name, before.len() as int);
    notation::first_pair_counts(all, name, before.len() as int);
}

proof fn lemma_pending(
    found: Seq<(Seq<char>, Seq<char>)>,
    registered: Seq<Seq<char>>,
    name: Seq<char>,
)
    ensures
        has_name(table_provider::pending(found, registered), name) <==> has_name(found, name)
            && !registered.contains(name),
    decreases found.len(),
{
    if found.len() > 0 {
        let front = found.drop_last();
        let l = found.len() - 1;
        lemma_pending(front, registered, name);
        let before = table_provider::pending(front, registered);
        let after = table_provider::pending(found, registered);
        let new_name = table_provider::qualified_name(found.last().0, found.last().1);
        lemma_pending(front, registered, new_name);
        assert(found[l] == found.last());
        if has_name(front, name) {
            let k = choose|k: int|
                0 <= k < front.len() && table_provider::qualified_name(
                    (#[trigger] front[k]).0,
                    front[k].1,
                ) == name;
            assert(found[k] == front[k]);
        }
        if has_name(found, name) && new_name != name {
            let k = choose|k: int|
                0 <= k < found.len() && table_provider::qualified_name(
                    (#[trigger] found[k]).0,
                    found[k].1,
                ) == name;
            assert(front[k] == found[k]);
        }
        if after != before {
            assert(after == before.push(found.last()));
            assert(after[before.len() as int] == found.last());
            if has_name(before, name) {
                let k = choose|k: int|
                    0 <= k < before.len() && table_provider::qualified_name(
                        (#[trigger] before[k]).0,
                        before[k].1,
                    ) == name;
                assert(after[k] == before[k]);
            }
            if has_name(after, name) && new_name != name {
                let k = choose|k: int|
                    0 <= k < after.len() && table_provider::qualified_name(
                        (#[trigger] after[k]).0,
                        after[k].1,
                    ) == name;
                assert(before[k] == after[k]);
            }
        }
    }
}

/// Whether one of the tables has a name.
pub open spec fn has_name(tables: Seq<(Seq<char>, Seq<char>)>, name: Seq<char>) -> bool {
    exists|i: int|
        0 <= i < tables.len() && table_provider::qualified_name(
            (#[trigger] tables[i]).0,
            tables[i].1,
        ) == name
}

/// The tables that are to be registered are those found whose name is not registered: all of
/// them, and no other.
pub proof fn unregistered_tables_are_registered(
    found: Seq<(Seq<char>, Seq<char>)>,
    registered: Seq<Seq<char>>,
    name: Seq<char>,
)
    ensures
        has_name(table_provider::pending(found, registered), name) <==> has_name(found, name)
            && !registered.contains(name),
{
    lemma_pending(found, registered, name);
}

/// No name is registered twice, and the tables are registered in the order in which they are
/// found.
pub proof fn names_are_registered_once(
    found: Seq<(Seq<char>, Seq<char>)>,
    more: (Seq<char>, Seq<char>),
    registered: Seq<Seq<char>>,
)
    ensures
        forall|i: int, j: int|
            #![trigger table_provider::pending(found, registered)[i], table_provider::pending(found, registered)[j]]
            0 <= i < j < table_provider::pending(found, registered).len()
                ==> table_provider::qualified_name(
                table_provider::pending(found, registered)[i].0,
                table_provider::pending(found, registered)[i].1,
            ) != table_provider::qualified_name(
                table_provider::pending(found, registered)[j].0,
                table_provider::pending(found, registered)[j].1,
            ),
        table_provider::pending(found.push(more), registered) == table_provider::pending(
            found,
            registered,
        ) || table_provider::pending(found.push(more), registered) == table_provider::pending(
            found,
            registered,
        ).push(more),
    decreases found.len(),
{
    assert(found.push(more).drop_last() =~= found);
    let after = table_provider::pending(found, registered);
    if found.len() > 0 {
        let front = found.drop_last();
        names_are_registered_once(front, more, registered);
        let before = table_provider::pending(front, registered);
        assert forall|i: int, j: int|
            #![trigger after[i], after[j]]
            0 <= i < j < after.len() implies table_provider::qualified_name(after[i].0, after[i].1)
            != table_provider::qualified_name(after[j].0, after[j].1) by {
            assert(after[i] == before[i]);
            if j < before.len() {
                assert(after[j] == before[j]);
            } else {
                assert(after[j] == found.last());
                assert(!table_provider::known(
                    registered,
                    before,
                    table_provider::qualified_name(found.last().0, found.last().1),
                ));
            }
        }
    }
}

/// The database of a name is what stands in front of its first dot, and a name without a dot
/// has none; so the database of a table is found again in its name.
pub proof fn names_tell_their_database(db: Seq<char>, rest: Seq<char>, table: Seq<char>)
    requires
        !db.contains('.'),
    ensures
        table_provider::dot_position(db.push('.') + rest) == db.len(),
        table_provider::dot_position(db) == db.len(),
        table_provider::qualified_name(db, table) == db.push('.') + table,
        table_provider::qualified_name(db, table).take(
            table_provider::dot_position(table_provider::qualified_name(db, table)),
        ) == db,
    decreases db.len(),
{
    reveal_strlit(".");
    assert("."@ =~= seq!['.']);
    lemma_dot_position(db, rest);
    lemma_dot_position(db, table);
    assert(table_provider::qualified_name(db, table) =~= db.push('.') + table);
    assert((db.push('.') + table).take(db.len() as int) =~= db);
}

proof fn lemma_dot_position(db: Seq<char>, rest: Seq<char>)
    requires
        !db.contains('.'),
    ensures
        table_provider::dot_position(db.push('.') + rest) == db.len(),
        table_provider::dot_position(db) == db.len(),
    decreases db.len(),
{
    let all = db.push('.') + rest;
    if db.len() == 0 {
        assert(all[0] == '.');
    } else {
        assert(db.contains(db[0]));
        assert(all[0] == db[0]);
        let tail = db.drop_first();
        assert(!tail.contains('.')) by {
            if tail.contains('.') {
                let i = choose|i: int| 0 <= i < tail.len() && tail[i] == '.';
                assert(db[i + 1] == '.');
            }
        }
        lemma_dot_position(tail, rest);
        assert(all.drop_first() =~= tail.push('.') + rest);
    }
}

/// A mode is read back from its name.
pub proof fn mode_names_read_back(mode: QueryMode)
    ensures
        federation::mode_of(query_engine::mode_name(mode)) == mode,
{
    reveal_strlit("history");
    reveal_strlit("buffer");
    reveal_strlit("all");
    assert("history"@.len() == 7 && "buffer"@.len() == 6 && "all"@.len() == 3);
}

/// A result has a message exactly where an agent was skipped or the rows reach the limit; the
/// number of skipped agents goes first.
pub proof fn messages_tell_what_is_missing(
    rows: nat,
    max_rows: nat,
    outcome: FederationOutcome,
)
    ensures
        query_engine::result_message(rows, max_rows, None).len() > 0 <==> rows >= max_rows,
        query_engine::result_message(rows, max_rows, Some(outcome)).len() > 0 <==> rows >= max_rows
            || outcome.agents_skipped > 0,
        outcome.agents_skipped > 0 ==> query_engine::result_message(rows, max_rows, Some(outcome))
            == decimal::numeral(outcome.agents_skipped as nat)
            + " agent(s) unreachable; result may be incomplete"@,
        outcome.agents_skipped == 0 ==> query_engine::result_message(rows, max_rows, Some(outcome))
            == query_engine::result_message(rows, max_rows, None),
        rows >= max_rows ==> query_engine::result_message(rows, max_rows, None)
            == "result truncated at "@ + decimal::numeral(max_rows) + " rows"@,
{
    reveal_strlit(" agent(s) unreachable; result may be incomplete");
    reveal_strlit("result truncated at ");
    reveal_strlit(" rows");
    assert(" rows"@.len() == 5);
    assert(" agent(s) unreachable; result may be incomplete"@.len() == 47);
}

/// Bits are those of a number that is not finite where all bits of the exponent are set; what
/// is told of it is its sign where no bit of the fraction is, and else that it is no number.
pub proof fn infinite_numbers_are_told(bits: u64)
    ensures
        query_engine::is_finite(bits) <==> bits & 0x7ff0_0000_0000_0000 != 0x7ff0_0000_0000_0000,
        !query_engine::is_finite(bits) && bits & 0x000f_ffff_ffff_ffff != 0
            ==> query_engine::infinite_text(bits) == "NaN"@,
        !query_engine::is_finite(bits) && bits & 0x000f_ffff_ffff_ffff == 0 && bits
            & 0x8000_0000_0000_0000 == 0 ==> query_engine::infinite_text(bits) == "inf"@,
        !query_engine::is_finite(bits) && bits & 0x000f_ffff_ffff_ffff == 0 && bits
            & 0x8000_0000_0000_0000 != 0 ==> query_engine::infinite_text(bits) == "-inf"@,
{
    assert(((bits >> 52) % 0x800 == 0x7ff) <==> (bits & 0x7ff0_0000_0000_0000
        == 0x7ff0_0000_0000_0000)) by (bit_vector);
    assert(0x7ff0_0000_0000_0000u64 & 0x000f_ffff_ffff_ffff == 0 && 0xfff0_0000_0000_0000u64
        & 0x000f_ffff_ffff_ffff == 0) by (bit_vector);
    assert(bits & 0x7ff0_0000_0000_0000 == 0x7ff0_0000_0000_0000 && bits & 0x000f_ffff_ffff_ffff
        == 0 && bits & 0x8000_0000_0000_0000 == 0 ==> bits == 0x7ff0_0000_0000_0000)
        by (bit_vector);
    assert(bits & 0x7ff0_0000_0000_0000 == 0x7ff0_0000_0000_0000 && bits & 0x000f_ffff_ffff_ffff
        == 0 && bits & 0x8000_0000_0000_0000 != 0 ==> bits == 0xfff0_0000_0000_0000)
        by (bit_vector);
}

/// A cell comes out as what it is: nothing as nothing, a truth value, a number and a text as
/// the same, and what has no form of its own as its text.
pub proof fn cells_come_out_as_they_are(cell: Cell, r: CellJson)
    requires
        query_engine::cell_right(cell, r),
    ensures
        cell matches Cell::Flag(b) ==> r == CellJson::Flag(b),
        cell matches Cell::Int(n) ==> r == CellJson::Int(n),
        cell matches Cell::UInt(n) ==> r == CellJson::UInt(n),
        cell matches Cell::Float(bits) ==> (r is Float <==> query_engine::is_finite(bits)) && (r
            is Float ==> r->Float_0 == bits) && (!(r is Float) ==> r is Text && r->Text_0@
            == query_engine::infinite_text(bits)),
        cell matches Cell::Text(s) ==> r is Text && r->Text_0@ == s@,
        cell matches Cell::Shown(Some(s)) ==> r is Text && r->Text_0@ == s@,
        r is Null <==> cell is Null || cell == Cell::Shown(None),
{
}

/// A failed query is run again where its error says that a table is not found, unless it asks
/// for the rows in memory alone.
pub proof fn missing_tables_are_looked_for(a: Seq<char>, b: Seq<char>, c: Seq<char>, mode: QueryMode)
    ensures
        sql_api::is_retried(mode, a + "table"@ + b + "not found"@ + c) <==> mode
            != QueryMode::Buffer,
        sql_api::is_retried(mode, a + "not found"@ + b + "table"@ + c) <==> mode
            != QueryMode::Buffer,
        !text::has_part(a, "table"@) ==> !sql_api::is_retried(mode, a),
        !text::has_part(a, "not found"@) ==> !sql_api::is_retried(mode, a),
{
    let x = "table"@;
    let y = "not found"@;
    let e = a + x + b + y + c;
    assert(e.subrange(a.len() as int, (a.len() + x.len()) as int) =~= x);
    assert(text::part_at(e, x, a.len() as int));
    let at: int = (a.len() + x.len() + b.len()) as int;
    assert(e.subrange(at, at + y.len()) =~= y);
    assert(text::part_at(e, y, at));
    let f = a + y + b + x + c;
    assert(f.subrange(a.len() as int, (a.len() + y.len()) as int) =~= y);
    assert(text::part_at(f, y, a.len() as int));
    let to: int = (a.len() + y.len() + b.len()) as int;
    assert(f.subrange(to, to + x.len()) =~= x);
    assert(text::part_at(f, x, to));
}

/// A query that is asked for runs as it is, in the mode of the name that is told; only an
/// empty one does not run.
pub proof fn queries_run_as_asked(sql: Seq<char>, mode: QueryMode, r: SqlStep)
    requires
        sql_api::asked_step(sql, query_engine::mode_name(mode), r),
    ensures
        r is Run <==> sql.len() > 0,
        r is Run ==> r->sql@ == sql && r->mode == mode,
        !(r is Run) ==> r is Reply && r->Reply_0.status == 400,
{
    mode_names_read_back(mode);
}

/// A page is the file that a path names behind its slashes, and the default page where it
/// names none.
pub proof fn paths_name_their_page(slashes: Seq<char>, name: Seq<char>, default_page: Seq<char>)
    requires
        notation::is_run(slashes, '/'),
        name.len() > 0 ==> name[0] != '/',
    ensures
        name.len() > 0 ==> frontend::page_name(default_page, slashes + name) == name,
        name.len() == 0 ==> frontend::page_name(default_page, slashes + name) == default_page,
    decreases slashes.len(),
{
    lemma_slashes(slashes, name);
}

proof fn lemma_slashes(slashes: Seq<char>, name: Seq<char>)
    requires
        notation::is_run(slashes, '/'),
        name.len() > 0 ==> name[0] != '/',
    ensures
        text::trimmed_start(slashes + name, '/') == name,
    decreases slashes.len(),
{
    let all = slashes + name;
    if slashes.len() == 0 {
        assert(all =~= name);
    } else {
        let rest = slashes.drop_first();
        assert(slashes[0] == '/');
        assert(all[0] == '/');
        assert forall|i: int| 0 <= i < rest.len() implies #[trigger] rest[i] == '/' by {
            assert(rest[i] == slashes[i + 1]);
        }
        lemma_slashes(rest, name);
        assert(all.drop_first() =~= rest + name);
    }
}

/// A file is told by what its name ends in: a page, a script, a style, and anything else as
/// bytes.
pub proof fn names_tell_the_content(name: Seq<char>, other: Seq<char>)
    ensures
        frontend::content_type(name + ".html"@) == "text/html; charset=utf-8"@,
        frontend::content_type(name + ".js"@) == "application/javascript"@,
        frontend::content_type(name + ".css"@) == "text/css"@,
        other.len() > 0 && other.last() != 'l' && other.last() != 's' ==> frontend::content_type(
            other,
        ) == "application/octet-stream"@,
{
    reveal_strlit(".html");
    reveal_strlit(".js");
    reveal_strlit(".css");
    let a = name + ".html"@;
    let b = name + ".js"@;
    let c = name + ".css"@;
    assert(".html"@.len() == 5 && ".js"@.len() == 3 && ".css"@.len() == 4);
    assert(a.subrange(a.len() - 5, a.len() as int) =~= ".html"@);
    assert(b.subrange(b.len() - 3, b.len() as int) =~= ".js"@);
    assert(c.subrange(c.len() - 4, c.len() as int) =~= ".css"@);
    lemma_not_suffix(".html"@, b);
    lemma_not_suffix(".html"@, c);
    assert(c[c.len() - 2] == 's');
    assert(!".js"@.is_suffix_of(c)) by {
        if ".js"@.is_suffix_of(c) {
            assert(c.subrange(c.len() - 3, c.len() as int)[1] == ".js"@[1]);
            assert(c[c.len() - 2] == 'j');
        }
    }
    if other.len() > 0 && other.last() != 'l' && other.last() != 's' {
        lemma_not_suffix(".html"@, other);
        lemma_not_suffix(".js"@, other);
        lemma_not_suffix(".css"@, other);
    }
}

proof fn lemma_not_suffix(end: Seq<char>, s: Seq<char>)
    requires
        end.len() > 0,
        s.len() > 0,
        end.last() != s.last(),
    ensures
        !end.is_suffix_of(s),
{
    if end.is_suffix_of(s) {
        assert(s.subrange(s.len() - end.len(), s.len() as int).last() == s.last());
    }
}

/// The content of a name is that of the first file of the name.
pub proof fn first_file_is_shown(assets: Seq<(String, Vec<u8>)>, name: Seq<char>, i: int)
    requires
        0 <= i <= assets.len(),
        forall|k: int| 0 <= k < i ==> (#[trigger] assets[k]).0@ != name,
        i < assets.len() ==> assets[i].0@ == name,
    ensures
        i < assets.len() ==> frontend::asset(assets, name) == Some(assets[i].1@),
        i == assets.len() ==> frontend::asset(assets, name) is None,
    decreases assets.len(),
{
    if i > 0 {
        let rest = assets.drop_first();
        assert(assets[0].0@ != name);
        assert forall|k: int| 0 <= k < i - 1 implies (#[trigger] rest[k]).0@ != name by {
            assert(rest[k] == assets[k + 1]);
        }
        if i < assets.len() {
            assert(rest[i - 1] == assets[i]);
        }
        first_file_is_shown(rest, name, i - 1);
    }
}

/// Chunks that were written to a file beside the server are counted: all their rows, within
/// the range of all their times, under the schema of their table.
pub proof fn local_files_are_counted(
    row: metadata_store::TableRow,
    schema: chunk::SchemaModel,
    chunks: Seq<chunk::ChunkModel>,
    now_ms: i64,
    i: int,
)
    requires
        0 <= i < chunks.len(),
        status::row_total(chunks) <= usize::MAX,
        status::row_total(chunks) <= i64::MAX,
        row.total_rows + status::row_total(chunks) <= i64::MAX,
        forall|k: int|
            0 <= k < chunks.len() ==> (#[trigger] chunks[k]).time_min != i64::MAX
                && chunks[k].time_max != i64::MIN,
    ensures
        ({
            let after = mix::flushed(row, schema, chunks, now_ms);
            &&& after.total_rows == row.total_rows + status::row_total(chunks)
            &&& after.time_min is Some && after.time_min->0 <= chunks[i].time_min
            &&& after.time_max is Some && after.time_max->0 >= chunks[i].time_max
            &&& after.time_min == row.time_min || exists|k: int|
                0 <= k < chunks.len() && after.time_min == Some((#[trigger] chunks[k]).time_min)
            &&& after.time_max == row.time_max || exists|k: int|
                0 <= k < chunks.len() && after.time_max == Some((#[trigger] chunks[k]).time_max)
            &&& after.updated_at == Some(now_ms)
            &&& after.db == row.db && after.table == row.table && after.sources == row.sources
            &&& knowledge::learned(
                row.fields,
                crate::agent::report_of(schema).field_defs,
                schema.tag_keys,
                after.fields,
            )
        }),
{
    let min = status::least_time(chunks);
    let max = status::greatest_time(chunks);
    let rows = chunk::capped(status::row_total(chunks));
    crate::agent::accounts::times_told_are_those_of_chunks(chunks);
    assert(min <= chunks[i].time_min);
    assert(chunks[i].time_min != i64::MAX && chunks[i].time_max != i64::MIN);
    assert(min != i64::MAX && max != i64::MIN);
    let defs = crate::agent::report_of(schema).field_defs;
    assert(schema.fields.map_values(|f: (Seq<char>, chunk::FieldType)| (f.0, f.1.spec_name()))
        =~= defs);
    assert(rows == status::row_total(chunks));
    knowledge::counting_adds_up(row, min, max, rows, defs, schema.tag_keys, now_ms);
    let a = choose|k: int| 0 <= k < chunks.len() && (#[trigger] chunks[k]).time_min == min;
    let b = choose|k: int| 0 <= k < chunks.len() && (#[trigger] chunks[k]).time_max == max;
    assert(chunks[a].time_min == min && chunks[b].time_max == max);
}

} // verus!
