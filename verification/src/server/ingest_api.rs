//! Uploads of the agents: where they are stored, and what they change.

use crate::agent::flush::http_upload;
use crate::decimal;
use crate::http;
use crate::http::Reply;
use crate::server::metadata_store;
use crate::server::metadata_store::MetadataStore;
use crate::text;
use vstd::prelude::*;

verus! {

/// Whether a name is a single part of a path.
pub open spec fn safe_segment(name: Seq<char>) -> bool {
    &&& name.len() > 0
    &&& name != "."@
    &&& name != ".."@
    &&& !name.contains('/')
    &&& !name.contains('\\')
    &&& !text::has_part(name, ".."@)
}

/// Whether a character may stand in the name of a file.
pub open spec fn file_char(c: char) -> bool {
    ||| 'a' <= c <= 'z'
    ||| 'A' <= c <= 'Z'
    ||| '0' <= c <= '9'
    ||| c == '-'
    ||| c == '_'
    ||| c == '.'
}

/// A name with every other character replaced.
pub open spec fn sanitized(name: Seq<char>) -> Seq<char> {
    name.map_values(
        |c: char|
            if file_char(c) {
                c
            } else {
                '_'
            },
    )
}

/// The body of an error.
pub open spec fn error_body(code: Seq<char>) -> Seq<char> {
    "{\"error\":\""@ + http::lowercase(code) + "\",\"code\":\""@ + code + "\"}"@
}

/// The name of the file that an upload is stored in.
pub open spec fn file_name(agent_id: Seq<char>, chunk_time: i64) -> Seq<char> {
    agent_id + "_"@ + decimal::signed_numeral(chunk_time as int) + ".parquet"@
}

/// Tests whether a character stands in the name.
fn has_char(name: &Vec<char>, c: char) -> (r: bool)
    ensures
        r == name@.contains(c),
{
    let mut i: usize = 0;
    while i < name.len()
        invariant
            i <= name@.len(),
            forall|k: int| 0 <= k < i ==> name@[k] != c,
        decreases name@.len() - i,
    {
        if name[i] == c {
            assert(name@[i as int] == c);
            return true;
        }
        i += 1;
    }
    false
}

/// Whether a name is a single part of a path.
pub fn is_safe_segment(name: &str) -> (r: bool)
    ensures
        r == safe_segment(name@),
{
    let x = text::chars_of(name);
    !name.is_empty() && !text::same(name, ".") && !text::same(name, "..") && !has_char(&x, '/')
        && !has_char(&x, '\\') && !text::contains(name, "..")
}

/// The name with every character replaced that may not stand in the name of a file.
pub fn sanitize_filename_part(name: &str) -> (r: String)
    ensures
        r@ == sanitized(name@),
{
    let x = text::chars_of(name);
    let mut r = String::new();
    let mut i: usize = 0;
    while i < x.len()
        invariant
            i <= x@.len(),
            x@ == name@,
            r@ == sanitized(name@).take(i as int),
        decreases x@.len() - i,
    {
        let c = x[i];
        if ('a' <= c && c <= 'z') || ('A' <= c && c <= 'Z') || ('0' <= c && c <= '9') || c == '-'
            || c == '_' || c == '.' {
            r.push(c);
        } else {
            r.push('_');
        }
        assert(sanitized(name@).take(i + 1) =~= sanitized(name@).take(i as int).push(
            sanitized(name@)[i as int],
        ));
        i += 1;
    }
    assert(sanitized(name@).take(i as int) =~= sanitized(name@));
    r
}

/// A reply that tells of an error.
pub fn json_err(status: u16, code: &str) -> (r: Reply)
    ensures
        r.is(status, error_body(code@)),
{
    let mut body = text::join3(
        "{\"error\":\"",
        http::to_lowercase(code).as_str(),
        "\",\"code\":\"",
    );
    body.append(code);
    body.append("\"}");
    Reply { status, body }
}

/// What the query string of an upload tells.
#[derive(Debug)]
pub struct IngestParams {
    pub db: String,
    pub table: String,
    pub chunk_time: Option<i64>,
}

pub open spec fn param_or(
    pairs: Seq<(Seq<char>, Seq<char>)>,
    name: Seq<char>,
    default: Seq<char>,
) -> Seq<char> {
    match http::first_value(pairs, name) {
        Some(v) => v,
        None => default,
    }
}

/// The number that a parameter gives, where it gives one.
pub open spec fn time_param(pairs: Seq<(Seq<char>, Seq<char>)>) -> Option<int> {
    match http::first_value(pairs, "chunk_time"@) {
        Some(v) => decimal::signed_value(v),
        None => None,
    }
}

/// Whether `r` is what the pairs tell.
pub open spec fn params_right(pairs: Seq<(Seq<char>, Seq<char>)>, r: IngestParams) -> bool {
    &&& r.db@ == param_or(pairs, "db"@, "default"@)
    &&& r.table@ == param_or(pairs, "measurement"@, "unknown"@)
    &&& r.chunk_time is Some == time_param(pairs) is Some
    &&& r.chunk_time is Some ==> r.chunk_time->0 == time_param(pairs)->0
}

/// Reads the query string of an upload. What an agent wrote into it is read back.
pub fn ingest_params(query: Option<&str>) -> (r: IngestParams)
    ensures
        params_right(http::query_pairs(http::optional_view(query)), r),
        forall|db: Seq<char>, table: Seq<char>, chunk_time: Option<i64>|
            query is Some && query->0@ == #[trigger] http_upload::ingest_query(
                db,
                table,
                chunk_time,
            ) ==> r.db@ == db && r.table@ == table && r.chunk_time == chunk_time,
{
    let pairs = http::parse_query(query);
    let ghost read = text::pair_views(pairs@);
    let db = match http::find_value(&pairs, "db") {
        Some(v) => v,
        None => "default".to_owned(),
    };
    let table = match http::find_value(&pairs, "measurement") {
        Some(v) => v,
        None => "unknown".to_owned(),
    };
    let chunk_time = match http::find_value(&pairs, "chunk_time") {
        Some(v) => decimal::parse_i64(v.as_str()),
        None => None,
    };
    let r = IngestParams { db, table, chunk_time };
    proof {
        assert forall|db: Seq<char>, table: Seq<char>, chunk_time: Option<i64>|
            query is Some && query->0@ == #[trigger] http_upload::ingest_query(
                db,
                table,
                chunk_time,
            ) implies r.db@ == db && r.table@ == table && r.chunk_time == chunk_time by {
            http_upload::ingest_query_reads_back(db, table, chunk_time);
            let sent = http_upload::ingest_pairs(db, table, chunk_time);
            assert(query->0@ == http::form_written(sent));
            assert(read == sent);
            lemma_sent_pairs(db, table, chunk_time);
        }
    }
    r
}

proof fn lemma_sent_pairs(db: Seq<char>, table: Seq<char>, chunk_time: Option<i64>)
    ensures
        ({
            let sent = http_upload::ingest_pairs(db, table, chunk_time);
            &&& http::first_value(sent, "db"@) == Some(db)
            &&& http::first_value(sent, "measurement"@) == Some(table)
            &&& time_param(sent) == (match chunk_time {
                Some(t) => Some(t as int),
                None => None,
            })
        }),
{
    reveal_strlit("db");
    reveal_strlit("measurement");
    reveal_strlit("chunk_time");
    reveal_with_fuel(http::first_value, 4);
    assert("db"@.len() != "measurement"@.len());
    assert("db"@.len() != "chunk_time"@.len());
    assert("measurement"@.len() != "chunk_time"@.len());
    let sent = http_upload::ingest_pairs(db, table, chunk_time);
    let rest = sent.drop_first();
    let last = rest.drop_first();
    assert(rest[0] == sent[1]);
    if chunk_time is Some {
        decimal::signed_numeral_reads_back(chunk_time->0);
        assert(last[0] == sent[2]);
    } else {
        assert(last.len() == 0);
    }
}

/// An upload that may be stored, once its body is there.
#[derive(Debug)]
pub struct IngestTarget {
    pub db: String,
    pub table: String,
    pub agent_id: String,
    pub chunk_time: Option<i64>,
}

/// What to do with an upload before its body is read.
pub enum IngestStart {
    Reply(Reply),
    Accept(IngestTarget),
}

/// What to do with an upload once its body is there.
pub enum IngestStep {
    Reply(Reply),
    /// Make the directory, and write the body to the path unless a file is there already.
    Store { dir: String, path: String },
}

/// What came of storing an upload.
pub enum StoreOutcome {
    DirFailed(String),
    AlreadyThere,
    WriteFailed(String),
    Written,
}

/// What the end of a stored file tells of its rows.
#[derive(Debug)]
pub struct FileStats {
    pub time_min: i64,
    pub time_max: i64,
    pub row_count: usize,
    pub field_defs: Vec<(String, String)>,
}

/// The chunk's time of an upload, or the time `now_ns` without one.
pub open spec fn chunk_time_of(target: IngestTarget, now_ns: Option<i64>) -> i64 {
    match target.chunk_time {
        Some(t) => t,
        None => match now_ns {
            Some(t) => t,
            None => 0,
        },
    }
}

pub struct IngestApiHandler {
    pub data_dir: String,
    pub max_body_bytes: usize,
}

impl IngestApiHandler {
    /// Looks at an upload before its body is read.
    pub fn start(
        &self,
        method: &str,
        path: &str,
        query: Option<&str>,
        agent_header: Option<&str>,
        content_length: Option<&str>,
    ) -> (r: IngestStart)
        ensures
            ({
                let pairs = http::query_pairs(http::optional_view(query));
                let db = param_or(pairs, "db"@, "default"@);
                let table = param_or(pairs, "measurement"@, "unknown"@);
                if path@ != "/api/v1/ingest/parquet"@ {
                    r is Reply && r->Reply_0.is(404, error_body("NOT_FOUND"@))
                } else if method@ != "POST"@ {
                    r is Reply && r->Reply_0.is(405, error_body("METHOD_NOT_ALLOWED"@))
                } else if !safe_segment(db) || !safe_segment(table) {
                    r is Reply && r->Reply_0.is(400, error_body("BAD_REQUEST"@))
                } else if http::declared_length(http::optional_view(content_length))
                    > self.max_body_bytes {
                    r is Reply && r->Reply_0.is(413, error_body("PAYLOAD_TOO_LARGE"@))
                } else {
                    &&& r is Accept
                    &&& r->Accept_0.db@ == db
                    &&& r->Accept_0.table@ == table
                    &&& r->Accept_0.agent_id@ == (match agent_header {
                        Some(h) => sanitized(h@),
                        None => "unknown"@,
                    })
                    &&& r->Accept_0.chunk_time is Some == time_param(pairs) is Some
                    &&& r->Accept_0.chunk_time is Some ==> r->Accept_0.chunk_time->0 == time_param(
                        pairs,
                    )->0
                }
            }),
            r is Accept ==> forall|db: Seq<char>, table: Seq<char>, chunk_time: Option<i64>|
                query is Some && query->0@ == #[trigger] http_upload::ingest_query(
                    db,
                    table,
                    chunk_time,
                ) ==> r->Accept_0.db@ == db && r->Accept_0.table@ == table
                    && r->Accept_0.chunk_time == chunk_time,
    {
        if !text::same(path, "/api/v1/ingest/parquet") {
            return IngestStart::Reply(json_err(404, "NOT_FOUND"));
        }
        if !text::same(method, "POST") {
            return IngestStart::Reply(json_err(405, "METHOD_NOT_ALLOWED"));
        }
        let params = ingest_params(query);
        if !is_safe_segment(params.db.as_str()) || !is_safe_segment(params.table.as_str()) {
            return IngestStart::Reply(json_err(400, "BAD_REQUEST"));
        }
        let agent_id = match agent_header {
            Some(h) => sanitize_filename_part(h),
            None => "unknown".to_owned(),
        };
        if http::content_length(content_length) > self.max_body_bytes {
            return IngestStart::Reply(json_err(413, "PAYLOAD_TOO_LARGE"));
        }
        IngestStart::Accept(
            IngestTarget {
                db: params.db,
                table: params.table,
                agent_id,
                chunk_time: params.chunk_time,
            },
        )
    }

    /// The path of the file that an upload is stored in.
    pub open spec fn spec_path(&self, target: IngestTarget, now_ns: Option<i64>) -> Seq<char> {
        text::path_in(
            text::path_in(text::path_in(self.data_dir@, target.db@), target.table@),
            file_name(target.agent_id@, chunk_time_of(target, now_ns)),
        )
    }

    /// Says where an upload is to be stored, once its body is there. An upload whose rows
    /// were merged into another file is not stored again.
    pub fn place(
        &self,
        metadata: &MetadataStore,
        target: &IngestTarget,
        body_len: usize,
        now_ns: Option<i64>,
    ) -> (r: IngestStep)
        ensures
            if body_len > self.max_body_bytes {
                r is Reply && r->Reply_0.is(413, error_body("PAYLOAD_TOO_LARGE"@))
            } else if metadata_store::is_tombstoned(
                metadata@,
                target.db@,
                target.table@,
                file_name(target.agent_id@, chunk_time_of(*target, now_ns)),
            ) {
                r is Reply && r->Reply_0.is(200, "ok"@)
            } else {
                &&& r is Store
                &&& r->dir@ == text::path_in(
                    text::path_in(self.data_dir@, target.db@),
                    target.table@,
                )
                &&& r->path@ == self.spec_path(*target, now_ns)
            },
    {
        if body_len > self.max_body_bytes {
            return IngestStep::Reply(json_err(413, "PAYLOAD_TOO_LARGE"));
        }
        let db_dir = text::join_path(self.data_dir.as_str(), target.db.as_str());
        let dir = text::join_path(db_dir.as_str(), target.table.as_str());
        let chunk_time = match target.chunk_time {
            Some(t) => t,
            None => match now_ns {
                Some(t) => t,
                None => 0,
            },
        };
        let mut name = text::join3(
            target.agent_id.as_str(),
            "_",
            decimal::format_i64(chunk_time).as_str(),
        );
        name.append(".parquet");
        if metadata.tombstoned(target.db.as_str(), target.table.as_str(), name.as_str()) {
            return IngestStep::Reply(Reply::new(200, "ok"));
        }
        let path = text::join_path(dir.as_str(), name.as_str());
        IngestStep::Store { dir, path }
    }

    /// Takes what came of storing an upload. A file that was there already changes nothing:
    /// its rows were counted before. A new one is counted where its end could be read, and
    /// a registered agent is noted as a source of the table.
    pub fn finish(
        metadata: &mut MetadataStore,
        target: &IngestTarget,
        outcome: StoreOutcome,
        stats: &Option<FileStats>,
        agent_known: bool,
        now_ms: i64,
    ) -> (r: Reply)
        requires
            stats is Some ==> i64::MIN <= metadata_store::row_or_new(
                old(metadata)@,
                target.db@,
                target.table@,
            ).total_rows + stats->0.row_count as i64 <= i64::MAX,
        ensures
            match outcome {
                StoreOutcome::DirFailed(e) => r.is(500, error_body("mkdir: "@ + e@))
                    && *final(metadata) == *old(metadata),
                StoreOutcome::AlreadyThere => r.is(200, "ok"@) && *final(metadata) == *old(
                    metadata,
                ),
                StoreOutcome::WriteFailed(e) => r.is(500, error_body("write: "@ + e@))
                    && *final(metadata) == *old(metadata),
                StoreOutcome::Written => {
                    let row = metadata_store::row_or_new(
                        old(metadata)@,
                        target.db@,
                        target.table@,
                    );
                    let counted = match *stats {
                        Some(s) => metadata_store::with_row(
                            old(metadata)@,
                            metadata_store::counted(
                                row,
                                s.time_min,
                                s.time_max,
                                s.row_count,
                                text::pair_views(s.field_defs@),
                                Seq::empty(),
                                now_ms,
                            ),
                        ),
                        None => old(metadata)@,
                    };
                    &&& r.is(200, "ok"@)
                    &&& final(metadata)@ == metadata_store::with_row(
                        counted,
                        metadata_store::merged(
                            metadata_store::row_or_new(counted, target.db@, target.table@),
                            target.agent_id@,
                            agent_known,
                            Seq::empty(),
                            Seq::empty(),
                        ),
                    )
                },
            },
    {
        match outcome {
            StoreOutcome::DirFailed(e) => json_err(
                500,
                text::join2("mkdir: ", e.as_str()).as_str(),
            ),
            StoreOutcome::AlreadyThere => Reply::new(200, "ok"),
            StoreOutcome::WriteFailed(e) => json_err(
                500,
                text::join2("write: ", e.as_str()).as_str(),
            ),
            StoreOutcome::Written => {
                let no_tags: Vec<String> = Vec::new();
                let no_fields: Vec<(String, String)> = Vec::new();
                assert(text::views(no_tags@) =~= Seq::<Seq<char>>::empty());
                assert(text::pair_views(no_fields@) =~= Seq::<(Seq<char>, Seq<char>)>::empty());
                match stats {
                    Some(s) => {
                        metadata.update_stats(
                            target.db.as_str(),
                            target.table.as_str(),
                            s.time_min,
                            s.time_max,
                            s.row_count,
                            &s.field_defs,
                            &no_tags,
                            now_ms,
                        );
                    },
                    None => {},
                }
                metadata.merge_schema(
                    target.db.as_str(),
                    target.table.as_str(),
                    target.agent_id.as_str(),
                    agent_known,
                    &no_tags,
                    &no_fields,
                );
                Reply::new(200, "ok")
            },
        }
    }
}

proof fn lemma_numeral_chars(n: nat)
    ensures
        !decimal::numeral(n).contains('/'),
        !decimal::numeral(n).contains('_'),
{
    decimal::lemma_numeral_value(n);
    let d = decimal::numeral(n);
    assert forall|i: int| 0 <= i < d.len() implies d[i] != '/' && d[i] != '_' by {
        assert(decimal::is_digit(d[i]));
    }
}

/// The name of a stored file has no separator: an upload stays in the directory of its
/// table, whatever the agent calls itself.
pub proof fn stored_file_stays_in_its_directory(agent_header: Seq<char>, chunk_time: i64)
    ensures
        !file_name(sanitized(agent_header), chunk_time).contains('/'),
        !sanitized(agent_header).contains('/'),
        !sanitized(agent_header).contains('\\'),
{
    let s = sanitized(agent_header);
    assert forall|i: int| 0 <= i < s.len() implies file_char(#[trigger] s[i]) by {}
    reveal_strlit("_");
    reveal_strlit(".parquet");
    if chunk_time < 0 {
        lemma_numeral_chars((-chunk_time) as nat);
    } else {
        lemma_numeral_chars(chunk_time as nat);
    }
    let d = decimal::signed_numeral(chunk_time as int);
    let name = file_name(s, chunk_time);
    assert forall|i: int| 0 <= i < name.len() implies name[i] != '/' by {
        if i < s.len() {
            assert(name[i] == s[i]);
        } else if i == s.len() {
            assert(name[i] == '_');
        } else if i < s.len() + 1 + d.len() {
            assert(name[i] == d[i - s.len() - 1]);
            if chunk_time < 0 {
                if i - s.len() - 1 > 0 {
                    assert(d[i - s.len() - 1] == decimal::numeral((-chunk_time) as nat)[i - s.len()
                        - 2]);
                }
            }
        } else {
            assert(name[i] == ".parquet"@[i - s.len() - 1 - d.len()]);
        }
    }
}

/// Uploads of one agent have the same file name exactly where they have the same chunk's
/// time: a retry meets the file of its first attempt, and no other file.
pub proof fn file_name_tells_the_chunk(agent_id: Seq<char>, a: i64, b: i64)
    ensures
        file_name(agent_id, a) == file_name(agent_id, b) <==> a == b,
{
    if file_name(agent_id, a) == file_name(agent_id, b) {
        let x = decimal::signed_numeral(a as int);
        let y = decimal::signed_numeral(b as int);
        let n = file_name(agent_id, a);
        let at = (agent_id.len() + "_"@.len()) as int;
        assert(n.len() == at + x.len() + ".parquet"@.len());
        assert(file_name(agent_id, b).len() == at + y.len() + ".parquet"@.len());
        assert(n.subrange(at, at + x.len()) =~= x);
        assert(file_name(agent_id, b).subrange(at, at + y.len()) =~= y);
        decimal::signed_numeral_reads_back(a);
        decimal::signed_numeral_reads_back(b);
    }
}

} // verus!
