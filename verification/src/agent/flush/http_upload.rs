//! Uploads to the server: their address, their outcome, and where a failed one is kept.

use crate::decimal;
use crate::http;
use crate::text;
use vstd::prelude::*;

verus! {

/// Why an upload failed.
#[derive(Debug)]
pub enum UploadError {
    Http(String),
    ServerError { status: u16, body: String },
}

impl UploadError {
    pub open spec fn spec_message(&self) -> Seq<char> {
        match self {
            UploadError::Http(e) => "HTTP error: "@ + e@,
            UploadError::ServerError { status, body } => "server error "@ + decimal::numeral(
                *status as nat,
            ) + ": "@ + body@,
        }
    }

    /// The error as a text for its reader.
    pub fn message(&self) -> (r: String)
        ensures
            r@ == self.spec_message(),
    {
        match self {
            UploadError::Http(e) => text::join2("HTTP error: ", e.as_str()),
            UploadError::ServerError { status, body } => {
                let mut r = text::join3(
                    "server error ",
                    decimal::format_u64(*status as u64).as_str(),
                    ": ",
                );
                r.append(body.as_str());
                r
            },
        }
    }

    pub open spec fn spec_reason(&self) -> Seq<char> {
        match self {
            UploadError::Http(e) => e@,
            UploadError::ServerError { status, body } => "HTTP "@ + decimal::numeral(
                *status as nat,
            ) + " "@ + body@,
        }
    }

    /// The error as the snapshot reports it.
    pub fn reason(&self) -> (r: String)
        ensures
            r@ == self.spec_reason(),
    {
        match self {
            UploadError::Http(e) => e.clone(),
            UploadError::ServerError { status, body } => {
                let mut r = text::join3("HTTP ", decimal::format_u64(*status as u64).as_str(), " ");
                r.append(body.as_str());
                r
            },
        }
    }
}

/// The names and values that an upload sends in its query string.
pub open spec fn ingest_pairs(
    db: Seq<char>,
    table: Seq<char>,
    chunk_time: Option<i64>,
) -> Seq<(Seq<char>, Seq<char>)> {
    let pairs = seq![("db"@, db), ("measurement"@, table)];
    match chunk_time {
        Some(t) => pairs.push(("chunk_time"@, decimal::signed_numeral(t as int))),
        None => pairs,
    }
}

/// The query string of an upload.
pub open spec fn ingest_query(db: Seq<char>, table: Seq<char>, chunk_time: Option<i64>) -> Seq<
    char,
> {
    let query = "db="@ + http::form_encoded(db) + "&measurement="@ + http::form_encoded(table);
    match chunk_time {
        Some(t) => query + "&chunk_time="@ + decimal::signed_numeral(t as int),
        None => query,
    }
}

/// The address of an upload.
pub open spec fn ingest_url(
    server_url: Seq<char>,
    db: Seq<char>,
    table: Seq<char>,
    chunk_time: Option<i64>,
) -> Seq<char> {
    text::trimmed_end(server_url, '/') + "/api/v1/ingest/parquet?"@ + ingest_query(
        db,
        table,
        chunk_time,
    )
}

/// The address of an upload. The chunk's time makes the name of the file on the server the
/// same at every attempt.
pub fn build_ingest_url(server_url: &str, db: &str, table: &str, chunk_time: Option<i64>) -> (r:
    String)
    ensures
        r@ == ingest_url(server_url@, db@, table@, chunk_time),
{
    let mut url = text::trim_end_matches(server_url, '/');
    url.append("/api/v1/ingest/parquet?db=");
    url.append(http::form_encode(db).as_str());
    url.append("&measurement=");
    url.append(http::form_encode(table).as_str());
    proof {
        reveal_strlit("/api/v1/ingest/parquet?db=");
        reveal_strlit("/api/v1/ingest/parquet?");
        reveal_strlit("db=");
        assert("/api/v1/ingest/parquet?db="@ =~= "/api/v1/ingest/parquet?"@ + "db="@);
        assert(url@ =~= ingest_url(server_url@, db@, table@, None));
    }
    match chunk_time {
        Some(t) => {
            url.append("&chunk_time=");
            url.append(decimal::format_i64(t).as_str());
            assert(url@ =~= ingest_url(server_url@, db@, table@, chunk_time));
        },
        None => {},
    }
    url
}

/// What an upload came to: success is a status from 200 up to 299.
pub fn upload_result(sent: Result<(u16, String), String>) -> (r: Result<(), UploadError>)
    ensures
        match sent {
            Ok((status, body)) => if 200 <= status <= 299 {
                r is Ok
            } else {
                r is Err && r->Err_0 == (UploadError::ServerError { status, body })
            },
            Err(e) => r is Err && r->Err_0 == UploadError::Http(e),
        },
{
    match sent {
        Ok((status, body)) => if 200 <= status && status <= 299 {
            Ok(())
        } else {
            Err(UploadError::ServerError { status, body })
        },
        Err(e) => Err(UploadError::Http(e)),
    }
}

/// The name under which a chunk is staged.
pub open spec fn staged_name(chunk_time: i64) -> Seq<char> {
    decimal::signed_numeral(chunk_time as int) + ".parquet"@
}

/// The path under which a chunk is staged.
pub open spec fn staged_path(
    staging_dir: Seq<char>,
    db: Seq<char>,
    table: Seq<char>,
    chunk_time: i64,
) -> Seq<char> {
    text::path_in(text::path_in(text::path_in(staging_dir, db), table), staged_name(chunk_time))
}

/// The path under which a chunk is staged. It is the same at every failure of the chunk.
pub fn staging_path(staging_dir: &str, db: &str, table: &str, chunk_time: i64) -> (r: String)
    ensures
        r@ == staged_path(staging_dir@, db@, table@, chunk_time),
{
    let name = text::join2(decimal::format_i64(chunk_time).as_str(), ".parquet");
    let db_dir = text::join_path(staging_dir, db);
    let table_dir = text::join_path(db_dir.as_str(), table);
    text::join_path(table_dir.as_str(), name.as_str())
}

/// The chunk's time that the name of a staged file denotes.
pub open spec fn staged_time(name: Seq<char>) -> Option<int> {
    if ".parquet"@.is_suffix_of(name) {
        decimal::signed_value(name.take(name.len() - ".parquet"@.len()))
    } else {
        None
    }
}

/// The chunk's time that the name of a staged file denotes, where it is the name of one.
pub fn staged_chunk_time(name: &str) -> (r: Option<i64>)
    ensures
        r is Some == staged_time(name@) is Some,
        r is Some ==> r->0 == staged_time(name@)->0,
{
    match text::strip_suffix(name, ".parquet") {
        Some(stem) => {
            assert(name@.take(name@.len() - ".parquet"@.len()) =~= stem@);
            decimal::parse_i64(stem.as_str())
        },
        None => None,
    }
}

/// The retry of a staged file finds the chunk's time again in the name that the file was
/// saved under.
pub proof fn staged_name_reads_back(chunk_time: i64)
    ensures
        staged_time(staged_name(chunk_time)) == Some(chunk_time as int),
{
    decimal::signed_numeral_reads_back(chunk_time);
    let name = staged_name(chunk_time);
    let n = name.len() - ".parquet"@.len();
    assert(name.take(n) =~= decimal::signed_numeral(chunk_time as int));
    assert(name.skip(n) =~= ".parquet"@);
    assert(".parquet"@.is_suffix_of(name));
}

/// Chunks of different times are staged under different names.
pub proof fn staged_names_differ(a: i64, b: i64)
    ensures
        staged_name(a) == staged_name(b) <==> a == b,
{
    staged_name_reads_back(a);
    staged_name_reads_back(b);
}

/// The query string of an upload is what a form writes for the database, the table and
/// the chunk's time, so that the server reads back exactly these.
pub proof fn ingest_query_reads_back(db: Seq<char>, table: Seq<char>, chunk_time: Option<i64>)
    ensures
        ingest_query(db, table, chunk_time) == http::form_written(
            ingest_pairs(db, table, chunk_time),
        ),
{
    reveal_strlit("db");
    reveal_strlit("db=");
    reveal_strlit("measurement");
    reveal_strlit("&measurement=");
    reveal_strlit("chunk_time");
    reveal_strlit("&chunk_time=");
    http::lemma_form_encoded_plain("db"@);
    http::lemma_form_encoded_plain("measurement"@);
    http::lemma_form_encoded_plain("chunk_time"@);
    let first = seq![("db"@, db)];
    let two = seq![("db"@, db), ("measurement"@, table)];
    assert("db="@ =~= "db"@ + seq!['=']);
    assert("&measurement="@ =~= seq!['&'] + "measurement"@ + seq!['=']);
    assert("&chunk_time="@ =~= seq!['&'] + "chunk_time"@ + seq!['=']);
    assert(two.drop_last() =~= first);
    assert(http::form_written(first) =~= "db="@ + http::form_encoded(db));
    assert(http::form_written(two) =~= ingest_query(db, table, None));
    if chunk_time is Some {
        let t = chunk_time->0;
        http::lemma_form_encoded_numeral(t as int);
        let three = ingest_pairs(db, table, chunk_time);
        assert(three.drop_last() =~= two);
        assert(http::form_written(three) =~= ingest_query(db, table, chunk_time));
    }
}

} // verus!
