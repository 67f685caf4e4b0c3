//! Queries of the server for the rows that an agent still holds in memory.

use crate::agent::buffer;
use crate::agent::buffer::chunk;
use crate::agent::buffer::chunk::Table;
use crate::agent::buffer::Buffer;
use crate::decimal;
use crate::http;
use crate::http::Reply;
use crate::text;
use vstd::prelude::*;

verus! {

/// What a query asks for: the rows of a table within a range of time.
#[derive(Debug)]
pub struct RangeQuery {
    pub db: String,
    pub table: String,
    pub start_ns: Option<i64>,
    pub end_ns: Option<i64>,
}

/// What to do with a query: send a reply, or encode the rows within the range and report
/// the outcome.
pub enum QueryStep {
    Reply(Reply),
    Encode(RangeQuery),
}

/// The number that a parameter gives, where it gives one.
pub open spec fn number_param(
    pairs: Seq<(Seq<char>, Seq<char>)>,
    name: Seq<char>,
) -> Option<int> {
    match http::first_value(pairs, name) {
        Some(v) => decimal::signed_value(v),
        None => None,
    }
}

pub open spec fn optional_int(n: Option<i64>) -> Option<int> {
    match n {
        Some(v) => Some(v as int),
        None => None,
    }
}

pub open spec fn in_range(time: i64, start: Option<int>, end: Option<int>) -> bool {
    &&& start is Some ==> time >= start->0
    &&& end is Some ==> time <= end->0
}

/// Whether some row of the chunks lies within the range.
pub open spec fn any_in_range(
    chunks: Seq<chunk::ChunkModel>,
    start: Option<int>,
    end: Option<int>,
) -> bool {
    exists|c: int, r: int|
        0 <= c < chunks.len() && 0 <= r < chunks[c].rows.len() && in_range(
            (#[trigger] chunks[c].rows[r]).time,
            start,
            end,
        )
}

fn param_i64(pairs: &Vec<(String, String)>, name: &str) -> (r: Option<i64>)
    ensures
        optional_int(r) == number_param(text::pair_views(pairs@), name@),
{
    match http::find_value(pairs, name) {
        Some(v) => decimal::parse_i64(v.as_str()),
        None => None,
    }
}

fn within(time: i64, start_ns: Option<i64>, end_ns: Option<i64>) -> (r: bool)
    ensures
        r == in_range(time, optional_int(start_ns), optional_int(end_ns)),
{
    let after_start = match start_ns {
        Some(s) => time >= s,
        None => true,
    };
    let before_end = match end_ns {
        Some(e) => time <= e,
        None => true,
    };
    after_start && before_end
}

impl RangeQuery {
    /// Whether a row of a given time is asked for.
    pub fn keeps(&self, time: i64) -> (r: bool)
        ensures
            r == in_range(time, optional_int(self.start_ns), optional_int(self.end_ns)),
    {
        within(time, self.start_ns, self.end_ns)
    }
}

fn has_row_in_range(table: &Table, start_ns: Option<i64>, end_ns: Option<i64>) -> (r: bool)
    ensures
        r == any_in_range(table@.chunks, optional_int(start_ns), optional_int(end_ns)),
{
    let ghost chunks = table@.chunks;
    let ghost start = optional_int(start_ns);
    let ghost end = optional_int(end_ns);
    let mut c: usize = 0;
    while c < table.chunks.len()
        invariant
            c <= table.chunks@.len(),
            chunks == table@.chunks,
            start == optional_int(start_ns),
            end == optional_int(end_ns),
            forall|k: int, m: int|
                0 <= k < c && 0 <= m < chunks[k].rows.len() ==> !in_range(
                    (#[trigger] chunks[k].rows[m]).time,
                    start,
                    end,
                ),
        decreases table.chunks@.len() - c,
    {
        assert(chunks[c as int] == table.chunks@[c as int]@);
        let mut r: usize = 0;
        while r < table.chunks[c].rows.len()
            invariant
                c < table.chunks@.len(),
                chunks == table@.chunks,
                chunks[c as int] == table.chunks@[c as int]@,
                start == optional_int(start_ns),
                end == optional_int(end_ns),
                r <= table.chunks@[c as int].rows@.len(),
                forall|m: int|
                    0 <= m < r ==> !in_range(
                        (#[trigger] chunks[c as int].rows[m]).time,
                        start,
                        end,
                    ),
            decreases table.chunks@[c as int].rows@.len() - r,
        {
            let time = table.chunks[c].rows[r].time;
            assert(chunks[c as int].rows[r as int].time == time);
            if within(time, start_ns, end_ns) {
                return true;
            }
            r += 1;
        }
        c += 1;
    }
    false
}

pub struct FederationQueryHandler;

impl FederationQueryHandler {
    /// Takes a query. It needs a table; nothing within the range is told by a status of its
    /// own.
    pub fn handle(buffer: &Buffer, query: &str) -> (r: QueryStep)
        ensures
            ({
                let pairs = http::form_pairs(query@);
                let db = match http::first_value(pairs, "db"@) {
                    Some(d) => d,
                    None => "default"@,
                };
                match http::first_value(pairs, "table"@) {
                    None => r is Reply && r->Reply_0.is(
                        400,
                        "{\"error\":\"missing table param\"}"@,
                    ),
                    Some(table) => match buffer::table_of(buffer@, db, table) {
                        None => r is Reply && r->Reply_0.is(
                            404,
                            "{\"error\":\"table not found\"}"@,
                        ),
                        Some(t) => {
                            let start = number_param(pairs, "start"@);
                            let end = number_param(pairs, "end"@);
                            if any_in_range(t.chunks, start, end) {
                                &&& r is Encode
                                &&& r->Encode_0.db@ == db
                                &&& r->Encode_0.table@ == table
                                &&& optional_int(r->Encode_0.start_ns) == start
                                &&& optional_int(r->Encode_0.end_ns) == end
                            } else {
                                r is Reply && r->Reply_0.is(204, Seq::empty())
                            }
                        },
                    },
                }
            }),
            forall|pairs: Seq<(Seq<char>, Seq<char>)>|
                query@ == #[trigger] http::form_written(pairs) ==> http::form_pairs(query@)
                    == pairs,
    {
        let pairs = http::form_parse(query);
        let db = match http::find_value(&pairs, "db") {
            Some(d) => d,
            None => "default".to_owned(),
        };
        let table_name = match http::find_value(&pairs, "table") {
            Some(t) => t,
            None => {
                return QueryStep::Reply(
                    Reply::new(400, "{\"error\":\"missing table param\"}"),
                );
            },
        };
        let start_ns = param_i64(&pairs, "start");
        let end_ns = param_i64(&pairs, "end");
        match buffer.get_table(db.as_str(), table_name.as_str()) {
            Some(table) => {
                if has_row_in_range(table, start_ns, end_ns) {
                    QueryStep::Encode(RangeQuery { db, table: table_name, start_ns, end_ns })
                } else {
                    QueryStep::Reply(Reply { status: 204, body: String::new() })
                }
            },
            None => QueryStep::Reply(Reply::new(404, "{\"error\":\"table not found\"}")),
        }
    }

    /// The reply where the rows could not be encoded.
    pub fn encoding_failed(error: &str) -> (r: Reply)
        ensures
            r.is(500, "{\"error\":\""@ + error@ + "\"}"@),
    {
        Reply { status: 500, body: text::join3("{\"error\":\"", error, "\"}") }
    }
}

} // verus!
