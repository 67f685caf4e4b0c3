//! Queries over HTTP: `POST /api/v1/query`.

use crate::http::Reply;
use crate::json;
use crate::server::federation;
use crate::server::federation::QueryMode;
use crate::text;
use vstd::prelude::*;

verus! {

pub struct SqlApiHandler;

/// What to do with a request, or with the result of its query: send a reply, run a query,
/// or look for new tables and run the same query once more.
#[derive(Debug)]
pub enum SqlStep {
    Reply(Reply),
    Run { sql: String, mode: QueryMode },
    Retry,
}

pub open spec fn status_name(status: u16) -> Seq<char> {
    if status == 400 {
        "BAD_REQUEST"@
    } else if status == 405 {
        "METHOD_NOT_ALLOWED"@
    } else if status == 422 {
        "UNPROCESSABLE"@
    } else {
        "INTERNAL"@
    }
}

/// The code of an error.
pub fn status_code_to_str(status: u16) -> (r: &'static str)
    ensures
        r@ == status_name(status),
{
    if status == 400 {
        "BAD_REQUEST"
    } else if status == 405 {
        "METHOD_NOT_ALLOWED"
    } else if status == 422 {
        "UNPROCESSABLE"
    } else {
        "INTERNAL"
    }
}

/// The body of an error.
pub open spec fn error_body(status: u16, msg: Seq<char>) -> Seq<char> {
    "{\"error\":\""@ + msg + "\",\"code\":\""@ + status_name(status) + "\"}"@
}

/// The reply of an error.
pub fn json_err(status: u16, msg: &str) -> (r: Reply)
    ensures
        r.is(status, error_body(status, msg@)),
{
    let mut body = text::join3("{\"error\":\"", msg, "\",\"code\":\"");
    body.append(status_code_to_str(status));
    body.append("\"}");
    Reply { status, body }
}

/// Whether a failed query is run once more: its table is missing, and it may be one that is
/// stored but not yet known. A query for the rows in memory is not: it must not come to see
/// stored rows.
pub open spec fn is_retried(mode: QueryMode, error: Seq<char>) -> bool {
    &&& mode != QueryMode::Buffer
    &&& text::has_part(error, "table"@)
    &&& text::has_part(error, "not found"@)
}

/// Whether `r` is the step for a query that was asked for: an empty one is refused.
pub open spec fn asked_step(sql: Seq<char>, mode: Seq<char>, r: SqlStep) -> bool {
    if sql.len() == 0 {
        r is Reply && r->Reply_0.is(400, error_body(400, "BAD_REQUEST"@))
    } else {
        r is Run && r->sql@ == sql && r->mode == federation::mode_of(mode)
    }
}

impl SqlApiHandler {
    /// The reply to a request that is no `POST`.
    pub fn check_method(is_post: bool) -> (r: Option<Reply>)
        ensures
            r is Some == !is_post,
            r is Some ==> r->0.is(405, error_body(405, "METHOD_NOT_ALLOWED"@)),
    {
        if is_post {
            None
        } else {
            Some(json_err(405, "METHOD_NOT_ALLOWED"))
        }
    }

    /// Takes the query of a body, over the stored rows where it names no mode. A body that
    /// is no document names nothing.
    pub fn take_body(body: &Vec<u8>) -> (r: SqlStep)
        ensures
            asked_step(
                json::text_member(json::parsed_json(body@), "sql"@, Seq::empty()),
                json::text_member(json::parsed_json(body@), "mode"@, "history"@),
                r,
            ),
    {
        let doc = json::parse(body.as_slice());
        proof {
            reveal_strlit("");
            assert(""@ =~= Seq::<char>::empty());
        }
        let sql = json::text_or(&doc, "sql", "");
        let mode = json::text_or(&doc, "mode", "history");
        Self::take_query(sql, mode.as_str())
    }

    /// Takes a query.
    pub fn take_query(sql: String, mode: &str) -> (r: SqlStep)
        ensures
            asked_step(sql@, mode@, r),
    {
        if sql.as_str().is_empty() {
            return SqlStep::Reply(json_err(400, "BAD_REQUEST"));
        }
        SqlStep::Run { mode: federation::parse_query_mode(mode), sql }
    }

    /// Takes the result of a query: the text of its rows, or why it failed. A query is run
    /// a second time at most.
    pub fn finish(mode: QueryMode, first: bool, result: Result<String, String>) -> (r: SqlStep)
        ensures
            match result {
                Ok(rows) => r is Reply && r->Reply_0.is(200, rows@),
                Err(e) => if first && is_retried(mode, e@) {
                    r is Retry
                } else {
                    r is Reply && r->Reply_0.is(422, error_body(422, e@))
                },
            },
    {
        match result {
            Ok(rows) => SqlStep::Reply(Reply { status: 200, body: rows }),
            Err(e) => {
                if first && mode != QueryMode::Buffer && text::contains(e.as_str(), "table")
                    && text::contains(e.as_str(), "not found") {
                    SqlStep::Retry
                } else {
                    SqlStep::Reply(json_err(422, e.as_str()))
                }
            },
        }
    }
}

} // verus!
