//! Requests about databases and tables.

use crate::http;
use crate::http::Reply;
use crate::server::metadata_store;
use crate::server::metadata_store::{MetadataStore, TableDetail, TableSummary};
use crate::text;
use vstd::prelude::*;

verus! {

/// What the server answers to a request about databases and tables.
#[derive(Debug)]
pub enum MetadataReply {
    Databases(Vec<String>),
    Tables { database: String, tables: Vec<TableSummary> },
    Table(TableDetail),
    Text(Reply),
}

/// The value of a parameter, empty where the query string does not name it.
pub open spec fn param_of(query: Option<Seq<char>>, key: Seq<char>) -> Seq<char> {
    match http::first_value(http::query_pairs(query), key) {
        Some(v) => v,
        None => Seq::empty(),
    }
}

/// The value of a parameter, where the query string names it.
pub fn parse_query_param(query: Option<&str>, key: &str) -> (r: Option<String>)
    ensures
        r is Some == http::first_value(
            http::query_pairs(http::optional_view(query)),
            key@,
        ) is Some,
        r is Some ==> r->0@ == http::first_value(
            http::query_pairs(http::optional_view(query)),
            key@,
        )->0,
{
    let pairs = http::parse_query(query);
    http::find_value(&pairs, key)
}

fn param_or_empty(query: Option<&str>, key: &str) -> (r: String)
    ensures
        r@ == param_of(http::optional_view(query), key@),
{
    match parse_query_param(query, key) {
        Some(v) => v,
        None => String::new(),
    }
}

/// The body of an error.
pub open spec fn error_body(message: Seq<char>, status: u16) -> Seq<char> {
    "{\"error\":\""@ + message + "\",\"code\":\""@ + (if status == 404 {
        "NOT_FOUND"@
    } else {
        "INTERNAL"@
    }) + "\"}"@
}

/// A reply that tells of an error.
pub fn json_err(status: u16, message: &str) -> (r: Reply)
    ensures
        r.is(status, error_body(message@, status)),
{
    let mut body = text::join3("{\"error\":\"", message, "\",\"code\":\"");
    if status == 404 {
        body.append("NOT_FOUND");
    } else {
        body.append("INTERNAL");
    }
    body.append("\"}");
    Reply { status, body }
}

pub struct MetadataApiHandler;

impl MetadataApiHandler {
    /// Takes a request about databases and tables.
    pub fn handle(store: &MetadataStore, method: &str, path: &str, query: Option<&str>) -> (r:
        MetadataReply)
        ensures
            ({
                let q = http::optional_view(query);
                let s = store@;
                let db = param_of(q, "db"@);
                if method@ == "GET"@ && path@ == "/api/v1/metadata/databases"@ {
                    &&& r is Databases
                    &&& text::views(r->Databases_0@) == text::sorted_names(s.databases)
                } else if method@ == "GET"@ && "/api/v1/metadata/tables"@.is_prefix_of(path@) {
                    let names = text::sorted_names(metadata_store::table_names(s.tables, db));
                    &&& r is Tables
                    &&& r->database@ == db
                    &&& r->tables@.len() == names.len()
                    &&& forall|i: int|
                        0 <= i < names.len() ==> metadata_store::summarizes(
                            s,
                            db,
                            names[i],
                            #[trigger] r->tables@[i],
                        )
                } else if method@ == "GET"@ && "/api/v1/metadata/table"@.is_prefix_of(path@) {
                    match metadata_store::row_of(s, db, param_of(q, "table"@)) {
                        Some(row) => r is Table && metadata_store::detail_right(row, r->Table_0),
                        None => r is Text && r->Text_0.is(404, error_body("NOT_FOUND"@, 404)),
                    }
                } else {
                    r is Text && r->Text_0.is(404, error_body("NOT_FOUND"@, 404))
                }
            }),
    {
        if !text::same(method, "GET") {
            return MetadataReply::Text(json_err(404, "NOT_FOUND"));
        }
        if text::same(path, "/api/v1/metadata/databases") {
            return MetadataReply::Databases(store.list_databases());
        }
        if text::starts_with(path, "/api/v1/metadata/tables") {
            let database = param_or_empty(query, "db");
            let tables = store.list_tables(database.as_str());
            return MetadataReply::Tables { database, tables };
        }
        if text::starts_with(path, "/api/v1/metadata/table") {
            let db = param_or_empty(query, "db");
            let table = param_or_empty(query, "table");
            return match store.get_table(db.as_str(), table.as_str()) {
                Some(detail) => MetadataReply::Table(detail),
                None => MetadataReply::Text(json_err(404, "NOT_FOUND")),
            };
        }
        MetadataReply::Text(json_err(404, "NOT_FOUND"))
    }
}

} // verus!
