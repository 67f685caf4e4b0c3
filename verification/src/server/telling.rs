//! What the server tells of its tables, and who answers for what.

use crate::server::metadata_store;
use crate::server::metadata_store::{FieldRow, StoreModel, TableDetail, TableRow, TableSummary};
use crate::server::sql_api;
use crate::server::ServerRoute;
use crate::text;
use vstd::prelude::*;

verus! {

/// Whether names are some other names in order: the same ones, as often, and none before one
/// that it comes behind.
pub open spec fn in_order_of(told: Seq<Seq<char>>, names: Seq<Seq<char>>) -> bool {
    &&& told.to_multiset() == names.to_multiset()
    &&& forall|i: int, j: int|
        #![trigger told[i], told[j]]
        0 <= i < j < told.len() ==> !text::text_less(told[j], told[i])
}

/// Names are told in order, and each of them.
pub proof fn names_are_told_in_order(names: Seq<Seq<char>>)
    ensures
        in_order_of(text::sorted_names(names), names),
{
    text::sorting_orders_the_names(names);
}

/// The summary of a table tells its name, the rows that were counted, its range of time, its
/// tags in order, and how many fields it has beside them.
pub proof fn tables_are_summarized(
    s: StoreModel,
    db: Seq<char>,
    table: Seq<char>,
    r: TableSummary,
)
    requires
        metadata_store::summarizes(s, db, table, r),
    ensures
        exists|i: int| 0 <= i < s.tables.len() && is_summary_of(#[trigger] s.tables[i], db, table, r),
{
    let row = metadata_store::row_of(s, db, table)->0;
    metadata_store::lemma_row_position(s.tables, db, table);
    let i = metadata_store::row_position(s.tables, db, table);
    assert(s.tables[i] == row);
    crate::server::knowledge::tags_and_fields_are_listed(row.fields);
    names_are_told_in_order(metadata_store::tag_names(row.fields));
    assert(is_summary_of(s.tables[i], db, table, r));
}

/// Whether a summary is that of a table of given names.
pub open spec fn is_summary_of(
    row: TableRow,
    db: Seq<char>,
    table: Seq<char>,
    r: TableSummary,
) -> bool {
    &&& row.db == db && row.table == table
    &&& r.name@ == table
    &&& r.row_count == row.total_rows
    &&& r.time_min == row.time_min
    &&& r.time_max == row.time_max
    &&& in_order_of(
        text::views(r.tag_keys@),
        row.fields.filter(|f: FieldRow| f.is_tag).map_values(|f: FieldRow| f.name),
    )
    &&& r.field_count == (row.fields.len() - row.fields.filter(|f: FieldRow| f.is_tag).len()) as i64
}

/// The detail of a table tells its names, its rows and times, its tags and its sources in
/// order, and its other fields with their types in the order of their names.
pub proof fn tables_are_told_in_detail(row: TableRow, r: TableDetail)
    requires
        metadata_store::detail_right(row, r),
    ensures
        r.database@ == row.db,
        r.table@ == row.table,
        r.time_min == row.time_min,
        r.time_max == row.time_max,
        r.row_count == row.total_rows,
        r.updated_at == row.updated_at,
        in_order_of(
            text::views(r.tag_keys@),
            row.fields.filter(|f: FieldRow| f.is_tag).map_values(|f: FieldRow| f.name),
        ),
        in_order_of(text::views(r.sources@), row.sources),
        metadata_store::field_meta_views(r.fields@).to_multiset() == row.fields.filter(
            |f: FieldRow| !f.is_tag,
        ).map_values(|f: FieldRow| (f.name, f.value_type)).to_multiset(),
        forall|i: int, j: int|
            #![trigger r.fields@[i], r.fields@[j]]
            0 <= i < j < r.fields@.len() ==> !text::text_less(
                r.fields@[j].name@,
                r.fields@[i].name@,
            ),
{
    crate::server::knowledge::tags_and_fields_are_listed(row.fields);
    names_are_told_in_order(metadata_store::tag_names(row.fields));
    names_are_told_in_order(row.sources);
    let plain = metadata_store::plain_fields(row.fields);
    text::sorting_orders_the_pairs(plain);
    let told = metadata_store::field_meta_views(r.fields@);
    assert forall|i: int, j: int|
        #![trigger r.fields@[i], r.fields@[j]]
        0 <= i < j < r.fields@.len() implies !text::text_less(
        r.fields@[j].name@,
        r.fields@[i].name@,
    ) by {
        assert(told[i] == (r.fields@[i].name@, r.fields@[i].value_type@));
        assert(told[j] == (r.fields@[j].name@, r.fields@[j].value_type@));
    }
}

/// Requests to the server are told apart by their path: who answers depends on the method only
/// where the path is none that is known.
pub proof fn requests_are_told_apart(is_get: bool, path: Seq<char>, r: ServerRoute)
    requires
        crate::server::route_right(is_get, path, true, r),
    ensures
        r is Ingest <==> path == "/api/v1/ingest/parquet"@,
        r is Sql <==> path == "/api/v1/query"@,
        r is Agents <==> exists|rest: Seq<char>| #[trigger] ("/api/v1/agents"@ + rest) == path,
        r is Metadata <==> exists|rest: Seq<char>| #[trigger] ("/api/v1/metadata"@ + rest) == path,
        r is Page ==> is_get,
        r is Reply ==> (r->Reply_0.status == 200 <==> path == "/health"@) && (r->Reply_0.status
            == 404 <==> !(path == "/health"@)),
        r is Reply && path != "/health"@ ==> !is_get,
{
    reveal_strlit("/api/v1/ingest/parquet");
    reveal_strlit("/api/v1/query");
    reveal_strlit("/api/v1/agents");
    reveal_strlit("/api/v1/metadata");
    reveal_strlit("/health");
    let agents = "/api/v1/agents"@;
    let metadata = "/api/v1/metadata"@;
    assert("/api/v1/ingest/parquet"@[8] == 'i' && "/api/v1/query"@[8] == 'q' && agents[8] == 'a'
        && metadata[8] == 'm' && "/health"@.len() == 7);
    if agents.is_prefix_of(path) {
        assert(agents + path.skip(agents.len() as int) =~= path);
        assert(path[8] == agents[8]);
    }
    if metadata.is_prefix_of(path) {
        assert(metadata + path.skip(metadata.len() as int) =~= path);
        assert(path[8] == metadata[8]);
    }
    if exists|rest: Seq<char>| #[trigger] (agents + rest) == path {
        let rest = choose|rest: Seq<char>| #[trigger] (agents + rest) == path;
        assert(path.subrange(0, agents.len() as int) =~= agents);
    }
    if exists|rest: Seq<char>| #[trigger] (metadata + rest) == path {
        let rest = choose|rest: Seq<char>| #[trigger] (metadata + rest) == path;
        assert(path.subrange(0, metadata.len() as int) =~= metadata);
    }
}

/// The code of an error tells its status apart from the others that have one.
pub proof fn codes_tell_the_status(a: u16, b: u16)
    requires
        a == 400 || a == 405 || a == 422,
    ensures
        sql_api::status_name(a) == sql_api::status_name(b) <==> a == b,
        b != 400 && b != 405 && b != 422 ==> sql_api::status_name(b) == "INTERNAL"@,
{
    reveal_strlit("BAD_REQUEST");
    reveal_strlit("METHOD_NOT_ALLOWED");
    reveal_strlit("UNPROCESSABLE");
    reveal_strlit("INTERNAL");
    assert("BAD_REQUEST"@.len() == 11 && "METHOD_NOT_ALLOWED"@.len() == 18
        && "UNPROCESSABLE"@.len() == 13 && "INTERNAL"@.len() == 8);
}

} // verus!
