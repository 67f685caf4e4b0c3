//! What a query may cost, and what is told of its result.

use crate::decimal;
use crate::server::federation::{FederationOutcome, QueryMode};
use crate::text;
use vstd::prelude::*;

verus! {

/// The limits of a query: how many rows it may give, and how long it may take.
#[derive(Debug)]
pub struct QueryEngine {
    pub max_rows: usize,
    pub query_timeout_secs: u64,
}

/// What is told of the agents that were asked.
#[derive(Debug)]
pub struct FederationReport {
    pub mode: String,
    pub agents_queried: usize,
    pub agents_skipped: usize,
}

/// What is told of a result beside its rows.
#[derive(Debug)]
pub struct QueryReport {
    pub truncated: bool,
    pub returned_rows: usize,
    pub message: String,
    pub federation: Option<FederationReport>,
}

pub open spec fn mode_name(mode: QueryMode) -> Seq<char> {
    match mode {
        QueryMode::History => "history"@,
        QueryMode::Buffer => "buffer"@,
        QueryMode::All => "all"@,
    }
}

/// The name of a mode.
pub fn mode_string(mode: QueryMode) -> (r: &'static str)
    ensures
        r@ == mode_name(mode),
{
    match mode {
        QueryMode::History => "history",
        QueryMode::Buffer => "buffer",
        QueryMode::All => "all",
    }
}

/// The message for the reader of a result: agents that did not answer count more than a
/// result that was cut.
pub open spec fn result_message(
    rows: nat,
    max_rows: nat,
    outcome: Option<FederationOutcome>,
) -> Seq<char> {
    if outcome is Some && outcome->0.agents_skipped > 0 {
        decimal::numeral(outcome->0.agents_skipped as nat)
            + " agent(s) unreachable; result may be incomplete"@
    } else if rows >= max_rows {
        "result truncated at "@ + decimal::numeral(max_rows) + " rows"@
    } else {
        Seq::empty()
    }
}

/// A cell of a result. A number with a fraction is told by the bits of its 64-bit form; of
/// what has no form of its own the text is told, where there is one.
#[derive(Debug)]
pub enum Cell {
    Null,
    Flag(bool),
    Int(i64),
    UInt(u64),
    Float(u64),
    Text(String),
    Shown(Option<String>),
}

/// A cell of a result in a JSON document, which has no numbers that are not finite.
#[derive(Debug)]
pub enum CellJson {
    Null,
    Flag(bool),
    Int(i64),
    UInt(u64),
    Float(u64),
    Text(String),
}

/// Whether 64 bits are those of a finite number: the bits of the exponent are not all set.
pub open spec fn is_finite(bits: u64) -> bool {
    (bits >> 52) % 0x800 != 0x7ff
}

/// The text of a number that is not finite.
pub open spec fn infinite_text(bits: u64) -> Seq<char> {
    if bits == 0x7ff0_0000_0000_0000 {
        "inf"@
    } else if bits == 0xfff0_0000_0000_0000 {
        "-inf"@
    } else {
        "NaN"@
    }
}

/// Whether `r` is a cell in a JSON document.
pub open spec fn cell_right(cell: Cell, r: CellJson) -> bool {
    match cell {
        Cell::Null => r is Null,
        Cell::Flag(b) => r == CellJson::Flag(b),
        Cell::Int(n) => r == CellJson::Int(n),
        Cell::UInt(n) => r == CellJson::UInt(n),
        Cell::Float(bits) => if is_finite(bits) {
            r == CellJson::Float(bits)
        } else {
            r is Text && r->Text_0@ == infinite_text(bits)
        },
        Cell::Text(s) => r is Text && r->Text_0@ == s@,
        Cell::Shown(s) => match s {
            Some(t) => r is Text && r->Text_0@ == t@,
            None => r is Null,
        },
    }
}

/// A cell in a JSON document: numbers and flags as they are, anything else as text.
pub fn cell_to_json(cell: Cell) -> (r: CellJson)
    ensures
        cell_right(cell, r),
{
    match cell {
        Cell::Null => CellJson::Null,
        Cell::Flag(b) => CellJson::Flag(b),
        Cell::Int(n) => CellJson::Int(n),
        Cell::UInt(n) => CellJson::UInt(n),
        Cell::Float(bits) => if (bits >> 52) % 0x800 != 0x7ff {
            CellJson::Float(bits)
        } else if bits == 0x7ff0_0000_0000_0000 {
            CellJson::Text("inf".to_owned())
        } else if bits == 0xfff0_0000_0000_0000 {
            CellJson::Text("-inf".to_owned())
        } else {
            CellJson::Text("NaN".to_owned())
        },
        Cell::Text(s) => CellJson::Text(s),
        Cell::Shown(s) => match s {
            Some(t) => CellJson::Text(t),
            None => CellJson::Null,
        },
    }
}

impl QueryEngine {
    pub fn new(max_rows: usize, query_timeout_secs: u64) -> (r: QueryEngine)
        ensures
            r.max_rows == max_rows,
            r.query_timeout_secs == query_timeout_secs,
    {
        QueryEngine { max_rows, query_timeout_secs }
    }

    /// Whether the agents are asked for a query: not for one over stored rows alone, nor
    /// where there is no way to ask.
    pub fn federates(mode: QueryMode, can_ask: bool) -> (r: bool)
        ensures
            r == (mode != QueryMode::History && can_ask),
    {
        mode != QueryMode::History && can_ask
    }

    /// The error of a query that could not be planned.
    pub fn sql_error(error: &str) -> (r: String)
        ensures
            r@ == "SQL error: "@ + error@,
    {
        text::join2("SQL error: ", error)
    }

    /// The error of a query that failed while it ran.
    pub fn execution_error(error: &str) -> (r: String)
        ensures
            r@ == "Query execution error: "@ + error@,
    {
        text::join2("Query execution error: ", error)
    }

    /// The error of a query that took too long.
    pub fn timeout_error(&self) -> (r: String)
        ensures
            r@ == "Query timed out after "@ + decimal::numeral(self.query_timeout_secs as nat)
                + "s"@,
    {
        text::join3(
            "Query timed out after ",
            decimal::format_u64(self.query_timeout_secs).as_str(),
            "s",
        )
    }

    /// What is told of a result with a given number of rows. A result with as many rows as
    /// are allowed counts as cut.
    pub fn report(&self, rows: usize, mode: QueryMode, outcome: Option<FederationOutcome>) -> (r:
        QueryReport)
        ensures
            r.returned_rows == rows,
            r.truncated == (rows >= self.max_rows),
            r.message@ == result_message(rows as nat, self.max_rows as nat, outcome),
            match outcome {
                Some(o) => {
                    &&& r.federation is Some
                    &&& r.federation->0.mode@ == mode_name(mode)
                    &&& r.federation->0.agents_queried == o.agents_queried
                    &&& r.federation->0.agents_skipped == o.agents_skipped
                },
                None => r.federation is None,
            },
    {
        let truncated = rows >= self.max_rows;
        let mut message = if truncated {
            text::join3(
                "result truncated at ",
                decimal::format_u64(self.max_rows as u64).as_str(),
                " rows",
            )
        } else {
            String::new()
        };
        assert(!truncated ==> message@ =~= Seq::<char>::empty());
        let federation = match outcome {
            Some(o) => {
                if o.agents_skipped > 0 {
                    message =
                    text::join2(
                        decimal::format_u64(o.agents_skipped as u64).as_str(),
                        " agent(s) unreachable; result may be incomplete",
                    );
                }
                Some(
                    FederationReport {
                        mode: mode_string(mode).to_owned(),
                        agents_queried: o.agents_queried,
                        agents_skipped: o.agents_skipped,
                    },
                )
            },
            None => None,
        };
        QueryReport { truncated, returned_rows: rows, message, federation }
    }
}

} // verus!
