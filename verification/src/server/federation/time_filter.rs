//! The range of time that a condition leaves, as far as it can be told without the rows.
//!
//! Only a comparison of the column `time` with a constant tells something. Where nothing is
//! told, all rows are asked for: the condition itself is applied to them later.

use crate::decimal;
use crate::server::federation::sql;
use crate::server::federation::sql::{Condition, Operator};
use crate::text;
use vstd::prelude::*;

verus! {

#[derive(Debug, Clone, Copy, PartialEq, Eq, Structural)]
pub struct TimeRange {
    pub start_ns: Option<i64>,
    pub end_ns: Option<i64>,
}

impl TimeRange {
    /// Whether a time lies in the range; both bounds belong to it.
    pub open spec fn holds(&self, time: i64) -> bool {
        &&& self.start_ns is Some ==> self.start_ns->0 <= time
        &&& self.end_ns is Some ==> time <= self.end_ns->0
    }
}

/// Whether a condition is the column `time`, qualified or not.
pub open spec fn names_time(c: sql::ConditionModel) -> bool {
    c is Column && c->Column_0.len() > 0 && c->Column_0.last() == "time"@
}

/// The whole number that a constant stands for, written as a number or in quotes.
pub open spec fn constant_of(c: sql::ConditionModel) -> Option<int> {
    match c {
        sql::ConditionModel::Number(s) => decimal::signed_value(s),
        sql::ConditionModel::Quoted(s) => decimal::signed_value(s),
        _ => None,
    }
}

/// The greater of two lower bounds, where there are any.
pub open spec fn later(a: Option<i64>, b: Option<i64>) -> Option<i64> {
    match (a, b) {
        (Some(x), Some(y)) => Some(
            if x >= y {
                x
            } else {
                y
            },
        ),
        (Some(x), None) => Some(x),
        (None, b) => b,
    }
}

/// The lesser of two upper bounds, where there are any.
pub open spec fn earlier(a: Option<i64>, b: Option<i64>) -> Option<i64> {
    match (a, b) {
        (Some(x), Some(y)) => Some(
            if x <= y {
                x
            } else {
                y
            },
        ),
        (Some(x), None) => Some(x),
        (None, b) => b,
    }
}

/// The bounds of a range, none where there is no range.
pub open spec fn bounds(r: Option<TimeRange>) -> TimeRange {
    match r {
        Some(range) => range,
        None => TimeRange { start_ns: None, end_ns: None },
    }
}

/// The range that a comparison of the time with a value leaves. At the ends of the numbers
/// the bound stays where it is.
pub open spec fn compared(op: Operator, value: int) -> Option<TimeRange> {
    match op {
        Operator::Gt => Some(
            TimeRange {
                start_ns: Some(
                    if value < i64::MAX {
                        (value + 1) as i64
                    } else {
                        i64::MAX
                    },
                ),
                end_ns: None,
            },
        ),
        Operator::GtEq => Some(TimeRange { start_ns: Some(value as i64), end_ns: None }),
        Operator::Lt => Some(
            TimeRange {
                start_ns: None,
                end_ns: Some(
                    if value > i64::MIN {
                        (value - 1) as i64
                    } else {
                        i64::MIN
                    },
                ),
            },
        ),
        Operator::LtEq => Some(TimeRange { start_ns: None, end_ns: Some(value as i64) }),
        _ => None,
    }
}

/// The range that a condition leaves, nothing where it tells no bound. Of two conditions
/// that must both hold both bounds count; where one of two is enough, none does.
pub open spec fn range_of(c: sql::ConditionModel) -> Option<TimeRange>
    decreases c,
{
    match c {
        sql::ConditionModel::Binary(left, op, right) => if op == Operator::And {
            let l = bounds(range_of(*left));
            let r = bounds(range_of(*right));
            let both = TimeRange {
                start_ns: later(l.start_ns, r.start_ns),
                end_ns: earlier(l.end_ns, r.end_ns),
            };
            if both.start_ns is None && both.end_ns is None {
                None
            } else {
                Some(both)
            }
        } else if names_time(*left) && constant_of(*right) is Some {
            compared(op, constant_of(*right)->0)
        } else {
            None
        },
        _ => None,
    }
}

/// The greater of two lower bounds, where there are any.
pub fn merge_max(a: Option<i64>, b: Option<i64>) -> (r: Option<i64>)
    ensures
        r == later(a, b),
{
    match (a, b) {
        (Some(x), Some(y)) => if x >= y {
            Some(x)
        } else {
            Some(y)
        },
        (Some(x), None) => Some(x),
        (None, Some(y)) => Some(y),
        (None, None) => None,
    }
}

/// The lesser of two upper bounds, where there are any.
pub fn merge_min(a: Option<i64>, b: Option<i64>) -> (r: Option<i64>)
    ensures
        r == earlier(a, b),
{
    match (a, b) {
        (Some(x), Some(y)) => if x <= y {
            Some(x)
        } else {
            Some(y)
        },
        (Some(x), None) => Some(x),
        (None, Some(y)) => Some(y),
        (None, None) => None,
    }
}

/// Whether a condition is the column `time`, qualified or not.
fn is_time_column(c: &Condition) -> (r: bool)
    ensures
        r == names_time(c@),
{
    match c {
        Condition::Column(parts) => {
            assert(text::views(parts@).len() == parts@.len());
            if parts.len() == 0 {
                return false;
            }
            text::same(parts[parts.len() - 1].as_str(), "time")
        },
        _ => false,
    }
}

/// The whole number that a constant stands for, written as a number or in quotes.
fn parse_const(c: &Condition) -> (r: Option<i64>)
    ensures
        r is Some == constant_of(c@) is Some,
        r is Some ==> r->0 == constant_of(c@)->0,
{
    match c {
        Condition::Number(s) => decimal::parse_i64(s.as_str()),
        Condition::Quoted(s) => decimal::parse_i64(s.as_str()),
        _ => None,
    }
}

/// The range of time that a condition leaves, nothing where it tells no bound.
pub fn extract_time_range(c: &Condition) -> (r: Option<TimeRange>)
    ensures
        r == range_of(c@),
    decreases c@,
{
    let ghost m = c@;
    match c {
        Condition::Binary(left, op, right) => {
            assert(decreases_to!(m => *m->Binary_0));
            assert(decreases_to!(m => *m->Binary_2));
            match op {
                Operator::And => {
                    let l = match extract_time_range(left) {
                        Some(range) => range,
                        None => TimeRange { start_ns: None, end_ns: None },
                    };
                    let r = match extract_time_range(right) {
                        Some(range) => range,
                        None => TimeRange { start_ns: None, end_ns: None },
                    };
                    let both = TimeRange {
                        start_ns: merge_max(l.start_ns, r.start_ns),
                        end_ns: merge_min(l.end_ns, r.end_ns),
                    };
                    if both.start_ns.is_none() && both.end_ns.is_none() {
                        None
                    } else {
                        Some(both)
                    }
                },
                Operator::Or => None,
                Operator::Other => None,
                _ => {
                    if !is_time_column(left) {
                        return None;
                    }
                    let value = match parse_const(right) {
                        Some(v) => v,
                        None => {
                            return None;
                        },
                    };
                    match op {
                        Operator::Gt => {
                            let start = if value < i64::MAX {
                                value + 1
                            } else {
                                i64::MAX
                            };
                            Some(TimeRange { start_ns: Some(start), end_ns: None })
                        },
                        Operator::GtEq => Some(TimeRange { start_ns: Some(value), end_ns: None }),
                        Operator::Lt => {
                            let end = if value > i64::MIN {
                                value - 1
                            } else {
                                i64::MIN
                            };
                            Some(TimeRange { start_ns: None, end_ns: Some(end) })
                        },
                        Operator::LtEq => Some(TimeRange { start_ns: None, end_ns: Some(value) }),
                        _ => None,
                    }
                },
            }
        },
        _ => None,
    }
}

/// Whether a condition holds of a row with a given time. What is neither joined from other
/// conditions nor a comparison of the time with a constant holds as `other` says.
pub open spec fn satisfied(
    c: sql::ConditionModel,
    time: i64,
    other: spec_fn(sql::ConditionModel) -> bool,
) -> bool
    decreases c,
{
    match c {
        sql::ConditionModel::Binary(left, op, right) => match op {
            Operator::And => satisfied(*left, time, other) && satisfied(*right, time, other),
            Operator::Or => satisfied(*left, time, other) || satisfied(*right, time, other),
            Operator::Other => other(c),
            _ => if names_time(*left) && constant_of(*right) is Some {
                let value = constant_of(*right)->0;
                match op {
                    Operator::Gt => time > value,
                    Operator::GtEq => time >= value,
                    Operator::Lt => time < value,
                    _ => time <= value,
                }
            } else {
                other(c)
            },
        },
        _ => other(c),
    }
}

/// No row is lost: a row that satisfies the condition has its time in the range, whatever
/// the other parts of the condition mean.
pub proof fn range_keeps_every_row(
    c: sql::ConditionModel,
    time: i64,
    other: spec_fn(sql::ConditionModel) -> bool,
)
    requires
        satisfied(c, time, other),
    ensures
        bounds(range_of(c)).holds(time),
    decreases c,
{
    match c {
        sql::ConditionModel::Binary(left, op, right) => {
            if op == Operator::And {
                range_keeps_every_row(*left, time, other);
                range_keeps_every_row(*right, time, other);
            }
        },
        _ => {},
    }
}

} // verus!
