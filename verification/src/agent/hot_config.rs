//! The four parameters of an agent that the server can change while the agent runs.

use crate::config;
use crate::config::Config;
use crate::json;
use crate::text;
use vstd::prelude::*;

verus! {

#[derive(Debug, Clone, Copy)]
pub struct HotConfig {
    pub snapshot_interval_secs: i64,
    pub memory_limit_bytes: usize,
    pub wal_flush_interval: u64,
    pub wal_max_buffer_ops: usize,
}

/// The interval after an update: a positive duration replaces it, anything else does not.
pub open spec fn updated_interval(current: i64, update: json::Json) -> i64 {
    match json::member_of_member(update, "flush"@, "snapshot_interval"@) {
        Some(json::Json::Text(s)) => match config::duration_value(text::trimmed(s)) {
            Some(secs) => if 0 < secs <= i64::MAX {
                secs as i64
            } else {
                current
            },
            None => current,
        },
        _ => current,
    }
}

/// The memory limit after an update: a positive size replaces it, anything else does not.
pub open spec fn updated_limit(current: usize, update: json::Json) -> usize {
    match json::member_of_member(update, "flush"@, "memory_limit"@) {
        Some(json::Json::Text(s)) => match config::bytes_value(text::trimmed(s)) {
            Some(bytes) => if 0 < bytes <= usize::MAX {
                bytes as usize
            } else {
                current
            },
            None => current,
        },
        _ => current,
    }
}

/// A number of the `wal` section after an update: a positive natural number replaces it.
pub open spec fn updated_number(current: u64, update: json::Json, name: Seq<char>) -> u64 {
    match json::member_of_member(update, "wal"@, name) {
        Some(json::Json::Number(Some(n))) => if n > 0 {
            n
        } else {
            current
        },
        _ => current,
    }
}

/// The parameters after an update.
pub open spec fn updated(h: HotConfig, update: json::Json) -> HotConfig {
    HotConfig {
        snapshot_interval_secs: updated_interval(h.snapshot_interval_secs, update),
        memory_limit_bytes: updated_limit(h.memory_limit_bytes, update),
        wal_flush_interval: updated_number(
            h.wal_flush_interval,
            update,
            "flush_interval_secs"@,
        ),
        wal_max_buffer_ops: updated_number(
            h.wal_max_buffer_ops as u64,
            update,
            "max_write_buffer_ops"@,
        ) as usize,
    }
}

/// The text of a member of a member, where it is a text.
fn inner_text<'a>(update: &'a serde_json::Value, outer: &str, inner: &str) -> (r: Option<&'a str>)
    ensures
        match r {
            Some(s) => json::member_of_member(json::json_of(*update), outer@, inner@) == Some(
                json::Json::Text(s@),
            ),
            None => !(json::member_of_member(json::json_of(*update), outer@, inner@) matches Some(
                json::Json::Text(_),
            )),
        },
{
    match json::get(update, outer) {
        Some(section) => match json::get(section, inner) {
            Some(value) => json::as_text(value),
            None => None,
        },
        None => None,
    }
}

/// The positive natural number of a member of the `wal` section, where it is one.
fn inner_positive(update: &serde_json::Value, inner: &str) -> (r: Option<u64>)
    ensures
        forall|current: u64| #[trigger]
            updated_number(current, json::json_of(*update), inner@) == (match r {
                Some(n) => n,
                None => current,
            }),
        r is Some ==> r->0 > 0,
{
    match json::get(update, "wal") {
        Some(section) => match json::get(section, inner) {
            Some(value) => match json::as_natural(value) {
                Some(n) => if n > 0 {
                    Some(n)
                } else {
                    None
                },
                None => None,
            },
            None => None,
        },
        None => None,
    }
}

impl HotConfig {
    /// The parameters that the configuration gives.
    pub fn from_config(c: &Config) -> (r: HotConfig)
        requires
            c.limits_fit(),
        ensures
            r.snapshot_interval_secs == config::duration_secs(c.flush.snapshot_interval@),
            r.memory_limit_bytes == config::size_bytes(c.flush.memory_limit@),
            r.wal_flush_interval == c.wal.flush_interval_secs,
            r.wal_max_buffer_ops == c.wal.max_write_buffer_ops,
    {
        HotConfig {
            snapshot_interval_secs: c.snapshot_interval_secs(),
            memory_limit_bytes: c.memory_limit_bytes(),
            wal_flush_interval: c.wal.flush_interval_secs,
            wal_max_buffer_ops: c.wal.max_write_buffer_ops,
        }
    }

    /// Applies an update that the server sent: sections `flush` and `wal`. Missing sections
    /// and values that are no positive duration, size or number change nothing.
    pub fn apply_update(&mut self, update: &serde_json::Value)
        ensures
            *final(self) == updated(*old(self), json::json_of(*update)),
    {
        match inner_text(update, "flush", "snapshot_interval") {
            Some(s) => match config::parse_duration_opt(s) {
                Some(secs) => if secs > 0 {
                    self.snapshot_interval_secs = secs;
                },
                None => {},
            },
            None => {},
        }
        match inner_text(update, "flush", "memory_limit") {
            Some(m) => match config::parse_bytes_opt(m) {
                Some(bytes) => if bytes > 0 {
                    self.memory_limit_bytes = bytes;
                },
                None => {},
            },
            None => {},
        }
        match inner_positive(update, "flush_interval_secs") {
            Some(n) => {
                self.wal_flush_interval = n;
            },
            None => {},
        }
        let ghost current = self.wal_max_buffer_ops;
        match inner_positive(update, "max_write_buffer_ops") {
            Some(n) => {
                self.wal_max_buffer_ops = n as usize;
            },
            None => {},
        }
        assert(updated_number(
            current as u64,
            json::json_of(*update),
            "max_write_buffer_ops"@,
        ) as usize == self.wal_max_buffer_ops);
    }

    pub fn snapshot_interval_secs(&self) -> (r: i64)
        ensures
            r == self.snapshot_interval_secs,
    {
        self.snapshot_interval_secs
    }

    pub fn memory_limit_bytes(&self) -> (r: usize)
        ensures
            r == self.memory_limit_bytes,
    {
        self.memory_limit_bytes
    }

    pub fn wal_flush_interval(&self) -> (r: u64)
        ensures
            r == self.wal_flush_interval,
    {
        self.wal_flush_interval
    }

    pub fn wal_max_buffer_ops(&self) -> (r: usize)
        ensures
            r == self.wal_max_buffer_ops,
    {
        self.wal_max_buffer_ops
    }
}

/// An update changes no parameter that it does not name: without the section `flush` the
/// interval and the memory limit stay, without the section `wal` the other two stay.
pub proof fn update_leaves_unnamed_parameters(h: HotConfig, update: json::Json)
    ensures
        json::member(update, "flush"@) is None ==> updated(h, update).snapshot_interval_secs
            == h.snapshot_interval_secs && updated(h, update).memory_limit_bytes
            == h.memory_limit_bytes,
        json::member(update, "wal"@) is None ==> updated(h, update).wal_flush_interval
            == h.wal_flush_interval && updated(h, update).wal_max_buffer_ops
            == h.wal_max_buffer_ops,
{
}

/// An update keeps positive parameters positive, the number of operations where `usize`
/// holds every number of 64 bits; and an interval that is not positive stays as it is or
/// becomes positive.
pub proof fn update_keeps_parameters_positive(h: HotConfig, update: json::Json)
    ensures
        h.snapshot_interval_secs > 0 ==> updated(h, update).snapshot_interval_secs > 0,
        h.memory_limit_bytes > 0 ==> updated(h, update).memory_limit_bytes > 0,
        h.wal_flush_interval > 0 ==> updated(h, update).wal_flush_interval > 0,
        h.wal_max_buffer_ops > 0 && usize::MAX == u64::MAX ==> updated(
            h,
            update,
        ).wal_max_buffer_ops > 0,
        updated(h, update).snapshot_interval_secs != h.snapshot_interval_secs ==> updated(
            h,
            update,
        ).snapshot_interval_secs > 0,
{
}

/// Applying the same update a second time changes nothing.
pub proof fn update_is_idempotent(h: HotConfig, update: json::Json)
    ensures
        updated(updated(h, update), update) == updated(h, update),
{
}

} // verus!
