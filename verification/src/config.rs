//! The configuration of an agent or a server, its defaults, and the sizes and intervals
//! that it writes as text.

use crate::decimal;
use crate::text;
use vstd::prelude::*;

verus! {

#[derive(Debug, Clone)]
pub struct Config {
    pub server: ServerConfig,
    pub data: DataConfig,
    pub wal: WalConfig,
    pub flush: FlushConfig,
    pub s3: Option<S3Config>,
    pub agent: Option<AgentClientConfig>,
    pub query: Option<QueryConfig>,
    pub compaction: Option<CompactionConfig>,
    pub agents: Option<AgentsConfig>,
    pub metadata: Option<MetadataConfig>,
}

#[derive(Debug, Clone)]
pub struct ServerConfig {
    pub host: String,
    pub port: u16,
    pub max_body_bytes: usize,
}

#[derive(Debug, Clone)]
pub struct DataConfig {
    /// Path of the directory that holds all files.
    pub dir: String,
}

#[derive(Debug, Clone)]
pub struct WalConfig {
    pub flush_interval_secs: u64,
    pub max_write_buffer_ops: usize,
}

#[derive(Debug, Clone)]
pub struct FlushConfig {
    /// For example `10m`.
    pub snapshot_interval: String,
    /// `http`, `s3` or `local`.
    pub backend: String,
    /// For example `512MB`.
    pub memory_limit: String,
}

#[derive(Debug, Clone)]
pub struct S3Config {
    pub bucket: String,
    pub region: String,
    pub endpoint: String,
    pub access_key: String,
    pub secret_key: String,
}

#[derive(Debug, Clone)]
pub struct AgentClientConfig {
    pub id: String,
    pub server_url: String,
}

#[derive(Debug, Clone)]
pub struct QueryConfig {
    pub data_dir: String,
    pub query_timeout_secs: u64,
    pub max_rows: usize,
    pub max_concurrent_queries: usize,
}

#[derive(Debug, Clone)]
pub struct CompactionConfig {
    pub enabled: bool,
    pub schedule: String,
    pub min_file_size_mb: u64,
    pub target_file_size_mb: u64,
    pub max_concurrent: usize,
}

#[derive(Debug, Clone)]
pub struct AgentsConfig {
    pub heartbeat_timeout_secs: u64,
    pub offline_cleanup_days: u64,
    pub default_config: Option<AgentDefaultConfig>,
}

#[derive(Debug, Clone)]
pub struct AgentDefaultConfig {
    pub flush: Option<FlushConfig>,
    pub wal: Option<WalConfig>,
    pub s3: Option<S3Config>,
}

#[derive(Debug, Clone)]
pub struct MetadataConfig {
    pub db_path: String,
}

pub fn default_host() -> (r: String)
    ensures
        r@ == "0.0.0.0"@,
{
    "0.0.0.0".to_owned()
}

pub fn default_port() -> (r: u16)
    ensures
        r == 8080,
{
    8080
}

pub fn default_max_body_bytes() -> (r: usize)
    ensures
        r == 10 * 1024 * 1024,
{
    10 * 1024 * 1024
}

pub fn default_data_dir() -> (r: String)
    ensures
        r@ == "/var/lib/iedb-agent"@,
{
    "/var/lib/iedb-agent".to_owned()
}

pub fn default_wal_flush_interval() -> (r: u64)
    ensures
        r == 1,
{
    1
}

pub fn default_max_write_buffer_ops() -> (r: usize)
    ensures
        r == 100_000,
{
    100_000
}

pub fn default_wal() -> (r: WalConfig)
    ensures
        r.flush_interval_secs == 1,
        r.max_write_buffer_ops == 100_000,
{
    WalConfig {
        flush_interval_secs: default_wal_flush_interval(),
        max_write_buffer_ops: default_max_write_buffer_ops(),
    }
}

pub fn default_snapshot_interval() -> (r: String)
    ensures
        r@ == "10m"@,
{
    "10m".to_owned()
}

pub fn default_backend() -> (r: String)
    ensures
        r@ == "http"@,
{
    "http".to_owned()
}

pub fn default_memory_limit() -> (r: String)
    ensures
        r@ == "512MB"@,
{
    "512MB".to_owned()
}

pub fn default_flush() -> (r: FlushConfig)
    ensures
        r.snapshot_interval@ == "10m"@,
        r.backend@ == "http"@,
        r.memory_limit@ == "512MB"@,
{
    FlushConfig {
        snapshot_interval: default_snapshot_interval(),
        backend: default_backend(),
        memory_limit: default_memory_limit(),
    }
}

pub fn default_query_timeout() -> (r: u64)
    ensures
        r == 30,
{
    30
}

pub fn default_max_rows() -> (r: usize)
    ensures
        r == 10000,
{
    10000
}

pub fn default_max_concurrent_queries() -> (r: usize)
    ensures
        r == 4,
{
    4
}

pub fn default_true() -> (r: bool)
    ensures
        r,
{
    true
}

pub fn default_compaction_schedule() -> (r: String)
    ensures
        r@ == "0 */6 * * *"@,
{
    "0 */6 * * *".to_owned()
}

pub fn default_min_file_size_mb() -> (r: u64)
    ensures
        r == 10,
{
    10
}

pub fn default_target_file_size_mb() -> (r: u64)
    ensures
        r == 128,
{
    128
}

pub fn default_max_concurrent() -> (r: usize)
    ensures
        r == 2,
{
    2
}

pub fn default_heartbeat_timeout() -> (r: u64)
    ensures
        r == 30,
{
    30
}

pub fn default_offline_cleanup_days() -> (r: u64)
    ensures
        r == 7,
{
    7
}

pub fn default_db_path() -> (r: String)
    ensures
        r@ == "/var/lib/iedb/iedb.db"@,
{
    "/var/lib/iedb/iedb.db".to_owned()
}

/// The seconds that `t` denotes: a number followed by `m` (minutes) or `s` (seconds).
pub open spec fn duration_value(t: Seq<char>) -> Option<int> {
    if t.len() == 0 {
        None
    } else {
        match decimal::signed_value(t.drop_last()) {
            Some(n) => if t.last() == 'm' {
                Some(n * 60)
            } else if t.last() == 's' {
                Some(n)
            } else {
                None
            },
            None => None,
        }
    }
}

/// The seconds that the text `s` stands for: ten minutes where it is no duration.
pub open spec fn duration_secs(s: Seq<char>) -> int {
    match duration_value(text::trimmed(s)) {
        Some(secs) => secs,
        None => 600,
    }
}

pub open spec fn is_letter(c: char, lower: char, upper: char) -> bool {
    c == lower || c == upper
}

/// Bytes per unit where `t` ends in `MB` or `GB`, in either case of the letters.
pub open spec fn unit_bytes(t: Seq<char>) -> Option<nat> {
    if t.len() < 2 || !is_letter(t.last(), 'b', 'B') {
        None
    } else if is_letter(t[t.len() - 2], 'm', 'M') {
        Some(1024 * 1024)
    } else if is_letter(t[t.len() - 2], 'g', 'G') {
        Some(1024 * 1024 * 1024)
    } else {
        None
    }
}

/// The bytes that `t` denotes: a number followed by `MB` or `GB`.
pub open spec fn bytes_value(t: Seq<char>) -> Option<nat> {
    match unit_bytes(t) {
        Some(unit) => match decimal::unsigned_value(t.take(t.len() - 2), usize::MAX as nat) {
            Some(n) => Some(n * unit),
            None => None,
        },
        None => None,
    }
}

/// The bytes that the text `s` stands for: 1 GB for a number of gigabytes that cannot be
/// read, and 512 MB for any other text that is no size.
pub open spec fn size_bytes(s: Seq<char>) -> nat {
    match bytes_value(text::trimmed(s)) {
        Some(n) => n,
        None => if unit_bytes(text::trimmed(s)) == Some((1024 * 1024 * 1024) as nat) {
            1024 * 1024 * 1024
        } else {
            512 * 1024 * 1024
        },
    }
}

enum DurationUnit {
    Minutes,
    Seconds,
}

/// The number and the unit of a duration, where `t` ends in a unit.
fn split_duration(t: &String) -> (r: Option<(Option<i64>, DurationUnit)>)
    ensures
        match r {
            Some((n, unit)) => t@.len() > 0 && t@.last() == (match unit {
                DurationUnit::Minutes => 'm',
                DurationUnit::Seconds => 's',
            }) && n is Some == decimal::signed_value(t@.drop_last()) is Some && (n is Some ==> n->0
                == decimal::signed_value(t@.drop_last())->0),
            None => t@.len() == 0 || (t@.last() != 'm' && t@.last() != 's'),
        },
{
    let x = text::chars_of(t.as_str());
    if x.len() == 0 {
        return None;
    }
    let number = text::text_of(&x, 0, x.len() - 1);
    assert(number@ =~= t@.drop_last());
    let last = x[x.len() - 1];
    if last == 'm' {
        Some((decimal::parse_i64(number.as_str()), DurationUnit::Minutes))
    } else if last == 's' {
        Some((decimal::parse_i64(number.as_str()), DurationUnit::Seconds))
    } else {
        None
    }
}

/// The seconds that a text such as `10m` or `60s` stands for.
pub fn parse_duration(s: &str) -> (r: i64)
    requires
        i64::MIN <= duration_secs(s@) <= i64::MAX,
    ensures
        r == duration_secs(s@),
{
    let t = text::trim(s);
    match split_duration(&t) {
        Some((Some(n), DurationUnit::Minutes)) => n * 60,
        Some((None, DurationUnit::Minutes)) => 10 * 60,
        Some((Some(n), DurationUnit::Seconds)) => n,
        Some((None, DurationUnit::Seconds)) => 600,
        None => 600,
    }
}

/// The seconds that a text such as `10m` or `60s` denotes, where it is a duration and
/// the number of seconds fits.
pub fn parse_duration_opt(s: &str) -> (r: Option<i64>)
    ensures
        r is Some == (duration_value(text::trimmed(s@)) is Some && i64::MIN <= duration_value(
            text::trimmed(s@),
        )->0 <= i64::MAX),
        r is Some ==> r->0 == duration_value(text::trimmed(s@))->0,
{
    let t = text::trim(s);
    match split_duration(&t) {
        Some((Some(n), DurationUnit::Minutes)) => n.checked_mul(60),
        Some((Some(n), DurationUnit::Seconds)) => Some(n),
        _ => None,
    }
}

/// The number and the bytes per unit of a size, where `t` ends in a unit.
fn split_bytes(t: &String) -> (r: Option<(Option<usize>, usize)>)
    ensures
        match r {
            Some((n, unit)) => unit_bytes(t@) == Some(unit as nat) && n is Some
                == decimal::unsigned_value(t@.take(t@.len() - 2), usize::MAX as nat) is Some && (
            n is Some ==> n->0 == decimal::unsigned_value(
                t@.take(t@.len() - 2),
                usize::MAX as nat,
            )->0),
            None => unit_bytes(t@) is None,
        },
{
    let x = text::chars_of(t.as_str());
    if x.len() < 2 {
        return None;
    }
    let number = text::text_of(&x, 0, x.len() - 2);
    assert(number@ =~= t@.take(t@.len() - 2));
    let last = x[x.len() - 1];
    let prior = x[x.len() - 2];
    if !(last == 'b' || last == 'B') {
        None
    } else if prior == 'm' || prior == 'M' {
        Some((decimal::parse_usize(number.as_str()), 1024 * 1024))
    } else if prior == 'g' || prior == 'G' {
        Some((decimal::parse_usize(number.as_str()), 1024 * 1024 * 1024))
    } else {
        None
    }
}

/// The bytes that a text such as `512MB` or `1GB` stands for.
pub fn parse_bytes(s: &str) -> (r: usize)
    requires
        size_bytes(s@) <= usize::MAX,
    ensures
        r == size_bytes(s@),
{
    let t = text::trim(s);
    match split_bytes(&t) {
        Some((Some(n), unit)) => n * unit,
        Some((None, unit)) => if unit == 1024 * 1024 * 1024 {
            1024 * 1024 * 1024
        } else {
            512 * 1024 * 1024
        },
        None => 512 * 1024 * 1024,
    }
}

/// The bytes that a text such as `512MB` or `1GB` denotes, where it is a size and the
/// number of bytes fits.
pub fn parse_bytes_opt(s: &str) -> (r: Option<usize>)
    ensures
        r is Some == (bytes_value(text::trimmed(s@)) is Some && bytes_value(text::trimmed(s@))->0
            <= usize::MAX),
        r is Some ==> r->0 == bytes_value(text::trimmed(s@))->0,
{
    let t = text::trim(s);
    match split_bytes(&t) {
        Some((Some(n), unit)) => n.checked_mul(unit),
        _ => None,
    }
}

impl Config {
    /// Whether the interval fits in the machine's integers.
    pub open spec fn interval_fits(&self) -> bool {
        i64::MIN <= duration_secs(self.flush.snapshot_interval@) <= i64::MAX
    }

    /// Whether the memory limit fits in the machine's integers.
    pub open spec fn memory_fits(&self) -> bool {
        size_bytes(self.flush.memory_limit@) <= usize::MAX
    }

    /// Whether the interval and the memory limit fit in the machine's integers.
    pub open spec fn limits_fit(&self) -> bool {
        self.interval_fits() && self.memory_fits()
    }

    /// Tests whether the interval fits in the machine's integers.
    pub fn check_interval(&self) -> (r: bool)
        ensures
            r == self.interval_fits(),
    {
        let t = text::trim(self.flush.snapshot_interval.as_str());
        match split_duration(&t) {
            Some((Some(n), DurationUnit::Minutes)) => n.checked_mul(60).is_some(),
            _ => true,
        }
    }

    /// Tests whether the memory limit fits in the machine's integers.
    pub fn check_memory(&self) -> (r: bool)
        ensures
            r == self.memory_fits(),
    {
        let t = text::trim(self.flush.memory_limit.as_str());
        match split_bytes(&t) {
            Some((Some(n), unit)) => n.checked_mul(unit).is_some(),
            _ => true,
        }
    }

    /// Tests whether the interval and the memory limit fit in the machine's integers.
    pub fn check_limits(&self) -> (r: bool)
        ensures
            r == self.limits_fit(),
    {
        self.check_interval() && self.check_memory()
    }

    pub fn snapshot_interval_secs(&self) -> (r: i64)
        requires
            self.interval_fits(),
        ensures
            r == duration_secs(self.flush.snapshot_interval@),
    {
        parse_duration(self.flush.snapshot_interval.as_str())
    }

    pub fn memory_limit_bytes(&self) -> (r: usize)
        requires
            self.memory_fits(),
        ensures
            r == size_bytes(self.flush.memory_limit@),
    {
        parse_bytes(self.flush.memory_limit.as_str())
    }

    pub fn max_body_bytes(&self) -> (r: usize)
        ensures
            r == self.server.max_body_bytes,
    {
        self.server.max_body_bytes
    }
}

} // verus!
