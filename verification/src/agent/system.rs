//! Processor and memory use, read from the text of the files below `/proc`.

use crate::decimal;
use crate::http;
use crate::text;
use vstd::prelude::*;

verus! {

/// The number in the second word of a line, 0 where there is none.
pub open spec fn kb_of(line: Seq<char>) -> nat {
    let w = text::words(line);
    if w.len() > 1 {
        match decimal::unsigned_value(w[1], u64::MAX as nat) {
            Some(n) => n,
            None => 0,
        }
    } else {
        0
    }
}

/// The number in the second word of a line, 0 where there is none.
pub fn parse_kb(line: &str) -> (r: u64)
    ensures
        r == kb_of(line@),
{
    let w = text::split_whitespace(line);
    assert(text::views(w@).len() == w@.len());
    if w.len() > 1 {
        assert(text::views(w@)[1] == w@[1]@);
        match decimal::parse_u64(w[1].as_str()) {
            Some(n) => n,
            None => 0,
        }
    } else {
        0
    }
}

/// Total and available memory after some lines; later lines go before earlier ones.
pub open spec fn memory_kb(lines: Seq<Seq<char>>) -> (nat, nat)
    decreases lines.len(),
{
    if lines.len() == 0 {
        (0, 0)
    } else {
        let (total, available) = memory_kb(lines.drop_last());
        if "MemTotal:"@.is_prefix_of(lines.last()) {
            (kb_of(lines.last()), available)
        } else if "MemAvailable:"@.is_prefix_of(lines.last()) {
            (total, kb_of(lines.last()))
        } else {
            (total, available)
        }
    }
}

/// Total and used memory in megabytes, from the text of `/proc/meminfo`; 0 without it.
pub open spec fn memory_of(meminfo: Option<Seq<char>>) -> (nat, nat) {
    match meminfo {
        Some(content) => {
            let (total, available) = memory_kb(text::pieces(content, '\n'));
            let used = if total > available {
                total - available
            } else {
                0
            };
            (total / 1024, (used / 1024) as nat)
        },
        None => (0, 0),
    }
}

/// Total and used memory in megabytes, from the text of `/proc/meminfo`.
pub fn memory_mb(content: &str) -> (r: (u64, u64))
    ensures
        r.0 == memory_of(Some(content@)).0,
        r.1 == memory_of(Some(content@)).1,
        r.1 <= r.0,
{
    let lines = text::split(content, '\n');
    let ghost all = text::views(lines@);
    let mut total: u64 = 0;
    let mut available: u64 = 0;
    let mut i: usize = 0;
    assert(all.take(0) =~= Seq::<Seq<char>>::empty());
    while i < lines.len()
        invariant
            i <= lines@.len(),
            all == text::views(lines@),
            (total as nat, available as nat) == memory_kb(all.take(i as int)),
        decreases lines@.len() - i,
    {
        let line = lines[i].as_str();
        assert(all.take(i + 1).drop_last() =~= all.take(i as int));
        assert(all.take(i + 1).last() == line@);
        if text::starts_with(line, "MemTotal:") {
            total = parse_kb(line);
        } else if text::starts_with(line, "MemAvailable:") {
            available = parse_kb(line);
        }
        i += 1;
    }
    assert(all.take(i as int) =~= all);
    let used: u64 = if total > available {
        (total - available) / 1024
    } else {
        0
    };
    (total / 1024, used)
}

/// The first line that begins with `start`.
pub open spec fn first_line(lines: Seq<Seq<char>>, start: Seq<char>) -> Option<Seq<char>>
    decreases lines.len(),
{
    if lines.len() == 0 {
        None
    } else if start.is_prefix_of(lines[0]) {
        Some(lines[0])
    } else {
        first_line(lines.drop_first(), start)
    }
}

/// The first line that begins with `start`.
fn find_line(content: &str, start: &str) -> (r: Option<String>)
    ensures
        r is Some == first_line(text::pieces(content@, '\n'), start@) is Some,
        r is Some ==> r->0@ == first_line(text::pieces(content@, '\n'), start@)->0,
        r is Some ==> start@.is_prefix_of(r->0@),
{
    let lines = text::split(content, '\n');
    let ghost all = text::views(lines@);
    let mut i: usize = 0;
    assert(all.skip(0) =~= all);
    while i < lines.len()
        invariant
            i <= lines@.len(),
            all == text::views(lines@),
            all == text::pieces(content@, '\n'),
            first_line(all, start@) == first_line(all.skip(i as int), start@),
        decreases lines@.len() - i,
    {
        assert(all.skip(i as int)[0] == lines@[i as int]@);
        if text::starts_with(lines[i].as_str(), start) {
            return Some(lines[i].clone());
        }
        assert(all.skip(i as int).drop_first() =~= all.skip(i + 1));
        i += 1;
    }
    None
}

/// The resident memory of the process in megabytes, from the text of `/proc/self/status`;
/// 0 without it.
pub open spec fn rss_of(status: Option<Seq<char>>) -> nat {
    match status {
        Some(content) => match first_line(text::pieces(content, '\n'), "VmRSS:"@) {
            Some(line) => kb_of(line) / 1024,
            None => 0,
        },
        None => 0,
    }
}

/// The resident memory of the process in megabytes, from the text of `/proc/self/status`.
pub fn process_rss_mb(content: &str) -> (r: u64)
    ensures
        r == rss_of(Some(content@)),
{
    match find_line(content, "VmRSS:") {
        Some(line) => parse_kb(line.as_str()) / 1024,
        None => 0,
    }
}

/// The numbers among the words.
pub open spec fn numbers(words: Seq<Seq<char>>) -> Seq<u64>
    decreases words.len(),
{
    if words.len() == 0 {
        Seq::empty()
    } else {
        match decimal::unsigned_value(words.last(), u64::MAX as nat) {
            Some(n) => numbers(words.drop_last()).push(n as u64),
            None => numbers(words.drop_last()),
        }
    }
}

pub open spec fn sum(numbers: Seq<u64>) -> nat
    decreases numbers.len(),
{
    if numbers.len() == 0 {
        0
    } else {
        sum(numbers.drop_last()) + numbers.last() as nat
    }
}

/// The counters of the processor: those in which it was idle, and all.
#[derive(Debug, Clone, Copy)]
pub struct CpuCounters {
    pub idle: u128,
    pub total: u128,
}

/// The counters in the text of `/proc/stat`: the idle ones are the fourth and the fifth.
pub open spec fn counters_of(content: Seq<char>) -> Option<(nat, nat)> {
    match first_line(text::pieces(content, '\n'), "cpu "@) {
        Some(line) => {
            let n = numbers(text::words(line).skip(1));
            if n.len() < 4 {
                None
            } else {
                Some(
                    (
                        n[3] as nat + (if n.len() > 4 {
                            n[4] as nat
                        } else {
                            0
                        }),
                        sum(n),
                    ),
                )
            }
        },
        None => None,
    }
}

/// The counters in the text of `/proc/stat`.
pub fn cpu_counters(content: &str) -> (r: Option<CpuCounters>)
    ensures
        r is Some == counters_of(content@) is Some,
        match counters_of(content@) {
            Some((idle, total)) => r is Some ==> r->0.idle == idle && r->0.total == total,
            None => true,
        },
{
    let line = match find_line(content, "cpu ") {
        Some(line) => line,
        None => {
            return None;
        },
    };
    let w = text::split_whitespace(line.as_str());
    let ghost all = text::views(w@);
    let mut n: Vec<u64> = Vec::new();
    let mut total: u128 = 0;
    let mut i: usize = 1;
    if w.len() == 0 {
        proof {
            lemma_words_of_nonspace(line@);
            assert(all.len() == 0);
        }
        return None;
    }
    let ghost rest = all.skip(1);
    assert(rest.take(0) =~= Seq::<Seq<char>>::empty());
    while i < w.len()
        invariant
            1 <= i <= w@.len(),
            all == text::views(w@),
            rest == all.skip(1),
            n@ == numbers(rest.take(i - 1)),
            n@.len() <= i - 1,
            total == sum(n@),
            total <= n@.len() * u64::MAX,
        decreases w@.len() - i,
    {
        assert(rest.take(i as int).drop_last() =~= rest.take(i - 1));
        assert(rest.take(i as int).last() == w@[i as int]@);
        match decimal::parse_u64(w[i].as_str()) {
            Some(v) => {
                assert(n@.len() < w.len());
                assert(n@.len() * u64::MAX <= usize::MAX * u64::MAX) by (nonlinear_arith)
                    requires
                        n@.len() <= usize::MAX,
                ;
                assert(usize::MAX * u64::MAX + u64::MAX <= u128::MAX);
                n.push(v);
                assert(n@.drop_last() =~= numbers(rest.take(i - 1)));
                total = total + v as u128;
            },
            None => {},
        }
        i += 1;
    }
    assert(rest.take(w@.len() - 1) =~= rest);
    if n.len() < 4 {
        return None;
    }
    let iowait: u64 = if n.len() > 4 {
        n[4]
    } else {
        0
    };
    Some(CpuCounters { idle: n[3] as u128 + iowait as u128, total })
}

proof fn lemma_words_of_nonspace(s: Seq<char>)
    requires
        "cpu "@.is_prefix_of(s),
    ensures
        text::words(s).len() > 0,
{
    reveal_strlit("cpu ");
    assert(s[0] == "cpu "@[0]);
    assert(!text::is_space('c')) by {
        reveal(text::is_space);
    }
    lemma_words_nonempty(s);
}

proof fn lemma_words_nonempty(s: Seq<char>)
    requires
        s.len() > 0,
        !text::is_space(s[0]),
    ensures
        text::words(s).len() > 0,
    decreases s.len(),
{
    if s.len() > 1 {
        lemma_words_nonempty(s.drop_last());
    }
}

/// The processor's use since the sample before: how much of how much.
#[derive(Debug, Clone, Copy)]
pub struct CpuUse {
    pub used: u128,
    pub total: u128,
}

impl CpuUse {
    pub open spec fn is(&self, used: nat, total: nat) -> bool {
        self.used == used && self.total == total
    }
}

/// How much of how much the processor was in use between two samples. There is no use to
/// tell without a sample before, without one now, or where the counters did not grow.
pub open spec fn use_between(
    before: Option<CpuCounters>,
    now: Option<(nat, nat)>,
) -> Option<(nat, nat)> {
    match (before, now) {
        (Some(before), Some((idle, total))) => if total > before.total {
            let grown = total - before.total;
            let idled = if idle > before.idle {
                idle - before.idle
            } else {
                0
            };
            let used = if grown > idled {
                grown - idled
            } else {
                0
            };
            Some((used as nat, grown as nat))
        } else {
            None
        },
        _ => None,
    }
}

/// Whether `r` is the use told.
pub open spec fn use_right(told: Option<(nat, nat)>, r: Option<CpuUse>) -> bool {
    match told {
        Some((used, total)) => r is Some && r->0.is(used, total),
        None => r is None,
    }
}

/// Whether `after` are the counters of a sample, or those before where it has none.
pub open spec fn counters_after(
    before: Option<CpuCounters>,
    now: Option<(nat, nat)>,
    after: Option<CpuCounters>,
) -> bool {
    match now {
        Some((idle, total)) => after is Some && after->0.idle == idle && after->0.total == total,
        None => after == before,
    }
}

/// Takes samples of the processor's counters.
#[derive(Debug, Clone, Copy)]
pub struct CpuSampler {
    pub previous: Option<CpuCounters>,
}

impl CpuSampler {
    pub fn new() -> (r: CpuSampler)
        ensures
            r.previous is None,
    {
        CpuSampler { previous: None }
    }

    /// Takes a sample and tells the use since the one before.
    pub fn sample(&mut self, content: &str) -> (r: Option<CpuUse>)
        ensures
            use_right(use_between(old(self).previous, counters_of(content@)), r),
            counters_after(old(self).previous, counters_of(content@), final(self).previous),
            r is Some ==> r->0.total > 0 && r->0.used <= r->0.total,
    {
        let now = match cpu_counters(content) {
            Some(c) => c,
            None => {
                return None;
            },
        };
        let before = self.previous;
        self.previous = Some(now);
        match before {
            Some(p) => {
                let grown: u128 = if now.total > p.total {
                    now.total - p.total
                } else {
                    0
                };
                let idled: u128 = if now.idle > p.idle {
                    now.idle - p.idle
                } else {
                    0
                };
                if grown == 0 {
                    return None;
                }
                let used: u128 = if grown > idled {
                    grown - idled
                } else {
                    0
                };
                Some(CpuUse { used, total: grown })
            },
            None => None,
        }
    }
}

/// What was sampled of the machine. Without a use of the processor none is known.
#[derive(Debug, Clone, Copy)]
pub struct SystemInfo {
    pub cpu: Option<CpuUse>,
    pub memory_total_mb: u64,
    pub memory_used_mb: u64,
    pub process_rss_mb: u64,
}

/// The counters in the text of `/proc/stat`; none without it.
pub open spec fn counters_in(stat: Option<Seq<char>>) -> Option<(nat, nat)> {
    match stat {
        Some(content) => counters_of(content),
        None => None,
    }
}

/// Holds the last sample of the machine.
#[derive(Debug, Clone, Copy)]
pub struct SystemSampler {
    pub processor: CpuSampler,
    pub info: SystemInfo,
}

impl SystemSampler {
    pub fn new() -> (r: SystemSampler)
        ensures
            r.processor.previous is None,
            r.info == (SystemInfo {
                cpu: None,
                memory_total_mb: 0,
                memory_used_mb: 0,
                process_rss_mb: 0,
            }),
    {
        SystemSampler {
            processor: CpuSampler::new(),
            info: SystemInfo {
                cpu: None,
                memory_total_mb: 0,
                memory_used_mb: 0,
                process_rss_mb: 0,
            },
        }
    }

    /// Takes a sample from the texts of `/proc/stat`, `/proc/meminfo` and
    /// `/proc/self/status`, each where it could be read.
    pub fn tick(&mut self, stat: Option<&str>, meminfo: Option<&str>, status: Option<&str>)
        ensures
            use_right(
                use_between(
                    old(self).processor.previous,
                    counters_in(http::optional_view(stat)),
                ),
                final(self).info.cpu,
            ),
            counters_after(
                old(self).processor.previous,
                counters_in(http::optional_view(stat)),
                final(self).processor.previous,
            ),
            final(self).info.memory_total_mb == memory_of(http::optional_view(meminfo)).0,
            final(self).info.memory_used_mb == memory_of(http::optional_view(meminfo)).1,
            final(self).info.process_rss_mb == rss_of(http::optional_view(status)),
    {
        let cpu = match stat {
            Some(content) => self.processor.sample(content),
            None => None,
        };
        let (memory_total_mb, memory_used_mb) = match meminfo {
            Some(content) => memory_mb(content),
            None => (0, 0),
        };
        let rss: u64 = match status {
            Some(content) => process_rss_mb(content),
            None => 0,
        };
        self.info = SystemInfo { cpu, memory_total_mb, memory_used_mb, process_rss_mb: rss };
    }

    /// The last sample.
    pub fn current(&self) -> (r: SystemInfo)
        ensures
            r == self.info,
    {
        self.info
    }
}

} // verus!
