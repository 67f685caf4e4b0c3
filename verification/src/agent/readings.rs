//! What the readings of the machine say: lines, words and counters.

use crate::agent::system;
use crate::agent::system::CpuCounters;
use crate::decimal;
use crate::text;
use vstd::prelude::*;

verus! {

/// The second word of a line is its number of kilobytes.
pub proof fn second_word_counts(line: Seq<char>)
    ensures
        text::words(line).len() <= 1 ==> system::kb_of(line) == 0,
        text::words(line).len() > 1 ==> match decimal::unsigned_value(
            text::words(line)[1],
            u64::MAX as nat,
        ) {
            Some(n) => system::kb_of(line) == n,
            None => system::kb_of(line) == 0,
        },
{
}

/// The last line of the total memory tells it, and the last one of the available memory that;
/// where there is no such line, there is none.
pub proof fn last_line_counts(before: Seq<Seq<char>>, line: Seq<char>, after: Seq<Seq<char>>)
    ensures
        "MemTotal:"@.is_prefix_of(line) && (forall|i: int|
            0 <= i < after.len() ==> !"MemTotal:"@.is_prefix_of(#[trigger] after[i]))
            ==> system::memory_kb(before.push(line) + after).0 == system::kb_of(line),
        "MemAvailable:"@.is_prefix_of(line) && (forall|i: int|
            0 <= i < after.len() ==> !"MemAvailable:"@.is_prefix_of(#[trigger] after[i]))
            ==> system::memory_kb(before.push(line) + after).1 == system::kb_of(line),
        (forall|i: int|
            0 <= i < after.len() ==> !"MemTotal:"@.is_prefix_of(#[trigger] after[i]))
            ==> system::memory_kb(after).0 == 0,
        (forall|i: int|
            0 <= i < after.len() ==> !"MemAvailable:"@.is_prefix_of(#[trigger] after[i]))
            ==> system::memory_kb(after).1 == 0,
    decreases after.len(),
{
    reveal_strlit("MemTotal:");
    reveal_strlit("MemAvailable:");
    let all = before.push(line) + after;
    if after.len() == 0 {
        assert(all =~= before.push(line));
        assert(all.drop_last() =~= before);
        if "MemAvailable:"@.is_prefix_of(line) {
            assert(line[3] == "MemAvailable:"@[3]);
            assert("MemTotal:"@[3] == 'T' && "MemAvailable:"@[3] == 'A');
            assert(!"MemTotal:"@.is_prefix_of(line)) by {
                if "MemTotal:"@.is_prefix_of(line) {
                    assert(line[3] == "MemTotal:"@[3]);
                }
            }
        }
    } else {
        let front = after.drop_last();
        assert(after[after.len() - 1] == after.last());
        assert(forall|i: int| 0 <= i < front.len() ==> #[trigger] front[i] == after[i]);
        last_line_counts(before, line, front);
        assert(all.drop_last() =~= before.push(line) + front);
        assert(all.last() == after.last());
    }
}

/// The memory in use is what is not available of the whole; both are told in megabytes.
pub proof fn memory_is_told_in_megabytes(content: Seq<char>)
    ensures
        ({
            let (total, available) = system::memory_kb(text::pieces(content, '\n'));
            let (all, used) = system::memory_of(Some(content));
            &&& all * 1024 <= total < all * 1024 + 1024
            &&& available <= total ==> used * 1024 <= total - available < used * 1024 + 1024
            &&& available >= total ==> used == 0
        }),
        system::memory_of(None) == (0nat, 0nat),
{
}

/// The line that counts is the first that begins so.
pub proof fn first_line_counts(lines: Seq<Seq<char>>, start: Seq<char>, i: int)
    requires
        0 <= i <= lines.len(),
        forall|k: int| 0 <= k < i ==> !start.is_prefix_of(#[trigger] lines[k]),
        i < lines.len() ==> start.is_prefix_of(lines[i]),
    ensures
        i < lines.len() ==> system::first_line(lines, start) == Some(lines[i]),
        i == lines.len() ==> system::first_line(lines, start) is None,
    decreases lines.len(),
{
    if i > 0 {
        let rest = lines.drop_first();
        assert(!start.is_prefix_of(lines[0]));
        assert forall|k: int| 0 <= k < i - 1 implies !start.is_prefix_of(#[trigger] rest[k]) by {
            assert(rest[k] == lines[k + 1]);
        }
        if i < lines.len() {
            assert(rest[i - 1] == lines[i]);
        }
        first_line_counts(rest, start, i - 1);
    }
}

/// The memory of the process is that of the first line of its name, in megabytes.
pub proof fn process_memory_is_told(content: Seq<char>, i: int)
    requires
        0 <= i <= text::pieces(content, '\n').len(),
        forall|k: int|
            0 <= k < i ==> !"VmRSS:"@.is_prefix_of(#[trigger] text::pieces(content, '\n')[k]),
        i < text::pieces(content, '\n').len() ==> "VmRSS:"@.is_prefix_of(
            text::pieces(content, '\n')[i],
        ),
    ensures
        i < text::pieces(content, '\n').len() ==> system::rss_of(Some(content)) * 1024
            <= system::kb_of(text::pieces(content, '\n')[i]) < system::rss_of(Some(content)) * 1024
            + 1024,
        i == text::pieces(content, '\n').len() ==> system::rss_of(Some(content)) == 0,
        system::rss_of(None) == 0,
{
    first_line_counts(text::pieces(content, '\n'), "VmRSS:"@, i);
}

/// The numbers among words are those of all words that are numbers, in their order.
pub proof fn numbers_are_picked(words: Seq<Seq<char>>)
    ensures
        system::numbers(words) == words.filter(
            |w: Seq<char>| decimal::unsigned_value(w, u64::MAX as nat) is Some,
        ).map_values(|w: Seq<char>| decimal::unsigned_value(w, u64::MAX as nat)->0 as u64),
    decreases words.len(),
{
    reveal(Seq::filter);
    let number = |w: Seq<char>| decimal::unsigned_value(w, u64::MAX as nat) is Some;
    let value = |w: Seq<char>| decimal::unsigned_value(w, u64::MAX as nat)->0 as u64;
    if words.len() == 0 {
        assert(words.filter(number).map_values(value) =~= Seq::<u64>::empty());
    } else {
        let front = words.drop_last();
        numbers_are_picked(front);
        if number(words.last()) {
            assert(words.filter(number).map_values(value) =~= front.filter(number).map_values(
                value,
            ).push(value(words.last())));
        }
    }
}

/// Numbers are all added up.
pub proof fn numbers_add_up(a: Seq<u64>, b: Seq<u64>, n: u64)
    ensures
        system::sum(Seq::empty()) == 0,
        system::sum(seq![n]) == n,
        system::sum(a + b) == system::sum(a) + system::sum(b),
    decreases b.len(),
{
    reveal_with_fuel(system::sum, 2);
    assert(seq![n].drop_last() =~= Seq::empty());
    if b.len() == 0 {
        assert(a + b =~= a);
    } else {
        numbers_add_up(a, b.drop_last(), n);
        assert((a + b).drop_last() =~= a + b.drop_last());
    }
}

/// The counters of the processor stand in the first line of its name: all numbers behind the
/// name together, and of these the fourth and the fifth, in which it was idle. With less than
/// four numbers, or without the line, there are none.
pub proof fn counters_are_told(content: Seq<char>, i: int)
    requires
        0 <= i <= text::pieces(content, '\n').len(),
        forall|k: int|
            0 <= k < i ==> !"cpu "@.is_prefix_of(#[trigger] text::pieces(content, '\n')[k]),
        i < text::pieces(content, '\n').len() ==> "cpu "@.is_prefix_of(
            text::pieces(content, '\n')[i],
        ),
    ensures
        i == text::pieces(content, '\n').len() ==> system::counters_of(content) is None,
        i < text::pieces(content, '\n').len() ==> {
            let n = system::numbers(text::words(text::pieces(content, '\n')[i]).skip(1));
            match system::counters_of(content) {
                Some((idle, total)) => n.len() >= 4 && total == system::sum(n) && (n.len() == 4
                    ==> idle == n[3]) && (n.len() > 4 ==> idle == n[3] + n[4]),
                None => n.len() < 4,
            }
        },
{
    first_line_counts(text::pieces(content, '\n'), "cpu "@, i);
}

/// Between two samples whose counters grew, the processor was in use where it was not idle.
pub proof fn use_is_what_was_not_idle(before: CpuCounters, idle: nat, total: nat)
    ensures
        total > before.total && before.idle <= idle && idle - before.idle <= total - before.total
            ==> (system::use_between(Some(before), Some((idle, total))) matches Some((used, all))
            && all == total - before.total && used + (idle - before.idle) == all),
        total > before.total && idle < before.idle ==> system::use_between(
            Some(before),
            Some((idle, total)),
        ) == Some(((total - before.total) as nat, (total - before.total) as nat)),
        total > before.total && idle - before.idle > total - before.total ==> system::use_between(
            Some(before),
            Some((idle, total)),
        ) == Some((0nat, (total - before.total) as nat)),
        total <= before.total ==> system::use_between(Some(before), Some((idle, total))) is None,
        system::use_between(None, Some((idle, total))) is None,
        system::use_between(Some(before), None) is None,
{
}

/// A sample is kept for the next one; where there is none, the one before is.
pub proof fn samples_are_kept(
    before: Option<CpuCounters>,
    idle: nat,
    total: nat,
    after: Option<CpuCounters>,
)
    ensures
        system::counters_after(before, None, after) <==> after == before,
        system::counters_after(before, Some((idle, total)), after) <==> (after matches Some(c)
            && c.idle == idle && c.total == total),
{
}

} // verus!
