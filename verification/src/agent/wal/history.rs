//! The log over a whole sequence of calls: what waits, what is numbered, and what a restart
//! finds again.

use crate::agent::buffer;
use crate::agent::hot_config::HotConfig;
use crate::agent::wal;
use crate::agent::wal::wal_core;
use crate::agent::wal::wal_core::LogModel;
use vstd::prelude::*;

verus! {

/// A call on a log.
pub enum LogCall {
    /// An operation is to wait for the next file.
    Buffer(wal::OpModel),
    /// What waits goes into the next file, and is applied to the buffer; whether the file
    /// could be written.
    Flush(bool),
    SetHotConfig(HotConfig),
    /// Files that are safe elsewhere are removed.
    Cleanup,
}

/// The log after a call.
pub open spec fn after_call(log: LogModel, call: LogCall) -> LogModel {
    match call {
        LogCall::Buffer(op) => log.with_op(op),
        LogCall::Flush(written) => if log.waiting.len() > 0 {
            log.emptied().filed(written)
        } else {
            log
        },
        LogCall::SetHotConfig(hot) => LogModel { hot: Some(hot), ..log },
        LogCall::Cleanup => log,
    }
}

/// The log after some calls, one after the other.
pub open spec fn after_calls(log: LogModel, calls: Seq<LogCall>) -> LogModel
    decreases calls.len(),
{
    if calls.len() == 0 {
        log
    } else {
        after_call(after_calls(log, calls.drop_last()), calls.last())
    }
}

/// How many operations were accepted since the last flush, or since the start.
pub open spec fn accepted(log: LogModel, calls: Seq<LogCall>) -> nat
    decreases calls.len(),
{
    if calls.len() == 0 {
        0
    } else {
        let before = accepted(log, calls.drop_last());
        match calls.last() {
            LogCall::Buffer(_) => if after_calls(log, calls.drop_last()).accepts() {
                before + 1
            } else {
                before
            },
            LogCall::Flush(_) => 0,
            _ => before,
        }
    }
}

/// How many files were written: flushes that found something waiting, and succeeded.
pub open spec fn files_written(log: LogModel, calls: Seq<LogCall>) -> nat
    decreases calls.len(),
{
    if calls.len() == 0 {
        0
    } else {
        let before = files_written(log, calls.drop_last());
        match calls.last() {
            LogCall::Flush(true) => if after_calls(log, calls.drop_last()).waiting.len() > 0 {
                before + 1
            } else {
                before
            },
            _ => before,
        }
    }
}

/// After any calls on a log in which nothing waited, as many operations wait as were
/// accepted since the last flush.
pub proof fn accepted_operations_wait(log: LogModel, calls: Seq<LogCall>)
    requires
        log.waiting.len() == 0,
    ensures
        after_calls(log, calls).waiting.len() == accepted(log, calls),
    decreases calls.len(),
{
    if calls.len() > 0 {
        accepted_operations_wait(log, calls.drop_last());
    }
}

/// After any calls on a log, the next number is above that at the start by the number of
/// files that were written.
pub proof fn each_file_takes_one_number(log: LogModel, calls: Seq<LogCall>)
    ensures
        after_calls(log, calls).next == log.next + files_written(log, calls),
    decreases calls.len(),
{
    if calls.len() > 0 {
        each_file_takes_one_number(log, calls.drop_last());
    }
}

proof fn lemma_no_files(names: Seq<Seq<char>>)
    requires
        forall|i: int| 0 <= i < names.len() ==> wal_core::seq_of_name(#[trigger] names[i]) is None,
    ensures
        wal_core::max_seq(names) is None,
    decreases names.len(),
{
    if names.len() > 0 {
        let rest = names.drop_last();
        assert forall|i: int| 0 <= i < rest.len() implies wal_core::seq_of_name(
            #[trigger] rest[i],
        ) is None by {
            assert(rest[i] == names[i]);
        }
        lemma_no_files(rest);
        assert(wal_core::seq_of_name(names[names.len() - 1]) is None);
    }
}

/// A log that starts in a directory without log files, with nothing flushed, begins with
/// the number 1: after any calls the next number is one more than the files written.
pub proof fn fresh_log_counts_its_files(
    names: Seq<Seq<char>>,
    log: LogModel,
    calls: Seq<LogCall>,
)
    requires
        forall|i: int| 0 <= i < names.len() ==> wal_core::seq_of_name(#[trigger] names[i]) is None,
        log.next == wal_core::next_seq(names, 0),
    ensures
        after_calls(log, calls).next == 1 + files_written(log, calls),
{
    lemma_no_files(names);
    each_file_takes_one_number(log, calls);
}

/// A run of a log: the log, the buffer that it fills, and the files that it has written.
#[verifier::ext_equal]
pub struct Run {
    pub log: LogModel,
    pub dbs: Seq<buffer::DatabaseModel>,
    pub files: Seq<(u64, Seq<wal::OpModel>)>,
}

/// A run after a call: a file that is written is applied to the buffer under its number.
pub open spec fn run_call(run: Run, call: LogCall) -> Run {
    let log = after_call(run.log, call);
    match call {
        LogCall::Flush(true) => if run.log.waiting.len() > 0 {
            let seq = run.log.next as u64;
            Run {
                log,
                dbs: wal_core::after_ops(run.dbs, run.log.waiting, seq),
                files: run.files.push((seq, run.log.waiting)),
            }
        } else {
            Run { log, ..run }
        },
        _ => Run { log, ..run },
    }
}

/// A run that starts with a log and an empty buffer, after some calls.
pub open spec fn run_of(log: LogModel, calls: Seq<LogCall>) -> Run
    decreases calls.len(),
{
    if calls.len() == 0 {
        Run { log, dbs: Seq::empty(), files: Seq::empty() }
    } else {
        run_call(run_of(log, calls.drop_last()), calls.last())
    }
}

/// Whether the names in the log's directory are those of the files of a run, each once, in
/// any order, beside names of no log file.
pub open spec fn holds_files(
    names: Seq<Seq<char>>,
    files: Seq<(u64, Seq<wal::OpModel>)>,
) -> bool {
    &&& names.no_duplicates()
    &&& forall|k: int|
        0 <= k < files.len() ==> names.contains(
            wal_core::name_of_seq((#[trigger] files[k]).0 as nat),
        )
    &&& forall|i: int|
        0 <= i < names.len() && wal_core::seq_of_name(#[trigger] names[i]) is Some ==> is_of(
            names[i],
            files,
        )
}

/// Whether a name is that of one of the files.
pub open spec fn is_of(name: Seq<char>, files: Seq<(u64, Seq<wal::OpModel>)>) -> bool {
    exists|k: int|
        0 <= k < files.len() && name == wal_core::name_of_seq((#[trigger] files[k]).0 as nat)
}

/// What is read from the files of some names, each with its number.
pub open spec fn read_files(
    order: Seq<(u64, Seq<char>)>,
    contents: spec_fn(Seq<char>) -> Seq<wal::OpModel>,
) -> Seq<(u64, Seq<wal::OpModel>)> {
    order.map_values(|f: (u64, Seq<char>)| (f.0, contents(f.1)))
}

proof fn lemma_run(log: LogModel, calls: Seq<LogCall>)
    ensures
        run_of(log, calls).log == after_calls(log, calls),
        run_of(log, calls).dbs == wal_core::after_files(
            Seq::empty(),
            run_of(log, calls).files,
        ),
        run_of(log, calls).files.len() == files_written(log, calls),
        forall|k: int|
            0 <= k < run_of(log, calls).files.len() ==> (#[trigger] run_of(log, calls).files[k]).0
                == (log.next + k) as u64,
    decreases calls.len(),
{
    if calls.len() > 0 {
        let earlier = calls.drop_last();
        lemma_run(log, earlier);
        each_file_takes_one_number(log, earlier);
        let before = run_of(log, earlier);
        let after = run_of(log, calls);
        if calls.last() == LogCall::Flush(true) && before.log.waiting.len() > 0 {
            assert(after.files.drop_last() =~= before.files);
            assert forall|k: int| 0 <= k < after.files.len() implies (#[trigger] after.files[k]).0
                == (log.next + k) as u64 by {
                if k < before.files.len() {
                    assert(after.files[k] == before.files[k]);
                }
            }
        }
    }
}

/// Whether the numbers of some files rise.
spec fn rising(files: Seq<(u64, Seq<char>)>) -> bool {
    forall|i: int, j: int|
        #![trigger files[i], files[j]]
        0 <= i < j < files.len() ==> files[i].0 < files[j].0
}

proof fn lemma_insert_rises(files: Seq<(u64, Seq<char>)>, file: (u64, Seq<char>))
    requires
        rising(files),
        forall|i: int| 0 <= i < files.len() ==> (#[trigger] files[i]).0 != file.0,
    ensures
        rising(wal_core::insert_by_seq(files, file)),
    decreases files.len(),
{
    let after = wal_core::insert_by_seq(files, file);
    if files.len() == 0 || files.last().0 <= file.0 {
        assert forall|i: int, j: int|
            #![trigger after[i], after[j]]
            0 <= i < j < after.len() implies after[i].0 < after[j].0 by {
            assert(after[i] == files[i]);
            if j < files.len() {
                assert(after[j] == files[j]);
            } else {
                assert(files[files.len() - 1].0 != file.0);
                if i < files.len() - 1 {
                    assert(files[i].0 < files[files.len() - 1].0);
                }
            }
        }
    } else {
        let rest = files.drop_last();
        let inner = wal_core::insert_by_seq(rest, file);
        lemma_insert_rises(rest, file);
        wal_core::lemma_insert_by_seq(rest, file);
        assert forall|i: int, j: int|
            #![trigger after[i], after[j]]
            0 <= i < j < after.len() implies after[i].0 < after[j].0 by {
            assert(after[i] == inner[i]);
            if j < inner.len() {
                assert(after[j] == inner[j]);
            } else {
                assert(inner.contains(inner[i]));
                if inner[i] != file {
                    let k = choose|k: int| 0 <= k < rest.len() && rest[k] == inner[i];
                    assert(files[k].0 < files[files.len() - 1].0);
                }
            }
        }
    }
}

/// Whether no two of the names denote the same number.
spec fn numbers_differ(names: Seq<Seq<char>>) -> bool {
    forall|i: int, j: int|
        #![trigger names[i], names[j]]
        0 <= i < j < names.len() && wal_core::seq_of_name(names[i]) is Some
            ==> wal_core::seq_of_name(names[i]) != wal_core::seq_of_name(names[j])
}

proof fn lemma_order_rises(names: Seq<Seq<char>>, flushed: u64)
    requires
        numbers_differ(names),
    ensures
        rising(wal_core::replay_order(names, flushed)),
    decreases names.len(),
{
    if names.len() > 0 {
        let rest = names.drop_last();
        let last = names.last();
        let before = wal_core::replay_order(rest, flushed);
        assert(numbers_differ(rest)) by {
            assert forall|i: int, j: int|
                #![trigger rest[i], rest[j]]
                0 <= i < j < rest.len() && wal_core::seq_of_name(
                    rest[i],
                ) is Some implies wal_core::seq_of_name(rest[i]) != wal_core::seq_of_name(
                rest[j],
            ) by {
                assert(rest[i] == names[i] && rest[j] == names[j]);
            }
        }
        lemma_order_rises(rest, flushed);
        wal_core::replay_reads_unflushed_files(rest, flushed);
        if wal_core::seq_of_name(last) is Some && wal_core::seq_of_name(last)->0 > flushed {
            let file = (wal_core::seq_of_name(last)->0 as u64, last);
            assert forall|i: int| 0 <= i < before.len() implies (#[trigger] before[i]).0
                != file.0 by {
                let (seq, name) = before[i];
                assert(before.contains((seq, name)));
                let k = choose|k: int| 0 <= k < rest.len() && rest[k] == name;
                assert(names[k] == name && names[names.len() - 1] == last);
            }
            lemma_insert_rises(before, file);
        }
    }
}

proof fn lemma_same_files(a: Seq<(u64, Seq<char>)>, b: Seq<(u64, Seq<char>)>)
    requires
        rising(a),
        rising(b),
        forall|f: (u64, Seq<char>)| #[trigger] a.contains(f) <==> b.contains(f),
    ensures
        a == b,
    decreases a.len(),
{
    if a.len() == 0 {
        if b.len() > 0 {
            assert(b.contains(b[0]));
            assert(a.contains(b[0]));
        }
        assert(a =~= b);
    } else {
        assert(a.contains(a.last()));
        assert(b.contains(a.last()));
        let m = choose|m: int| 0 <= m < b.len() && b[m] == a.last();
        assert(b.contains(b.last()));
        assert(a.contains(b.last()));
        let n = choose|n: int| 0 <= n < a.len() && a[n] == b.last();
        assert(a.last() == b.last()) by {
            if n < a.len() - 1 {
                assert(a[n].0 < a[a.len() - 1].0);
            }
            if m < b.len() - 1 {
                assert(b[m].0 < b[b.len() - 1].0);
            }
        }
        let x = a.drop_last();
        let y = b.drop_last();
        assert(rising(x)) by {
            assert forall|i: int, j: int|
                #![trigger x[i], x[j]]
                0 <= i < j < x.len() implies x[i].0 < x[j].0 by {
                assert(x[i] == a[i] && x[j] == a[j]);
            }
        }
        assert(rising(y)) by {
            assert forall|i: int, j: int|
                #![trigger y[i], y[j]]
                0 <= i < j < y.len() implies y[i].0 < y[j].0 by {
                assert(y[i] == b[i] && y[j] == b[j]);
            }
        }
        assert forall|f: (u64, Seq<char>)| #[trigger] x.contains(f) <==> y.contains(f) by {
            lemma_rest_contains(a, f);
            lemma_rest_contains(b, f);
            assert(a.contains(f) <==> b.contains(f));
        }
        lemma_same_files(x, y);
        assert(a =~= x.push(a.last()));
        assert(b =~= y.push(b.last()));
    }
}

proof fn lemma_rest_contains(a: Seq<(u64, Seq<char>)>, f: (u64, Seq<char>))
    requires
        rising(a),
        a.len() > 0,
    ensures
        a.drop_last().contains(f) <==> a.contains(f) && f != a.last(),
{
    let x = a.drop_last();
    if x.contains(f) {
        let k = choose|k: int| 0 <= k < x.len() && x[k] == f;
        assert(a[k] == f);
        assert(a[k].0 < a[a.len() - 1].0);
    }
    if a.contains(f) && f != a.last() {
        let k = choose|k: int| 0 <= k < a.len() && a[k] == f;
        assert(x[k] == f);
    }
}

/// A restart restores the buffer: after any calls on a log, the files that it has written,
/// found again by their names in whatever order the directory lists them, are read in the
/// order in which they were written, and replaying them into an empty buffer gives the very
/// buffer of the run.
pub proof fn restart_restores_the_buffer(
    log: LogModel,
    calls: Seq<LogCall>,
    flushed: u64,
    names: Seq<Seq<char>>,
    contents: spec_fn(Seq<char>) -> Seq<wal::OpModel>,
)
    requires
        log.next > flushed,
        after_calls(log, calls).next <= u64::MAX,
        holds_files(names, run_of(log, calls).files),
        forall|k: int|
            0 <= k < run_of(log, calls).files.len() ==> contents(
                wal_core::name_of_seq((#[trigger] run_of(log, calls).files[k]).0 as nat),
            ) == run_of(log, calls).files[k].1,
    ensures
        read_files(wal_core::replay_order(names, flushed), contents) == run_of(log, calls).files,
        wal_core::after_files(
            Seq::empty(),
            read_files(wal_core::replay_order(names, flushed), contents),
        ) == run_of(log, calls).dbs,
{
    let files = run_of(log, calls).files;
    let order = wal_core::replay_order(names, flushed);
    lemma_run(log, calls);
    each_file_takes_one_number(log, calls);
    let expected = Seq::new(
        files.len(),
        |k: int| (files[k].0, wal_core::name_of_seq(files[k].0 as nat)),
    );
    assert(rising(expected)) by {
        assert forall|i: int, j: int|
            #![trigger expected[i], expected[j]]
            0 <= i < j < expected.len() implies expected[i].0 < expected[j].0 by {
            assert(files[i].0 == (log.next + i) as u64);
            assert(files[j].0 == (log.next + j) as u64);
        }
    }
    assert(numbers_differ(names)) by {
        assert forall|i: int, j: int|
            #![trigger names[i], names[j]]
            0 <= i < j < names.len() && wal_core::seq_of_name(
                names[i],
            ) is Some implies wal_core::seq_of_name(names[i]) != wal_core::seq_of_name(
            names[j],
        ) by {
            assert(names[i] != names[j]);
            if wal_core::seq_of_name(names[j]) is Some {
                assert(is_of(names[i], files) && is_of(names[j], files));
                let a = choose|k: int|
                    0 <= k < files.len() && names[i] == wal_core::name_of_seq(
                        (#[trigger] files[k]).0 as nat,
                    );
                let b = choose|k: int|
                    0 <= k < files.len() && names[j] == wal_core::name_of_seq(
                        (#[trigger] files[k]).0 as nat,
                    );
                wal_core::log_file_name_reads_back(files[a].0);
                wal_core::log_file_name_reads_back(files[b].0);
            }
        }
    }
    lemma_order_rises(names, flushed);
    wal_core::replay_reads_unflushed_files(names, flushed);
    assert forall|f: (u64, Seq<char>)| #[trigger] order.contains(f) <==> expected.contains(f) by {
        let (seq, name) = f;
        assert(order.contains((seq, name)) <==> (names.contains(name) && wal_core::seq_of_name(
            name,
        ) == Some(seq as nat) && seq > flushed));
        if order.contains(f) {
            let i = choose|i: int| 0 <= i < names.len() && names[i] == name;
            assert(is_of(names[i], files));
            let k = choose|k: int|
                0 <= k < files.len() && name == wal_core::name_of_seq(
                    (#[trigger] files[k]).0 as nat,
                );
            wal_core::log_file_name_reads_back(files[k].0);
            assert(expected[k] == f);
        }
        if expected.contains(f) {
            let k = choose|k: int| 0 <= k < expected.len() && expected[k] == f;
            assert(files[k].0 == (log.next + k) as u64);
            wal_core::log_file_name_reads_back(files[k].0);
            assert(names.contains(wal_core::name_of_seq(files[k].0 as nat)));
        }
    }
    lemma_same_files(order, expected);
    assert(read_files(order, contents) =~= files) by {
        assert forall|k: int| 0 <= k < files.len() implies read_files(order, contents)[k]
            == files[k] by {
            assert(order[k] == expected[k]);
        }
    }
}

} // verus!
