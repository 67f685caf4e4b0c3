//! Which files of a table are merged, and what is known afterwards.

use crate::decimal;
use crate::server::compaction;
use crate::server::compaction::{CompactionScheduler, EntryModel};
use crate::server::knowledge;
use crate::server::metadata_store;
use crate::server::metadata_store::{FileRange, StoreModel};
use crate::text;
use vstd::prelude::*;

verus! {

/// A file may be merged where it is a Parquet file with a name of its own, below the least
/// size, and not the outcome of a merge.
pub proof fn small_files_may_be_merged(e: EntryModel, min_size: nat)
    ensures
        compaction::mergeable(e, min_size) <==> e.is_file && e.size < min_size && (exists|
            stem: Seq<char>,
        | stem.len() > 0 && #[trigger] (stem + ".parquet"@) == e.name) && !(exists|
            rest: Seq<char>,
        | #[trigger] ("compacted_"@ + rest) == e.name),
{
    reveal_strlit(".parquet");
    reveal_strlit("compacted_");
    let ending = ".parquet"@;
    let front = "compacted_"@;
    if ending.is_suffix_of(e.name) && e.name.len() > ending.len() {
        let stem = e.name.take(e.name.len() - ending.len());
        assert(stem + ending =~= e.name);
    }
    if exists|stem: Seq<char>| stem.len() > 0 && #[trigger] (stem + ending) == e.name {
        let stem = choose|stem: Seq<char>| stem.len() > 0 && #[trigger] (stem + ending) == e.name;
        assert(e.name.subrange(e.name.len() - ending.len(), e.name.len() as int) =~= ending);
    }
    if front.is_prefix_of(e.name) {
        let rest = e.name.skip(front.len() as int);
        assert(front + rest =~= e.name);
    }
    if exists|rest: Seq<char>| #[trigger] (front + rest) == e.name {
        let rest = choose|rest: Seq<char>| #[trigger] (front + rest) == e.name;
        assert(e.name.subrange(0, front.len() as int) =~= front);
    }
}

proof fn lemma_names(entries: Seq<EntryModel>, min_size: nat)
    ensures
        compaction::mergeable_names(entries, min_size) == entries.filter(
            |e: EntryModel| compaction::mergeable(e, min_size),
        ).map_values(|e: EntryModel| e.name),
    decreases entries.len(),
{
    reveal(Seq::filter);
    let may = |e: EntryModel| compaction::mergeable(e, min_size);
    let name = |e: EntryModel| e.name;
    if entries.len() > 0 {
        let front = entries.drop_last();
        lemma_names(front, min_size);
        if may(entries.last()) {
            assert(entries.filter(may).map_values(name) =~= front.filter(may).map_values(
                name,
            ).push(entries.last().name));
        }
    } else {
        assert(entries.filter(may).map_values(name) =~= Seq::<Seq<char>>::empty());
    }
}

/// The sizes of the files that may be merged add up.
pub proof fn sizes_add_up(entries: Seq<EntryModel>, e: EntryModel, min_size: nat)
    ensures
        compaction::mergeable_size(Seq::empty(), min_size) == 0,
        compaction::mergeable(e, min_size) ==> compaction::mergeable_size(entries.push(e), min_size)
            == compaction::mergeable_size(entries, min_size) + e.size,
        !compaction::mergeable(e, min_size) ==> compaction::mergeable_size(
            entries.push(e),
            min_size,
        ) == compaction::mergeable_size(entries, min_size),
{
    assert(entries.push(e).drop_last() =~= entries);
}

/// The files of a table are merged where there are at least two that may be, and they are
/// not yet large together; then all of them are, each once, in the order of their names.
pub proof fn all_small_files_are_merged(
    entries: Seq<EntryModel>,
    min_size: nat,
    target_size: nat,
)
    ensures
        ({
            let may = entries.filter(|e: EntryModel| compaction::mergeable(e, min_size));
            let names = may.map_values(|e: EntryModel| e.name);
            match compaction::merge_inputs(entries, min_size, target_size) {
                Some(inputs) => {
                    &&& may.len() >= 2
                    &&& compaction::mergeable_size(entries, min_size) < target_size
                    &&& inputs.to_multiset() == names.to_multiset()
                    &&& forall|i: int, j: int|
                        #![trigger inputs[i], inputs[j]]
                        0 <= i < j < inputs.len() ==> !text::text_less(inputs[j], inputs[i])
                },
                None => may.len() < 2 || compaction::mergeable_size(entries, min_size)
                    >= target_size,
            }
        }),
{
    lemma_names(entries, min_size);
    text::sorting_orders_the_names(compaction::mergeable_names(entries, min_size));
}

/// Sizes are configured in units of 1024 times 1024 bytes.
pub proof fn sizes_are_configured(s: CompactionScheduler)
    ensures
        s.min_size() == s.config.min_file_size_mb * 1_048_576,
        s.target_size() == s.config.target_file_size_mb * 1_048_576,
{
}

/// The hours between two runs are told by the first word that begins with `*/`, and are six
/// where there is no such word, or where no number stands behind it.
pub proof fn schedule_tells_the_hours(words: Seq<Seq<char>>, i: int)
    requires
        0 <= i <= words.len(),
        forall|k: int| 0 <= k < i ==> !"*/"@.is_prefix_of(#[trigger] words[k]),
        i < words.len() ==> "*/"@.is_prefix_of(words[i]),
    ensures
        i == words.len() ==> compaction::schedule_hours(words) == 6,
        i < words.len() ==> forall|number: Seq<char>| #[trigger]
            ("*/"@ + number) == words[i] ==> compaction::schedule_hours(words) == (
            match decimal::unsigned_value(number, u64::MAX as nat) {
                Some(n) => n,
                None => 6nat,
            }),
    decreases words.len(),
{
    reveal_strlit("*/");
    if words.len() > 0 {
        let rest = words.drop_first();
        if i > 0 {
            assert(!"*/"@.is_prefix_of(words[0]));
            assert forall|k: int| 0 <= k < i - 1 implies !"*/"@.is_prefix_of(
                #[trigger] rest[k],
            ) by {
                assert(rest[k] == words[k + 1]);
            }
            if i < words.len() {
                assert(rest[i - 1] == words[i]);
            }
            schedule_tells_the_hours(rest, i - 1);
        } else {
            assert forall|number: Seq<char>| #[trigger] ("*/"@ + number) == words[0] implies
                compaction::schedule_hours(words) == (match decimal::unsigned_value(
                number,
                u64::MAX as nat,
            ) {
                Some(n) => n,
                None => 6nat,
            }) by {
                assert(words[0].skip("*/"@.len() as int) =~= number);
            }
        }
    }
}

/// What is known of a table after a merge: its inputs are known as merged. Where its rows can
/// be counted, they are those of its files, within the range of these; where they cannot, the
/// old count stays. Its columns and its sources stay, and so does every other table.
pub proof fn merge_is_known(
    before: StoreModel,
    db: Seq<char>,
    table: Seq<char>,
    inputs: Seq<Seq<char>>,
    files: Seq<FileRange>,
    now_ms: i64,
    counted: bool,
    after: StoreModel,
    other_db: Seq<char>,
    other_table: Seq<char>,
    name: Seq<char>,
)
    requires
        compaction::counted_again(before, db, table, inputs, files, now_ms, counted, after),
    ensures
        metadata_store::is_tombstoned(after, other_db, other_table, name)
            <==> metadata_store::is_tombstoned(before, other_db, other_table, name) || other_db
            == db && other_table == table && inputs.contains(name),
        other_db != db || other_table != table ==> metadata_store::row_of(
            after,
            other_db,
            other_table,
        ) == metadata_store::row_of(before, other_db, other_table),
        !counted ==> metadata_store::row_of(after, db, table) == metadata_store::row_of(
            before,
            db,
            table,
        ),
        counted == (metadata_store::files_rows(files) <= i64::MAX),
        counted ==> {
            let old_row = metadata_store::row_or_new(before, db, table);
            &&& metadata_store::row_of(after, db, table) matches Some(row)
            &&& row.total_rows == metadata_store::files_rows(files)
            &&& row.time_min == metadata_store::files_min(files)
            &&& row.time_max == metadata_store::files_max(files)
            &&& row.updated_at == Some(now_ms)
            &&& row.fields == old_row.fields
            &&& row.sources == old_row.sources
        },
{
    let noted = compaction::inputs_noted(before, db, table, inputs, now_ms);
    knowledge::only_merged_files_are_noted(
        before,
        db,
        table,
        inputs,
        now_ms,
        other_db,
        other_table,
        name,
    );
    knowledge::rows_are_found(before, db, table);
    if counted {
        let row = metadata_store::TableRow {
            time_min: metadata_store::files_min(files),
            time_max: metadata_store::files_max(files),
            total_rows: metadata_store::files_rows(files) as i64,
            updated_at: Some(now_ms),
            ..metadata_store::row_or_new(noted, db, table)
        };
        assert(row.db == db && row.table == table);
        metadata_store::put_then_read(noted, row, other_db, other_table);
        assert(after.tombstones == noted.tombstones);
        knowledge::tombstones_tell_one_file(after, other_db, other_table, name);
        knowledge::tombstones_tell_one_file(noted, other_db, other_table, name);
    }
}

/// Where the files of a table cannot be read after a merge, its inputs are known as merged all
/// the same, and nothing else changes.
pub proof fn merge_is_known_without_its_files(
    before: StoreModel,
    db: Seq<char>,
    table: Seq<char>,
    inputs: Seq<Seq<char>>,
    now_ms: i64,
    other_db: Seq<char>,
    other_table: Seq<char>,
    name: Seq<char>,
)
    ensures
        ({
            let after = compaction::inputs_noted(before, db, table, inputs, now_ms);
            &&& metadata_store::is_tombstoned(after, other_db, other_table, name)
                <==> metadata_store::is_tombstoned(before, other_db, other_table, name) || other_db
                == db && other_table == table && inputs.contains(name)
            &&& after.tables == before.tables
            &&& after.databases == before.databases
        }),
{
    knowledge::only_merged_files_are_noted(
        before,
        db,
        table,
        inputs,
        now_ms,
        other_db,
        other_table,
        name,
    );
}

} // verus!
