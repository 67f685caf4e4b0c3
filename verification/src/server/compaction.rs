//! Merging the small files of a table into one.

use crate::config::CompactionConfig;
use crate::decimal;
use crate::server::metadata_store;
use crate::server::metadata_store::{FileRange, MetadataStore};
use crate::text;
use vstd::prelude::*;

verus! {

pub struct CompactionScheduler {
    pub config: CompactionConfig,
}

/// A file in the directory of a table.
#[derive(Debug)]
pub struct FileEntry {
    pub name: String,
    pub size: u64,
    pub is_file: bool,
}

#[verifier::ext_equal]
pub struct EntryModel {
    pub name: Seq<char>,
    pub size: u64,
    pub is_file: bool,
}

impl View for FileEntry {
    type V = EntryModel;

    open spec fn view(&self) -> EntryModel {
        EntryModel { name: self.name@, size: self.size, is_file: self.is_file }
    }
}

pub open spec fn entry_models(entries: Seq<FileEntry>) -> Seq<EntryModel> {
    entries.map_values(|e: FileEntry| e@)
}

/// The files to merge, in the order of their names, and the names of the merged file: while
/// it is written, and after that.
#[derive(Debug)]
pub struct MergePlan {
    pub inputs: Vec<String>,
    pub temporary: String,
    pub output: String,
}

/// The hours between two runs: what stands behind `*/` in the first word that begins with
/// it, and six hours where there is no such number.
pub open spec fn schedule_hours(words: Seq<Seq<char>>) -> nat
    decreases words.len(),
{
    if words.len() == 0 {
        6
    } else if "*/"@.is_prefix_of(words[0]) {
        match decimal::unsigned_value(words[0].skip("*/"@.len() as int), u64::MAX as nat) {
            Some(n) => n,
            None => 6,
        }
    } else {
        schedule_hours(words.drop_first())
    }
}

/// The hours between two runs.
pub fn parse_schedule_hours(schedule: &str) -> (r: u64)
    ensures
        r == schedule_hours(text::words(schedule@)),
{
    let words = text::split_whitespace(schedule);
    let ghost all = text::views(words@);
    let mut i: usize = 0;
    assert(all.skip(0) =~= all);
    while i < words.len()
        invariant
            i <= words@.len(),
            all == text::views(words@),
            schedule_hours(all) == schedule_hours(all.skip(i as int)),
            all == text::words(schedule@),
        decreases words@.len() - i,
    {
        let word = words[i].as_str();
        assert(all.skip(i as int)[0] == word@);
        if text::starts_with(word, "*/") {
            let x = text::chars_of(word);
            proof {
                reveal_strlit("*/");
            }
            let rest = text::text_of(&x, 2, x.len());
            assert(rest@ =~= word@.skip("*/"@.len() as int));
            return match decimal::parse_u64(rest.as_str()) {
                Some(n) => n,
                None => 6,
            };
        }
        assert(all.skip(i as int).drop_first() =~= all.skip(i + 1));
        i += 1;
    }
    6
}

/// Whether a file is one that may be merged: a Parquet file below the size, and not itself
/// a merged file.
pub open spec fn mergeable(e: EntryModel, min_size: nat) -> bool {
    &&& e.is_file
    &&& ".parquet"@.is_suffix_of(e.name)
    &&& e.name.len() > ".parquet"@.len()
    &&& !"compacted_"@.is_prefix_of(e.name)
    &&& e.size < min_size
}

/// The names of the files that may be merged.
pub open spec fn mergeable_names(entries: Seq<EntryModel>, min_size: nat) -> Seq<Seq<char>>
    decreases entries.len(),
{
    if entries.len() == 0 {
        Seq::empty()
    } else if mergeable(entries.last(), min_size) {
        mergeable_names(entries.drop_last(), min_size).push(entries.last().name)
    } else {
        mergeable_names(entries.drop_last(), min_size)
    }
}

/// The size of the files that may be merged.
pub open spec fn mergeable_size(entries: Seq<EntryModel>, min_size: nat) -> nat
    decreases entries.len(),
{
    if entries.len() == 0 {
        0
    } else {
        mergeable_size(entries.drop_last(), min_size) + (if mergeable(entries.last(), min_size) {
            entries.last().size as nat
        } else {
            0
        })
    }
}

/// The FNV-1a hash after some more bytes.
pub open spec fn fnv1a(hash: u64, bytes: Seq<u8>) -> u64
    decreases bytes.len(),
{
    if bytes.len() == 0 {
        hash
    } else {
        let h = fnv1a(hash, bytes.drop_last());
        vstd::wrapping::u64_specs::wrapping_mul(h ^ (bytes.last() as u64), 0x100000001b3)
    }
}

/// The hash of some names, with a separator behind each.
pub open spec fn fnv1a_of_names(names: Seq<Seq<char>>) -> u64
    decreases names.len(),
{
    if names.len() == 0 {
        0xcbf29ce484222325
    } else {
        let h = fnv1a(
            fnv1a_of_names(names.drop_last()),
            vstd::utf8::encode_utf8(names.last()),
        );
        vstd::wrapping::u64_specs::wrapping_mul(h ^ 0x7c, 0x100000001b3)
    }
}

/// The hash of the names of some files, a fingerprint of what is merged.
pub fn fnv1a_of_filenames(names: &Vec<String>) -> (r: u64)
    ensures
        r == fnv1a_of_names(text::views(names@)),
{
    let ghost all = text::views(names@);
    let mut hash: u64 = 0xcbf29ce484222325;
    let mut i: usize = 0;
    assert(all.take(0) =~= Seq::<Seq<char>>::empty());
    while i < names.len()
        invariant
            i <= names@.len(),
            all == text::views(names@),
            hash == fnv1a_of_names(all.take(i as int)),
        decreases names@.len() - i,
    {
        let bytes = names[i].as_str().as_bytes();
        let ghost start = hash;
        assert(all.take(i + 1).drop_last() =~= all.take(i as int));
        assert(all.take(i + 1).last() == names@[i as int]@);
        let mut j: usize = 0;
        assert(bytes@.take(0) =~= Seq::<u8>::empty());
        while j < bytes.len()
            invariant
                j <= bytes@.len(),
                hash == fnv1a(start, bytes@.take(j as int)),
            decreases bytes@.len() - j,
        {
            assert(bytes@.take(j + 1).drop_last() =~= bytes@.take(j as int));
            hash = hash ^ (bytes[j] as u64);
            hash = hash.wrapping_mul(0x100000001b3);
            j += 1;
        }
        assert(bytes@.take(j as int) =~= bytes@);
        hash = hash ^ 0x7c;
        hash = hash.wrapping_mul(0x100000001b3);
        i += 1;
    }
    assert(all.take(i as int) =~= all);
    hash
}

/// The name of the file that some files are merged into.
pub open spec fn merged_name(names: Seq<Seq<char>>) -> Seq<char> {
    "compacted_"@ + decimal::numeral(fnv1a_of_names(names) as nat) + "_"@ + decimal::numeral(
        names.len(),
    ) + ".parquet"@
}

/// The files of a table that are merged, in the order of their names; nothing where there
/// are fewer than two, or where they are large enough together.
pub open spec fn merge_inputs(
    entries: Seq<EntryModel>,
    min_size: nat,
    target_size: nat,
) -> Option<Seq<Seq<char>>> {
    let names = mergeable_names(entries, min_size);
    if names.len() <= 1 || mergeable_size(entries, min_size) >= target_size {
        None
    } else {
        Some(text::sorted_names(names))
    }
}

/// The metadata with the inputs of a merge noted.
pub open spec fn inputs_noted(
    before: metadata_store::StoreModel,
    db: Seq<char>,
    table: Seq<char>,
    inputs: Seq<Seq<char>>,
    now_ms: i64,
) -> metadata_store::StoreModel {
    metadata_store::StoreModel {
        tombstones: metadata_store::with_tombstones(before.tombstones, db, table, inputs, now_ms),
        ..before
    }
}

/// Whether `after` is the metadata after a merge: the inputs are noted, and the table is
/// counted again from its files where the number of rows fits.
pub open spec fn counted_again(
    before: metadata_store::StoreModel,
    db: Seq<char>,
    table: Seq<char>,
    inputs: Seq<Seq<char>>,
    files: Seq<FileRange>,
    now_ms: i64,
    counted: bool,
    after: metadata_store::StoreModel,
) -> bool {
    let noted = inputs_noted(before, db, table, inputs, now_ms);
    &&& counted == (metadata_store::files_rows(files) <= i64::MAX)
    &&& !counted ==> after == noted
    &&& counted ==> after == metadata_store::with_row(
        noted,
        metadata_store::TableRow {
            time_min: metadata_store::files_min(files),
            time_max: metadata_store::files_max(files),
            total_rows: metadata_store::files_rows(files) as i64,
            updated_at: Some(now_ms),
            ..metadata_store::row_or_new(noted, db, table)
        },
    )
}

/// Milliseconds for which a tombstone is kept.
pub const TOMBSTONE_MS: i64 = 604_800_000;

impl CompactionScheduler {
    pub open spec fn min_size(&self) -> nat {
        (self.config.min_file_size_mb * 1024 * 1024) as nat
    }

    pub open spec fn target_size(&self) -> nat {
        (self.config.target_file_size_mb * 1024 * 1024) as nat
    }

    /// The seconds between two runs; nothing where merging is switched off.
    pub fn interval_secs(&self) -> (r: Option<u64>)
        requires
            self.config.enabled ==> schedule_hours(text::words(self.config.schedule@)) * 3600
                <= u64::MAX,
        ensures
            r is Some == self.config.enabled,
            r is Some ==> r->0 == schedule_hours(text::words(self.config.schedule@)) * 3600,
    {
        if !self.config.enabled {
            return None;
        }
        let hours = parse_schedule_hours(self.config.schedule.as_str());
        Some(hours * 3600)
    }

    /// Starts a run: the tombstones that are older than a week are forgotten.
    pub fn begin_run(metadata: &mut MetadataStore, now_ms: i64)
        requires
            now_ms - TOMBSTONE_MS >= i64::MIN,
        ensures
            final(metadata)@ == (metadata_store::StoreModel {
                tombstones: metadata_store::tombstones_from(
                    old(metadata)@.tombstones,
                    (now_ms - TOMBSTONE_MS) as i64,
                ),
                ..old(metadata)@
            }),
    {
        metadata.prune_tombstones(now_ms - TOMBSTONE_MS);
    }

    /// Ends the merge of a table, after its merged file is in place and its inputs are
    /// removed: the inputs are noted, and the table is counted again from its files. Tells
    /// whether the number of rows fits; where it does not, the old count stays.
    pub fn finish_table(
        metadata: &mut MetadataStore,
        db: &str,
        table: &str,
        plan: &MergePlan,
        files: &Vec<FileRange>,
        now_ms: i64,
    ) -> (r: bool)
        ensures
            counted_again(
                old(metadata)@,
                db@,
                table@,
                text::views(plan.inputs@),
                files@,
                now_ms,
                r,
                final(metadata)@,
            ),
    {
        metadata.tombstone_files(db, table, &plan.inputs, now_ms);
        if !metadata_store::rows_fit(files) {
            return false;
        }
        metadata.recount_table(db, table, files, now_ms);
        true
    }

    /// What to merge in the directory of a table.
    pub fn plan_table(&self, entries: &Vec<FileEntry>) -> (r: Option<MergePlan>)
        requires
            self.min_size() <= u64::MAX,
            self.target_size() <= u64::MAX,
        ensures
            match merge_inputs(entry_models(entries@), self.min_size(), self.target_size()) {
                Some(names) => {
                    &&& r is Some
                    &&& text::views(r->0.inputs@) == names
                    &&& r->0.output@ == merged_name(names)
                    &&& r->0.temporary@ == merged_name(names) + ".tmp"@
                },
                None => r is None,
            },
    {
        let min_size: u64 = self.config.min_file_size_mb * 1024 * 1024;
        let target_size: u64 = self.config.target_file_size_mb * 1024 * 1024;
        let ghost all = entry_models(entries@);
        let mut names: Vec<String> = Vec::new();
        let mut total: u128 = 0;
        let mut i: usize = 0;
        assert(all.take(0) =~= Seq::<EntryModel>::empty());
        assert(text::views(names@) =~= mergeable_names(all.take(0), min_size as nat));
        while i < entries.len()
            invariant
                i <= entries@.len(),
                all == entry_models(entries@),
                text::views(names@) == mergeable_names(all.take(i as int), min_size as nat),
                names@.len() <= i,
                total == mergeable_size(all.take(i as int), min_size as nat),
                total <= i * u64::MAX,
            decreases entries@.len() - i,
        {
            let e = &entries[i];
            assert(all.take(i + 1).drop_last() =~= all.take(i as int));
            assert(all.take(i + 1).last() == e@);
            assert(i * u64::MAX + u64::MAX <= u128::MAX) by (nonlinear_arith)
                requires
                    i < usize::MAX,
                    usize::MAX <= u64::MAX,
            ;
            assert((i + 1) * u64::MAX == i * u64::MAX + u64::MAX) by (nonlinear_arith);
            if e.is_file && is_parquet(e.name.as_str()) && !text::starts_with(
                e.name.as_str(),
                "compacted_",
            ) && e.size < min_size {
                let ghost was = names@;
                names.push(e.name.clone());
                assert(text::views(names@) =~= text::views(was).push(e.name@));
                total = total + e.size as u128;
            }
            i += 1;
        }
        assert(all.take(i as int) =~= all);
        assert(text::views(names@).len() == names@.len());
        if names.len() <= 1 || total >= target_size as u128 {
            return None;
        }
        let inputs = text::sort_names(&names);
        proof {
            lemma_sorted_len(text::views(names@));
            assert(text::views(inputs@).len() == inputs@.len());
        }
        let hash = fnv1a_of_filenames(&inputs);
        let mut output = text::join3("compacted_", decimal::format_u64(hash).as_str(), "_");
        output.append(decimal::format_u64(inputs.len() as u64).as_str());
        output.append(".parquet");
        let temporary = text::join2(output.as_str(), ".tmp");
        Some(MergePlan { inputs, temporary, output })
    }
}

proof fn lemma_sorted_len(names: Seq<Seq<char>>)
    ensures
        text::sorted_names(names).len() == names.len(),
{
    broadcast use vstd::seq_lib::group_to_multiset_ensures;

    text::sorting_orders_the_names(names);
    assert(names.to_multiset().len() == names.len());
    assert(text::sorted_names(names).to_multiset().len() == text::sorted_names(names).len());
}

/// Whether a name is that of a Parquet file.
fn is_parquet(name: &str) -> (r: bool)
    ensures
        r == (".parquet"@.is_suffix_of(name@) && name@.len() > ".parquet"@.len()),
{
    match text::strip_suffix(name, ".parquet") {
        Some(stem) => !stem.as_str().is_empty(),
        None => false,
    }
}

proof fn lemma_mergeable_permuted(a: Seq<EntryModel>, b: Seq<EntryModel>, min_size: nat)
    requires
        a.to_multiset() == b.to_multiset(),
    ensures
        mergeable_names(a, min_size).to_multiset() == mergeable_names(b, min_size).to_multiset(),
        mergeable_size(a, min_size) == mergeable_size(b, min_size),
    decreases a.len(),
{
    broadcast use vstd::seq_lib::group_to_multiset_ensures;

    if a.len() == 0 {
        assert(b.to_multiset().len() == b.len());
        assert(a.to_multiset().len() == a.len());
        assert(a =~= b);
    } else {
        let last = a.last();
        assert(a =~= a.drop_last().push(last));
        assert(a.to_multiset().count(last) > 0);
        assert(b.contains(last));
        let k = choose|k: int| 0 <= k < b.len() && b[k] == last;
        let rest = b.remove(k);
        assert(a.drop_last().to_multiset() =~= a.to_multiset().remove(last));
        assert(rest.to_multiset() =~= b.to_multiset().remove(last));
        lemma_mergeable_permuted(a.drop_last(), rest, min_size);
        lemma_mergeable_remove(b, k, min_size);
        let names_a = mergeable_names(a.drop_last(), min_size);
        if mergeable(last, min_size) {
            assert(mergeable_names(a, min_size) =~= names_a.push(last.name));
        }
    }
}

proof fn lemma_mergeable_remove(b: Seq<EntryModel>, k: int, min_size: nat)
    requires
        0 <= k < b.len(),
    ensures
        mergeable(b[k], min_size) ==> mergeable_names(b, min_size).to_multiset()
            == mergeable_names(b.remove(k), min_size).to_multiset().insert(b[k].name)
            && mergeable_size(b, min_size) == mergeable_size(b.remove(k), min_size) + b[k].size,
        !mergeable(b[k], min_size) ==> mergeable_names(b, min_size).to_multiset()
            == mergeable_names(b.remove(k), min_size).to_multiset() && mergeable_size(b, min_size)
            == mergeable_size(b.remove(k), min_size),
    decreases b.len(),
{
    broadcast use vstd::seq_lib::group_to_multiset_ensures;

    if k == b.len() - 1 {
        assert(b.remove(k) =~= b.drop_last());
    } else {
        let front = b.drop_last();
        lemma_mergeable_remove(front, k, min_size);
        assert(b.remove(k).drop_last() =~= front.remove(k));
        assert(b.remove(k).last() == b.last());
        assert(front[k] == b[k]);
        let x = mergeable_names(front, min_size).to_multiset();
        let y = mergeable_names(front.remove(k), min_size).to_multiset();
        if mergeable(b.last(), min_size) {
            if mergeable(b[k], min_size) {
                assert(x.insert(b.last().name) =~= y.insert(b.last().name).insert(b[k].name));
            }
        }
    }
}

/// What is merged, and under which name, depends only on which files there are, not on the
/// order in which the directory lists them.
pub proof fn merging_forgets_the_order(
    a: Seq<EntryModel>,
    b: Seq<EntryModel>,
    min_size: nat,
    target_size: nat,
)
    requires
        a.to_multiset() == b.to_multiset(),
    ensures
        merge_inputs(a, min_size, target_size) == merge_inputs(b, min_size, target_size),
{
    broadcast use vstd::seq_lib::group_to_multiset_ensures;

    lemma_mergeable_permuted(a, b, min_size);
    let x = mergeable_names(a, min_size);
    let y = mergeable_names(b, min_size);
    assert(x.to_multiset().len() == x.len());
    assert(y.to_multiset().len() == y.len());
    text::sorting_forgets_the_order(x, y);
}

/// A merged file is not merged again, and does not change what is merged; while it is
/// written, its name is not that of a Parquet file. After a stop
/// between writing it and removing its inputs, the next run merges the same files under the
/// same name, over the file that is there.
pub proof fn merged_file_is_not_merged_again(
    entries: Seq<EntryModel>,
    names: Seq<Seq<char>>,
    size: u64,
    min_size: nat,
    target_size: nat,
)
    ensures
        ({
            let merged = EntryModel { name: merged_name(names), size, is_file: true };
            &&& !mergeable(merged, min_size)
            &&& !".parquet"@.is_suffix_of(merged_name(names) + ".tmp"@)
            &&& merge_inputs(entries.push(merged), min_size, target_size) == merge_inputs(
                entries,
                min_size,
                target_size,
            )
        }),
{
    let merged = EntryModel { name: merged_name(names), size, is_file: true };
    assert("compacted_"@.is_prefix_of(merged.name)) by {
        let n = merged.name;
        assert(n.take("compacted_"@.len() as int) =~= "compacted_"@);
        assert forall|i: int| 0 <= i < "compacted_"@.len() implies "compacted_"@[i] == n[i] by {}
    }
    assert(entries.push(merged).drop_last() =~= entries);
    reveal_strlit(".tmp");
    reveal_strlit(".parquet");
    let temporary = merged_name(names) + ".tmp"@;
    assert(temporary.last() == 'p');
    if ".parquet"@.is_suffix_of(temporary) {
        assert(".parquet"@.last() == temporary.last());
    }
}

/// Where the merge of a table stands.
#[derive(Debug, Clone, Copy, PartialEq, Eq, Structural)]
pub enum MergePhase {
    Merging,
    Renaming,
    Removing,
    Ended,
}

/// The merge of a table.
#[derive(Debug)]
pub struct MergeRun {
    pub plan: MergePlan,
    pub phase: MergePhase,
}

/// What the caller reports.
pub enum MergeEvent {
    Merged(Result<(), String>),
    Renamed(Result<(), String>),
    /// The inputs are removed, as far as possible; these files are there now, where they
    /// could be looked at.
    Removed(Result<Vec<FileRange>, String>),
}

/// What the caller does.
pub enum MergeAction {
    /// Write the rows of the inputs, in the order of their times, to one file.
    Merge { inputs: Vec<String>, temporary: String },
    Rename { from: String, to: String },
    Remove(Vec<String>),
    /// The merge is done; tells whether the table was counted again.
    Done(bool),
    Failed(String),
}

impl MergeRun {
    /// Whether the merge waits for an event.
    pub open spec fn expects(&self, event: MergeEvent) -> bool {
        match event {
            MergeEvent::Merged(_) => self.phase == MergePhase::Merging,
            MergeEvent::Renamed(_) => self.phase == MergePhase::Renaming,
            MergeEvent::Removed(_) => self.phase == MergePhase::Removing,
        }
    }

    /// Starts a merge.
    pub fn begin(plan: MergePlan) -> (r: (MergeRun, MergeAction))
        ensures
            r.0.plan == plan,
            r.0.phase == MergePhase::Merging,
            r.1 is Merge,
            text::views(r.1->inputs@) == text::views(plan.inputs@),
            r.1->temporary@ == plan.temporary@,
    {
        let action = MergeAction::Merge {
            inputs: text::copy_list(&plan.inputs),
            temporary: plan.temporary.clone(),
        };
        (MergeRun { plan, phase: MergePhase::Merging }, action)
    }

    /// Takes what the caller reports, and tells what it does next. The inputs are removed
    /// only when the merged file is in place.
    pub fn step(
        &mut self,
        metadata: &mut MetadataStore,
        db: &str,
        table: &str,
        now_ms: i64,
        event: MergeEvent,
    ) -> (r: MergeAction)
        requires
            old(self).expects(event),
        ensures
            final(self).plan == old(self).plan,
            match event {
                MergeEvent::Merged(outcome) => {
                    &&& *final(metadata) == *old(metadata)
                    &&& match outcome {
                        Ok(()) => {
                            &&& final(self).phase == MergePhase::Renaming
                            &&& r is Rename
                            &&& r->from@ == old(self).plan.temporary@
                            &&& r->to@ == old(self).plan.output@
                        },
                        Err(e) => {
                            &&& final(self).phase == MergePhase::Ended
                            &&& r is Failed
                            &&& r->Failed_0@ == e@
                        },
                    }
                },
                MergeEvent::Renamed(outcome) => {
                    &&& *final(metadata) == *old(metadata)
                    &&& match outcome {
                        Ok(()) => {
                            &&& final(self).phase == MergePhase::Removing
                            &&& r is Remove
                            &&& text::views(r->Remove_0@) == text::views(old(self).plan.inputs@)
                        },
                        Err(e) => {
                            &&& final(self).phase == MergePhase::Ended
                            &&& r is Failed
                            &&& r->Failed_0@ == "rename: "@ + e@
                        },
                    }
                },
                MergeEvent::Removed(outcome) => {
                    &&& final(self).phase == MergePhase::Ended
                    &&& r is Done
                    &&& match outcome {
                        Ok(files) => counted_again(
                            old(metadata)@,
                            db@,
                            table@,
                            text::views(old(self).plan.inputs@),
                            files@,
                            now_ms,
                            r->Done_0,
                            final(metadata)@,
                        ),
                        Err(_) => !r->Done_0 && final(metadata)@ == inputs_noted(
                            old(metadata)@,
                            db@,
                            table@,
                            text::views(old(self).plan.inputs@),
                            now_ms,
                        ),
                    }
                },
            },
    {
        match event {
            MergeEvent::Merged(outcome) => match outcome {
                Ok(()) => {
                    self.phase = MergePhase::Renaming;
                    MergeAction::Rename {
                        from: self.plan.temporary.clone(),
                        to: self.plan.output.clone(),
                    }
                },
                Err(e) => {
                    self.phase = MergePhase::Ended;
                    MergeAction::Failed(e)
                },
            },
            MergeEvent::Renamed(outcome) => match outcome {
                Ok(()) => {
                    self.phase = MergePhase::Removing;
                    MergeAction::Remove(text::copy_list(&self.plan.inputs))
                },
                Err(e) => {
                    self.phase = MergePhase::Ended;
                    MergeAction::Failed(text::join2("rename: ", e.as_str()))
                },
            },
            MergeEvent::Removed(outcome) => {
                self.phase = MergePhase::Ended;
                match outcome {
                    Ok(files) => MergeAction::Done(
                        CompactionScheduler::finish_table(
                            metadata,
                            db,
                            table,
                            &self.plan,
                            &files,
                            now_ms,
                        ),
                    ),
                    Err(_) => {
                        metadata.tombstone_files(db, table, &self.plan.inputs, now_ms);
                        MergeAction::Done(false)
                    },
                }
            },
        }
    }
}

/// Whether the rows of a merge can be found among the files that are there: in its inputs,
/// or in its output.
pub open spec fn rows_are_there(
    present: Set<Seq<char>>,
    inputs: Seq<Seq<char>>,
    output: Seq<char>,
) -> bool {
    ||| present.contains(output)
    ||| forall|i: int| 0 <= i < inputs.len() ==> present.contains(#[trigger] inputs[i])
}

proof fn lemma_mergeable_names_plain(entries: Seq<EntryModel>, min_size: nat, name: Seq<char>)
    requires
        mergeable_names(entries, min_size).contains(name),
    ensures
        !"compacted_"@.is_prefix_of(name),
    decreases entries.len(),
{
    if entries.len() > 0 {
        let front = mergeable_names(entries.drop_last(), min_size);
        let all = mergeable_names(entries, min_size);
        let k = choose|k: int| 0 <= k < all.len() && all[k] == name;
        if k < front.len() {
            assert(front[k] == name);
            lemma_mergeable_names_plain(entries.drop_last(), min_size, name);
        }
    }
}

/// At no point of a merge are its rows missing, also where it stops there: not while the
/// merged file is written, not after it has its name, and not after some or all of the
/// inputs are removed.
pub proof fn merge_never_loses_rows(
    entries: Seq<EntryModel>,
    min_size: nat,
    target_size: nat,
    present: Set<Seq<char>>,
    removed: Set<Seq<char>>,
)
    requires
        merge_inputs(entries, min_size, target_size) is Some,
        ({
            let inputs = merge_inputs(entries, min_size, target_size)->0;
            &&& forall|i: int| 0 <= i < inputs.len() ==> present.contains(#[trigger] inputs[i])
            &&& forall|n: Seq<char>| #[trigger] removed.contains(n) ==> inputs.contains(n)
        }),
    ensures
        ({
            let inputs = merge_inputs(entries, min_size, target_size)->0;
            let output = merged_name(inputs);
            let temporary = output + ".tmp"@;
            let written = present.insert(temporary);
            let renamed = written.remove(temporary).insert(output);
            &&& rows_are_there(written, inputs, output)
            &&& rows_are_there(renamed, inputs, output)
            &&& rows_are_there(renamed.difference(removed), inputs, output)
        }),
{
    broadcast use vstd::seq_lib::group_to_multiset_ensures;

    let names = mergeable_names(entries, min_size);
    let inputs = merge_inputs(entries, min_size, target_size)->0;
    let output = merged_name(inputs);
    let temporary = output + ".tmp"@;
    let written = present.insert(temporary);
    let renamed = written.remove(temporary).insert(output);
    assert("compacted_"@.is_prefix_of(output)) by {
        assert(output.take("compacted_"@.len() as int) =~= "compacted_"@);
        assert forall|i: int| 0 <= i < "compacted_"@.len() implies "compacted_"@[i] == output[i] by {
        }
    }
    if removed.contains(output) {
        text::sorting_orders_the_names(names);
        assert(inputs.contains(output));
        assert(inputs.to_multiset().count(output) > 0);
        assert(names.contains(output));
        lemma_mergeable_names_plain(entries, min_size, output);
    }
    assert(renamed.difference(removed).contains(output));
}

} // verus!
