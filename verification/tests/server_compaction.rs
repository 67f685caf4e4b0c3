use iedb::config::CompactionConfig;
use iedb::server::compaction::{
    fnv1a_of_filenames, parse_schedule_hours, CompactionScheduler, FileEntry, MergeAction,
    MergeEvent, MergePhase, MergeRun,
};
use iedb::server::ingest_api::{IngestApiHandler, IngestStep, IngestTarget};
use iedb::server::metadata_store::{FileRange, MetadataStore};

fn scheduler(min_file_size_mb: u64) -> CompactionScheduler {
    CompactionScheduler {
        config: CompactionConfig {
            enabled: true,
            schedule: "0 */6 * * *".to_string(),
            min_file_size_mb,
            target_file_size_mb: 16,
            max_concurrent: 2,
        },
    }
}

fn file(name: &str, size: u64) -> FileEntry {
    FileEntry { name: name.to_string(), size, is_file: true }
}

fn seed_table(n: usize) -> Vec<FileEntry> {
    (0..n).map(|i| file(&format!("file{}.parquet", i), 700)).collect()
}

#[test]
fn test_parse_schedule() {
    assert_eq!(parse_schedule_hours("0 */6 * * *"), 6);
    assert_eq!(parse_schedule_hours("0 */1 * * *"), 1);
    assert_eq!(parse_schedule_hours("0 */12 * * *"), 12);
    assert_eq!(parse_schedule_hours("bad"), 6);
    assert_eq!(parse_schedule_hours("*/x */3"), 6);
}

#[test]
fn test_run_once_merges_small_files() {
    let s = scheduler(1);
    let mut metadata = MetadataStore::new();
    metadata.update_stats(
        "metrics",
        "cpu",
        1000,
        3000,
        9,
        &vec![("usage".to_string(), "DOUBLE".to_string())],
        &vec![],
        1,
    );
    let plan = s.plan_table(&seed_table(3)).unwrap();
    assert_eq!(plan.inputs, vec!["file0.parquet", "file1.parquet", "file2.parquet"]);
    assert!(plan.output.starts_with("compacted_") && plan.output.ends_with("_3.parquet"));
    assert_eq!(plan.temporary, format!("{}.tmp", plan.output));

    let merged = vec![FileRange { time_min: 1000, time_max: 3000, row_count: 9 }];
    assert!(CompactionScheduler::finish_table(&mut metadata, "metrics", "cpu", &plan, &merged, 2));
    let detail = metadata.get_table("metrics", "cpu").unwrap();
    assert_eq!(detail.row_count, 9, "compaction must not double-count rows");
    assert_eq!(detail.time_min, Some(1000));
    assert_eq!(detail.time_max, Some(3000));
}

#[test]
fn test_run_once_crash_replay_does_not_duplicate() {
    let s = scheduler(1);
    let mut metadata = MetadataStore::new();
    metadata.update_stats("metrics", "cpu", 1000, 3000, 9, &vec![], &vec![], 1);
    let merged = vec![FileRange { time_min: 1000, time_max: 3000, row_count: 9 }];
    let first = s.plan_table(&seed_table(3)).unwrap();
    assert!(CompactionScheduler::finish_table(&mut metadata, "metrics", "cpu", &first, &merged, 2));

    let mut entries = seed_table(3);
    entries.push(file(&first.output, 2100));
    entries.reverse();
    let second = s.plan_table(&entries).unwrap();
    assert_eq!(second.inputs, first.inputs);
    assert_eq!(second.output, first.output, "same input set must produce the same compacted name");
    assert!(CompactionScheduler::finish_table(&mut metadata, "metrics", "cpu", &second, &merged, 3));
    assert_eq!(metadata.get_table("metrics", "cpu").unwrap().row_count, 9);

    let other = s.plan_table(&seed_table(4)).unwrap();
    assert_ne!(other.output, first.output);
}

#[test]
fn test_run_once_skips_large_files() {
    assert!(scheduler(0).plan_table(&seed_table(3)).is_none());
}

#[test]
fn test_run_once_single_file_noop() {
    assert!(scheduler(1).plan_table(&seed_table(1)).is_none());
}

#[test]
fn test_run_disabled_returns_immediately() {
    let mut s = scheduler(1);
    assert_eq!(s.interval_secs(), Some(21600));
    s.config.enabled = false;
    assert_eq!(s.interval_secs(), None);
}

#[test]
fn files_that_are_not_merged() {
    let s = scheduler(1);
    let mib = 1024 * 1024;
    let mut entries = vec![
        file("a.parquet", mib - 1),
        file("b.parquet", mib),
        file("c.parquet.tmp", 5),
        file(".parquet", 5),
        file("compacted_1_2.parquet", 5),
        FileEntry { name: "dir.parquet".to_string(), size: 5, is_file: false },
    ];
    assert!(s.plan_table(&entries).is_none());
    entries.push(file("d.parquet", 5));
    assert_eq!(s.plan_table(&entries).unwrap().inputs, vec!["a.parquet", "d.parquet"]);

    let many: Vec<FileEntry> =
        (0..17).map(|i| file(&format!("f{}.parquet", i), mib - 1)).collect();
    assert!(s.plan_table(&many).is_none(), "together they are as large as a merged file");
}

#[test]
fn fingerprint_of_names() {
    assert_eq!(fnv1a_of_filenames(&vec![]), 0xcbf29ce484222325);
    let hash = |names: &[&str]| {
        fnv1a_of_filenames(&names.iter().map(|n| n.to_string()).collect::<Vec<String>>())
    };
    let mut expected: u64 = 0xcbf29ce484222325;
    for b in "ab|".bytes() {
        expected = (expected ^ b as u64).wrapping_mul(0x100000001b3);
    }
    assert_eq!(hash(&["ab"]), expected);
    assert_ne!(hash(&["ab"]), hash(&["a", "b"]));
}

#[test]
fn merged_files_do_not_come_back() {
    let s = scheduler(1);
    let mut metadata = MetadataStore::new();
    let entries = vec![file("a1_5.parquet", 10), file("a1_6.parquet", 10)];
    let plan = s.plan_table(&entries).unwrap();
    let ranges = vec![FileRange { time_min: 1, time_max: 2, row_count: 4 }];
    let now = 700_000_000;
    CompactionScheduler::finish_table(&mut metadata, "m", "cpu", &plan, &ranges, now);
    assert!(metadata.tombstoned("m", "cpu", "a1_5.parquet"));
    assert!(!metadata.tombstoned("m", "mem", "a1_5.parquet"));

    let api = IngestApiHandler { data_dir: "/data".to_string(), max_body_bytes: 100 };
    let target = IngestTarget {
        db: "m".to_string(),
        table: "cpu".to_string(),
        agent_id: "a1".to_string(),
        chunk_time: Some(5),
    };
    match api.place(&metadata, &target, 10, Some(1)) {
        IngestStep::Reply(r) => {
            assert_eq!(r.status, 200);
            assert_eq!(r.body, "ok");
        }
        IngestStep::Store { .. } => panic!("its rows are in the merged file"),
    }

    CompactionScheduler::begin_run(&mut metadata, now + 604_800_000);
    assert!(metadata.tombstoned("m", "cpu", "a1_5.parquet"));
    CompactionScheduler::begin_run(&mut metadata, now + 604_800_001);
    assert!(!metadata.tombstoned("m", "cpu", "a1_5.parquet"));
}

#[test]
fn rows_that_cannot_be_counted() {
    let s = scheduler(1);
    let mut metadata = MetadataStore::new();
    let plan = s.plan_table(&seed_table(2)).unwrap();
    let huge = vec![
        FileRange { time_min: 1, time_max: 2, row_count: i64::MAX as usize },
        FileRange { time_min: 1, time_max: 2, row_count: 1 },
    ];
    assert!(!CompactionScheduler::finish_table(&mut metadata, "m", "cpu", &plan, &huge, 1));
    assert!(metadata.get_table("m", "cpu").is_none());
    assert!(metadata.tombstoned("m", "cpu", "file1.parquet"));
}

#[test]
fn inputs_are_removed_behind_the_merged_file() {
    let mut metadata = MetadataStore::new();
    let plan = scheduler(1).plan_table(&seed_table(2)).unwrap();
    let output = plan.output.clone();
    let names = vec!["file0.parquet".to_string(), "file1.parquet".to_string()];

    let (mut run, action) = MergeRun::begin(plan);
    match action {
        MergeAction::Merge { inputs, temporary } => {
            assert_eq!(inputs, names);
            assert_eq!(temporary, format!("{}.tmp", output));
        }
        _ => panic!("the rows are written first"),
    }
    match run.step(&mut metadata, "m", "cpu", 5, MergeEvent::Merged(Ok(()))) {
        MergeAction::Rename { from, to } => {
            assert_eq!(from, format!("{}.tmp", output));
            assert_eq!(to, output);
        }
        _ => panic!("the file gets its name"),
    }
    match run.step(&mut metadata, "m", "cpu", 5, MergeEvent::Renamed(Ok(()))) {
        MergeAction::Remove(inputs) => assert_eq!(inputs, names),
        _ => panic!("the inputs are not needed any more"),
    }
    assert!(!metadata.tombstoned("m", "cpu", "file0.parquet"));
    let ranges = vec![FileRange { time_min: 1, time_max: 9, row_count: 4 }];
    assert!(matches!(
        run.step(&mut metadata, "m", "cpu", 5, MergeEvent::Removed(Ok(ranges))),
        MergeAction::Done(true)
    ));
    assert_eq!(run.phase, MergePhase::Ended);
    assert!(metadata.tombstoned("m", "cpu", "file0.parquet"));
    assert_eq!(metadata.get_table("m", "cpu").unwrap().row_count, 4);
}

#[test]
fn inputs_stay_noted_where_the_rows_cannot_be_read_again() {
    let mut metadata = MetadataStore::new();
    metadata.update_stats("m", "cpu", 1, 9, 4, &vec![], &vec![], 1);
    let (mut run, _) = MergeRun::begin(scheduler(1).plan_table(&seed_table(2)).unwrap());
    run.step(&mut metadata, "m", "cpu", 5, MergeEvent::Merged(Ok(())));
    run.step(&mut metadata, "m", "cpu", 5, MergeEvent::Renamed(Ok(())));
    let event = MergeEvent::Removed(Err("denied".to_string()));
    assert!(matches!(
        run.step(&mut metadata, "m", "cpu", 5, event),
        MergeAction::Done(false)
    ));
    assert_eq!(run.phase, MergePhase::Ended);
    assert!(metadata.tombstoned("m", "cpu", "file0.parquet"));
    assert!(metadata.tombstoned("m", "cpu", "file1.parquet"));
    assert_eq!(metadata.get_table("m", "cpu").unwrap().row_count, 4);
}

#[test]
fn merge_that_fails_removes_nothing() {
    let mut metadata = MetadataStore::new();
    let plan = || scheduler(1).plan_table(&seed_table(2)).unwrap();

    let (mut run, _) = MergeRun::begin(plan());
    let event = MergeEvent::Merged(Err("no rows".to_string()));
    match run.step(&mut metadata, "m", "cpu", 5, event) {
        MergeAction::Failed(e) => assert_eq!(e, "no rows"),
        _ => panic!("nothing was written"),
    }
    assert_eq!(run.phase, MergePhase::Ended);

    let (mut run, _) = MergeRun::begin(plan());
    run.step(&mut metadata, "m", "cpu", 5, MergeEvent::Merged(Ok(())));
    let event = MergeEvent::Renamed(Err("denied".to_string()));
    match run.step(&mut metadata, "m", "cpu", 5, event) {
        MergeAction::Failed(e) => assert_eq!(e, "rename: denied"),
        _ => panic!("the file is not in place"),
    }
    assert!(!metadata.tombstoned("m", "cpu", "file0.parquet"));
}
