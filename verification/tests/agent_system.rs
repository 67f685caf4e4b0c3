use iedb::agent::system::{
    cpu_counters, memory_mb, parse_kb, process_rss_mb, CpuSampler, SystemSampler,
};

#[test]
fn test_parse_kb_typical_line() {
    assert_eq!(parse_kb("MemTotal:        2048000 kB"), 2048000);
    assert_eq!(parse_kb("VmRSS:       12345 kB"), 12345);
}

#[test]
fn test_parse_kb_empty_returns_zero() {
    assert_eq!(parse_kb(""), 0);
    assert_eq!(parse_kb("garbage"), 0);
}

#[test]
fn test_sample_memory_and_rss_do_not_panic() {
    for content in ["", "MemTotal: 5 kB", "MemAvailable: 7 kB\nMemTotal: x kB", "\n\n:"] {
        let (total, used) = memory_mb(content);
        assert!(total >= used, "total {total} >= used {used}");

        let rss = process_rss_mb(content);
        assert!(rss < 1_000_000, "RSS {rss} MB is implausibly large");
    }
}

#[test]
fn memory_in_megabytes() {
    let content = "MemTotal:        2048000 kB\nMemFree:  100 kB\nMemAvailable:    1024000 kB\n";
    assert_eq!(memory_mb(content), (2000, 1000));
    assert_eq!(memory_mb("MemTotal: 1024 kB\nMemAvailable: 4096 kB"), (1, 0));
    assert_eq!(memory_mb(""), (0, 0));
    assert_eq!(process_rss_mb("Name: x\nVmRSS:\t   20480 kB\n"), 20);
    assert_eq!(process_rss_mb("Name: x\n"), 0);
}

#[test]
fn processor_use_between_two_samples() {
    let mut sampler = CpuSampler::new();
    assert!(sampler.sample("cpu  10 0 10 70 10 0 0 0\n").is_none());
    let used = sampler.sample("cpu  20 0 20 130 30 0 0 0\n").unwrap();
    assert_eq!(used.total, 100);
    assert_eq!(used.used, 20);
    assert!(sampler.sample("cpu  20 0 20 130 30 0 0 0\n").is_none());
    assert!(sampler.sample("intr 5\n").is_none());
    assert!(cpu_counters("cpu0 1 2 3 4 5\n").is_none());
}

#[test]
fn test_sampler_initial_values_are_zero() {
    let sampler = SystemSampler::new();
    let info = sampler.current();
    assert!(info.cpu.is_none());
    assert_eq!(info.process_rss_mb, 0);
    assert_eq!(info.memory_total_mb, 0);
    assert_eq!(info.memory_used_mb, 0);
}

#[test]
fn test_sampler_tick_updates_values() {
    let mut sampler = SystemSampler::new();
    sampler.tick(
        Some("cpu  10 0 10 70 10 0 0 0\n"),
        Some("MemTotal: 2048000 kB\nMemAvailable: 1024000 kB\n"),
        Some("VmRSS: 20480 kB\n"),
    );
    let info = sampler.current();
    assert!(info.cpu.is_none());
    assert_eq!(info.memory_total_mb, 2000);
    assert_eq!(info.memory_used_mb, 1000);
    assert_eq!(info.process_rss_mb, 20);

    sampler.tick(Some("cpu  20 0 20 130 30 0 0 0\n"), None, None);
    let info = sampler.current();
    let used = info.cpu.unwrap();
    assert!(used.used <= used.total, "{} of {} out of range", used.used, used.total);
    assert_eq!((used.used, used.total), (20, 100));
    assert_eq!(info.memory_total_mb, 0);
    assert_eq!(info.process_rss_mb, 0);

    sampler.tick(None, None, None);
    assert!(sampler.current().cpu.is_none());
    sampler.tick(Some("cpu  30 0 30 210 30 0 0 0\n"), None, None);
    assert_eq!(sampler.current().cpu.unwrap().used, 20);
}
