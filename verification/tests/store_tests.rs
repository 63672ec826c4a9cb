use disk_clear_tool::classify::classify;
use disk_clear_tool::models::{
    AnalyzerConfig, CleanCategory, CleanResult, HistoryEntry, LargeFileEntry, MonitorEntry, MonitorSnapshot,
    ScheduleConfig, ScheduleFrequency,
};
use disk_clear_tool::snapstore::{
    is_snapshot_file, prune_candidates, sanitize_ts, snapshot_file_name, sort_file_names, SnapshotStore,
};
use disk_clear_tool::stores::{
    build_entries_from_cli, build_entries_from_results, cli_summary, default_analyzer_config, AnalyzerConfigStore,
    ConfigStore, HistoryStore,
};
use std::path::Path;

fn now_instant() -> (i64, u32) {
    let t = chrono::Local::now();
    (t.timestamp(), t.timestamp_subsec_nanos())
}

fn snap(ts: &str) -> MonitorSnapshot {
    let (ad, ar) = classify("C:/A");
    let (fd, fr) = classify("C:/A/f.bin");
    MonitorSnapshot {
        timestamp: ts.into(),
        scan_type: "full".into(),
        drive_total: 1000,
        drive_used: 500,
        monitor_dirs: vec![MonitorEntry {
            path: "C:/A".into(),
            size_bytes: 100,
            file_count: 1,
            exists: true,
            advice: ad,
            advice_reason: ar,
        }],
        large_files: vec![LargeFileEntry { path: "C:/A/f.bin".into(), size_bytes: 50, advice: fd, advice_reason: fr }],
    }
}

/// A snapshot directory held in memory: the saved snapshots, by file name.
struct Dir {
    files: Vec<(String, MonitorSnapshot)>,
    store: SnapshotStore,
}

impl Dir {
    fn new() -> Dir {
        Dir { files: Vec::new(), store: SnapshotStore::new(None) }
    }

    fn save(&mut self, s: MonitorSnapshot) {
        let name = snapshot_file_name(&s.timestamp);
        self.files.retain(|(n, _)| *n != name);
        self.files.push((name, s));
        self.reindex();
    }

    fn reindex(&mut self) {
        let mut names: Vec<String> = self.files.iter().map(|(n, _)| n.clone()).collect();
        sort_file_names(&mut names);
        let snaps: Vec<MonitorSnapshot> = names
            .iter()
            .map(|n| self.files.iter().find(|(m, _)| m == n).unwrap().1.clone())
            .collect();
        self.store.rebuild_index(&snaps);
    }

    fn load(&self, ts: &str) -> Option<MonitorSnapshot> {
        let name = snapshot_file_name(ts);
        self.files.iter().find(|(n, _)| *n == name).map(|(_, s)| s.clone())
    }
}

#[test]
fn save_list_load_roundtrip() {
    let mut dir = Dir::new();
    dir.save(snap("2026-07-21T10:00:00+08:00"));
    dir.save(snap("2026-07-21T11:00:00+08:00"));
    let items = dir.store.list();
    assert_eq!(items.len(), 2);
    assert_eq!(items[0].timestamp, "2026-07-21T10:00:00+08:00");
    let loaded = dir.load(&items[1].timestamp).unwrap();
    assert_eq!(loaded.drive_used, 500);
}

#[test]
fn latest_returns_newest() {
    let mut dir = Dir::new();
    dir.save(snap("2026-07-21T10:00:00+08:00"));
    dir.save(snap("2026-07-21T12:00:00+08:00"));
    let file = dir.store.latest().unwrap();
    let latest = dir.files.iter().find(|(n, _)| *n == file).unwrap().1.clone();
    assert_eq!(latest.timestamp, "2026-07-21T12:00:00+08:00");
}

#[test]
fn prune_keeps_newest_even_if_old() {
    let mut dir = Dir::new();
    // Both ancient, but the newest must survive a prune.
    dir.save(snap("2020-01-01T00:00:00+08:00"));
    dir.save(snap("2020-02-01T00:00:00+08:00"));
    let plan = dir.store.prune_plan(now_instant(), 14);
    let before = dir.files.len();
    dir.files.retain(|(n, _)| !plan.contains(n));
    let removed = before - dir.files.len();
    if removed > 0 {
        dir.reindex();
    }
    assert!(removed >= 1);
    assert_eq!(dir.store.list().len(), 1);
    assert_eq!(dir.store.list()[0].timestamp, "2020-02-01T00:00:00+08:00");
}

#[test]
fn empty_store_returns_empty_list() {
    let store = SnapshotStore::new(None);
    assert!(store.list().is_empty());
    assert!(store.latest().is_none());
}

#[test]
fn concurrent_saves_dont_corrupt_index() {
    // Sequential 100 saves; index must end with 100 entries, sorted.
    let mut dir = Dir::new();
    for i in 0..100 {
        let ts = format!("2026-07-21T10:{:02}:00+08:00", i);
        dir.save(snap(&ts));
    }
    let items = dir.store.list();
    assert_eq!(items.len(), 100);
    // Confirm sorted ascending.
    let mut sorted = items.clone();
    sorted.sort_by(|a, b| a.timestamp.cmp(&b.timestamp));
    assert_eq!(items, sorted);
}

#[test]
fn sanitize_ts_is_filesystem_safe() {
    let got = sanitize_ts("2026-07-21T10:00:00+08:00");
    assert!(!got.contains(':'));
    assert!(!got.contains('+'));
    let p = Path::new(&got);
    assert_eq!(p.extension(), None);
}

#[test]
fn snapshot_file_names_and_index_file() {
    assert_eq!(snapshot_file_name("2026-07-21T10:00:00.5+08:00"), "2026-07-21T10_00_00_5_08_00.json");
    assert!(is_snapshot_file("2026-07-21T10_00_00_08_00.json"));
    assert!(!is_snapshot_file("index.json"));
    assert!(!is_snapshot_file(".json"));
    assert!(!is_snapshot_file("notes.txt"));
    assert!(!is_snapshot_file("json"));
}

#[test]
fn prune_skips_unparsable_and_recent() {
    let mut dir = Dir::new();
    dir.save(snap("not a time"));
    dir.save(snap("2000-01-01T00:00:00Z"));
    dir.save(snap("2999-01-01T00:00:00Z"));
    dir.save(snap("3000-01-01T00:00:00Z"));
    // Index order: "2000..", "2999..", "3000..", "not a time".
    let items = dir.store.list();
    let pos = prune_candidates(&items, now_instant(), 14);
    assert_eq!(pos, vec![0]);
    let plan = dir.store.prune_plan(now_instant(), 14);
    assert_eq!(plan, vec!["2000-01-01T00_00_00Z.json".to_string()]);
}

#[test]
fn rfc3339_offsets_are_honoured_when_pruning() {
    // 1970-01-01T08:00:01+08:00 is one second after the epoch.
    let lines = vec![
        disk_clear_tool::models::SnapshotSummary {
            timestamp: "1970-01-01T08:00:01+08:00".to_string(),
            scan_type: "full".to_string(),
            drive_used: 0,
        },
        disk_clear_tool::models::SnapshotSummary {
            timestamp: "1970-01-01T00:00:00.25Z".to_string(),
            scan_type: "full".to_string(),
            drive_used: 0,
        },
        disk_clear_tool::models::SnapshotSummary {
            timestamp: "yesterday".to_string(),
            scan_type: "full".to_string(),
            drive_used: 0,
        },
    ];
    let day = 86400i64;
    // Cut-off exactly at that second: not stale; 0.25 s after the epoch is.
    assert_eq!(prune_candidates(&lines, (14 * day + 1, 0), 14), vec![1]);
    // Cut-off half a second later: both stale; the last line is never pruned.
    assert_eq!(prune_candidates(&lines, (14 * day + 1, 500_000_000), 14), vec![0, 1]);
    // Cut-off before 0.25 s: nothing stale.
    assert_eq!(prune_candidates(&lines, (14 * day, 100_000_000), 14), Vec::<usize>::new());
}

fn entry(c: CleanCategory, freed: u64, removed: u64) -> HistoryEntry {
    HistoryEntry { category: c, freed_bytes: freed, removed_count: removed, error_count: 0 }
}

#[test]
fn history_append_totals_and_cap() {
    let mut h = HistoryStore::new(None);
    h.append(
        "t0".to_string(),
        vec![entry(CleanCategory::WindowsTemp, 10, 1), entry(CleanCategory::Prefetch, 5, 2)],
        "manual",
    );
    let l = h.list();
    assert_eq!(l.len(), 1);
    assert_eq!(l[0].total_freed_bytes, 15);
    assert_eq!(l[0].total_removed, 3);
    assert_eq!(l[0].source, "manual");
    for i in 0..600 {
        h.append(format!("t{}", i + 1), vec![], "scheduler");
    }
    let l = h.list();
    assert_eq!(l.len(), 500);
    assert_eq!(l[0].timestamp, "t101");
    assert_eq!(l[499].timestamp, "t600");
    h.clear();
    assert!(h.list().is_empty());
}

#[test]
fn history_entries_from_results_and_cli_agree() {
    let results = vec![
        CleanResult { category: CleanCategory::WindowsTemp, freed_bytes: 7, removed_count: 2, errors: vec!["e".into()] },
        CleanResult { category: CleanCategory::DevCaches, freed_bytes: 0, removed_count: 0, errors: vec![] },
    ];
    let a = build_entries_from_results(&results);
    let summaries: Vec<(CleanCategory, u64, u64, u64)> = results.iter().map(cli_summary).collect();
    assert_eq!(summaries[0], (CleanCategory::WindowsTemp, 7, 2, 1));
    let b = build_entries_from_cli(&summaries);
    assert_eq!(a.len(), 2);
    assert_eq!(a[0].error_count, 1);
    for (x, y) in a.iter().zip(b.iter()) {
        assert_eq!(x.category, y.category);
        assert_eq!(x.freed_bytes, y.freed_bytes);
        assert_eq!(x.removed_count, y.removed_count);
        assert_eq!(x.error_count, y.error_count);
    }
}

#[test]
fn schedule_config_default_and_store() {
    let d = ScheduleConfig::default();
    assert!(!d.enabled);
    assert_eq!(d.frequency, ScheduleFrequency::Daily);
    assert_eq!((d.hour, d.minute), (3, 0));
    assert_eq!(
        d.categories,
        vec![CleanCategory::WindowsTemp, CleanCategory::BrowserCache, CleanCategory::WindowsUpdate]
    );
    let mut s = ConfigStore::new(None);
    assert_eq!(s.get().hour, 3);
    let mut c = ScheduleConfig::default();
    c.hour = 22;
    assert_eq!(s.set(c.clone(), Err("disk full".to_string())), Err("disk full".to_string()));
    assert_eq!(s.get().hour, 3);
    assert_eq!(s.set(c, Ok(())), Ok(()));
    assert_eq!(s.get().hour, 22);
}

#[test]
fn analyzer_config_defaults() {
    let cfg = default_analyzer_config(
        Some(r"C:\Users\u\AppData\Local".to_string()),
        Some(r"C:\Users\u\AppData\Roaming".to_string()),
        Some(r"C:\Users\u".to_string()),
    );
    assert_eq!(cfg.large_file_min_bytes, 500 * 1024 * 1024);
    assert_eq!(cfg.large_file_top_n, 50);
    assert_eq!(cfg.snapshot_keep_days, 14);
    assert!(!cfg.monitor_dirs.is_empty());
    let store = AnalyzerConfigStore::new(None, cfg.clone());
    assert_eq!(store.get().monitor_dirs, cfg.monitor_dirs);
    let mine = AnalyzerConfig {
        monitor_dirs: vec![r"D:\x".to_string()],
        large_file_min_bytes: 1,
        large_file_top_n: 2,
        snapshot_keep_days: 3,
    };
    let mut store = AnalyzerConfigStore::new(Some(mine), cfg);
    assert_eq!(store.get().monitor_dirs, vec![r"D:\x".to_string()]);
    let other = AnalyzerConfig { monitor_dirs: vec![], large_file_min_bytes: 9, large_file_top_n: 9, snapshot_keep_days: 9 };
    assert!(store.set(other, Ok(())).is_ok());
    assert_eq!(store.get().large_file_top_n, 9);
}
