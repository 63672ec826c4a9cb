use disk_clear_tool::cleaner::{
    clean_category, clean_category_with_progress, disk_root, get_disk_info, glob_pattern, read_dir_error,
    remove_error, scan_category, CleanEvent, MAX_ERRORS,
};
use disk_clear_tool::models::CleanCategory;
use disk_clear_tool::paths::{
    listing_dirs, path_join, paths_for, probe_paths, CleanTarget, DirItem, Listing, PathEnv,
};

fn env() -> PathEnv {
    PathEnv {
        temp: Some(r"C:\Users\u\AppData\Local\Temp".to_string()),
        tmp: Some(r"C:\Users\u\AppData\Local\Temp".to_string()),
        system_root: None,
        program_data: None,
        local_data: Some(r"C:\Users\u\AppData\Local".to_string()),
        roaming_data: Some(r"C:\Users\u\AppData\Roaming".to_string()),
        home: Some(r"C:\Users\u".to_string()),
    }
}

fn dirs_of(ts: &[CleanTarget]) -> Vec<String> {
    ts.iter()
        .map(|t| match t {
            CleanTarget::Dir(p) => format!("dir {}", p),
            CleanTarget::Files { dir, pattern } => format!("files {} {}", dir, pattern),
            CleanTarget::File(p) => format!("file {}", p),
            CleanTarget::RecycleBin(p) => format!("bin {}", p),
        })
        .collect()
}

/// Every probed path exists.
fn all_exist(cat: CleanCategory, e: &PathEnv, ls: &Vec<Listing>) -> Vec<CleanTarget> {
    let existing = probe_paths(cat, e, ls);
    paths_for(cat, e, ls, &existing)
}

#[test]
fn dir_target_clears_contents_but_keeps_root() {
    // A directory holding a.txt (5 bytes) and sub\b.txt (7 bytes).
    let scan = scan_category(CleanCategory::WindowsTemp, &vec![5, 7]);
    assert_eq!(scan.size_bytes, 12);
    assert_eq!(scan.file_count, 2);
    // Its only entries, a.txt and the sub directory (7 bytes), are removed.
    let r = clean_category(CleanCategory::WindowsTemp, vec![CleanEvent::Removed(5), CleanEvent::Removed(7)]);
    assert_eq!(r.freed_bytes, 12);
    assert_eq!(r.removed_count, 2);
    assert!(r.errors.is_empty(), "{:?}", r.errors);
}

#[test]
fn files_target_deletes_only_matching_files() {
    // a.log (3) and b.log (4) match *.log; c.txt (5) does not.
    assert_eq!(glob_pattern(r"C:\dir", "*.log"), r"C:\dir\*.log");
    let scan = scan_category(CleanCategory::WindowsLogs, &vec![3, 4]);
    assert_eq!(scan.size_bytes, 7);
    assert_eq!(scan.file_count, 2);
    let r = clean_category(CleanCategory::WindowsLogs, vec![CleanEvent::Removed(3), CleanEvent::Removed(4)]);
    assert_eq!(r.freed_bytes, 7);
    assert_eq!(r.removed_count, 2);
    assert!(r.errors.is_empty(), "{:?}", r.errors);
}

#[test]
fn file_target_deletes_single_file() {
    let scan = scan_category(CleanCategory::MemoryDumps, &vec![5]);
    assert_eq!(scan.size_bytes, 5);
    assert_eq!(scan.file_count, 1);
    let r = clean_category(CleanCategory::MemoryDumps, vec![CleanEvent::Removed(5)]);
    assert_eq!(r.freed_bytes, 5);
    assert_eq!(r.removed_count, 1);
}

#[test]
fn clean_progress_errors_and_recycle_bin() {
    let events = vec![
        CleanEvent::Removed(10),
        CleanEvent::Failed(remove_error(r"C:\t\x", "denied")),
        CleanEvent::RecycleBin(Ok(false), 99),
        CleanEvent::RecycleBin(Ok(true), 90),
        CleanEvent::RecycleBin(Err("0x1".to_string()), 5),
        CleanEvent::Failed(read_dir_error(r"C:\t\y", "gone")),
    ];
    let (r, reports) = clean_category_with_progress(CleanCategory::RecycleBin, events);
    assert_eq!(r.category, CleanCategory::RecycleBin);
    assert_eq!(r.freed_bytes, 100);
    assert_eq!(r.removed_count, 2);
    assert_eq!(reports, vec![(10, 1), (100, 2)]);
    assert_eq!(
        r.errors,
        vec![
            r"remove C:\t\x: denied".to_string(),
            "SHEmptyRecycleBinW: 0x1".to_string(),
            r"read_dir C:\t\y: gone".to_string()
        ]
    );
}

#[test]
fn clean_keeps_at_most_fifty_errors() {
    let mut events = Vec::new();
    for i in 0..80 {
        events.push(CleanEvent::Failed(format!("e{}", i)));
    }
    events.push(CleanEvent::Removed(1));
    let r = clean_category(CleanCategory::WindowsTemp, events);
    assert_eq!(r.errors.len(), MAX_ERRORS);
    assert_eq!(r.errors[0], "e0");
    assert_eq!(r.errors[49], "e49");
    assert_eq!(r.removed_count, 1);
}

#[test]
fn scan_sizes_saturate() {
    let scan = scan_category(CleanCategory::DevCaches, &vec![u64::MAX, 10]);
    assert_eq!(scan.size_bytes, u64::MAX);
    assert_eq!(scan.file_count, 2);
    let empty = scan_category(CleanCategory::DevCaches, &vec![]);
    assert_eq!((empty.size_bytes, empty.file_count), (0, 0));
}

#[test]
fn disk_info_from_reply() {
    assert_eq!(disk_root("C"), r"C:\");
    assert_eq!(disk_root("C:"), r"C:\");
    assert_eq!(disk_root(r"C:\\"), r"C:\");
    let d = get_disk_info("C:", Some((1000, 300))).unwrap();
    assert_eq!((d.total_bytes, d.free_bytes, d.used_bytes), (1000, 300, 700));
    let d = get_disk_info("C:", Some((10, 30))).unwrap();
    assert_eq!(d.used_bytes, 0);
    assert_eq!(get_disk_info("Q:", None).unwrap_err(), "GetDiskFreeSpaceExW failed for Q:");
}

#[test]
fn path_join_follows_windows_rules() {
    assert_eq!(path_join(r"C:\a", "b"), r"C:\a\b");
    assert_eq!(path_join(r"C:\a\", "b"), r"C:\a\b");
    assert_eq!(path_join("C:/a/", "b"), "C:/a/b");
    assert_eq!(path_join("C:", "b"), "C:b");
    assert_eq!(path_join("", "b"), "b");
}

#[test]
fn temp_paths_skip_tmp_equal_to_temp_and_missing_ones() {
    let e = env();
    let ls: Vec<Listing> = vec![];
    let probes = probe_paths(CleanCategory::WindowsTemp, &e, &ls);
    assert_eq!(
        probes,
        vec![
            r"C:\Users\u\AppData\Local\Temp".to_string(),
            r"C:\Windows\Temp".to_string(),
            r"C:\Users\u\AppData\Local\CrashDumps".to_string()
        ]
    );
    let existing = vec![r"C:\Windows\Temp".to_string(), r"C:\Users\u\AppData\Local\Temp".to_string()];
    let got = paths_for(CleanCategory::WindowsTemp, &e, &ls, &existing);
    assert_eq!(dirs_of(&got), vec![r"dir C:\Users\u\AppData\Local\Temp", r"dir C:\Windows\Temp"]);
}

#[test]
fn system_root_from_environment() {
    let mut e = env();
    e.system_root = Some(r"D:\Win".to_string());
    let got = all_exist(CleanCategory::Prefetch, &e, &vec![]);
    assert_eq!(dirs_of(&got), vec![r"dir D:\Win\Prefetch"]);
    let got = all_exist(CleanCategory::WindowsUpdate, &e, &vec![]);
    assert_eq!(
        dirs_of(&got),
        vec![r"dir D:\Win\SoftwareDistribution\Download", r"dir D:\Win\Logs\CBS", r"dir D:\Win\Logs\WindowsUpdate"]
    );
    let got = all_exist(CleanCategory::MemoryDumps, &e, &vec![]);
    assert_eq!(
        dirs_of(&got),
        vec![r"file D:\Win\Memory.dmp", r"dir D:\Win\Minidump", r"dir D:\Win\LiveKernelReports"]
    );
    let got = all_exist(CleanCategory::DeliveryOptimization, &env(), &vec![]);
    assert_eq!(dirs_of(&got), vec![r"dir C:\Windows\SoftwareDistribution\DeliveryOptimization"]);
}

#[test]
fn recycle_bin_thumbnails_error_reports_and_dev_caches() {
    let e = env();
    let ls = vec![];
    assert_eq!(dirs_of(&all_exist(CleanCategory::RecycleBin, &e, &ls)), vec![r"bin C:\$Recycle.Bin"]);
    assert!(paths_for(CleanCategory::RecycleBin, &e, &ls, &vec![]).is_empty());
    assert_eq!(
        dirs_of(&all_exist(CleanCategory::Thumbnails, &e, &ls)),
        vec![
            r"files C:\Users\u\AppData\Local\Microsoft\Windows\Explorer thumbcache_*.db",
            r"files C:\Users\u\AppData\Local\Microsoft\Windows\Explorer iconcache_*.db",
            r"file C:\Users\u\AppData\Local\IconCache.db"
        ]
    );
    assert_eq!(
        dirs_of(&all_exist(CleanCategory::ErrorReports, &e, &ls)),
        vec![r"dir C:\ProgramData\Microsoft\Windows\WER", r"dir C:\Users\u\AppData\Local\Microsoft\Windows\WER"]
    );
    assert_eq!(
        dirs_of(&all_exist(CleanCategory::DevCaches, &e, &ls)),
        vec![
            r"dir C:\Users\u\AppData\Local\npm-cache",
            r"dir C:\Users\u\AppData\Local\pip\Cache",
            r"dir C:\Users\u\AppData\Local\NuGet\v3-cache",
            r"dir C:\Users\u\.cargo\registry\cache",
            r"dir C:\Users\u\.cargo\registry\src"
        ]
    );
    let mut none = env();
    none.local_data = None;
    assert!(all_exist(CleanCategory::DevCaches, &none, &ls).is_empty());
    assert!(all_exist(CleanCategory::BrowserCache, &none, &ls).is_empty());
    assert!(listing_dirs(CleanCategory::BrowserCache, &none).is_empty());
}

fn item(name: &str, is_dir: bool) -> DirItem {
    DirItem { name: name.to_string(), is_dir }
}

#[test]
fn browser_paths_walk_profiles() {
    let e = env();
    let dirs = listing_dirs(CleanCategory::BrowserCache, &e);
    assert_eq!(
        dirs,
        vec![
            r"C:\Users\u\AppData\Local\Google\Chrome\User Data".to_string(),
            r"C:\Users\u\AppData\Local\Microsoft\Edge\User Data".to_string(),
            r"C:\Users\u\AppData\Roaming\Mozilla\Firefox\Profiles".to_string()
        ]
    );
    let ls = vec![
        Listing { dir: dirs[0].clone(), items: vec![item("Profile 1", true), item("System Profile", true)] },
        Listing { dir: dirs[2].clone(), items: vec![item("abc.default", true)] },
    ];
    let chrome = &dirs[0];
    let existing = vec![
        chrome.clone(),
        format!(r"{}\Default", chrome),
        format!(r"{}\Default\Cache", chrome),
        format!(r"{}\Profile 1", chrome),
        format!(r"{}\Profile 1\GPUCache", chrome),
        format!(r"{}\System Profile\Cache", chrome),
        dirs[2].clone(),
        format!(r"{}\abc.default\cache2", dirs[2]),
        // Edge's data directory is missing: its caches are not kept.
        format!(r"{}\Default\Cache", dirs[1]),
    ];
    let got = paths_for(CleanCategory::BrowserCache, &e, &ls, &existing);
    assert_eq!(
        dirs_of(&got),
        vec![
            format!(r"dir {}\Default\Cache", chrome),
            format!(r"dir {}\Profile 1\GPUCache", chrome),
            format!(r"dir {}\abc.default\cache2", dirs[2]),
        ]
    );
    let probes = probe_paths(CleanCategory::BrowserCache, &e, &ls);
    // Chrome: 2 profiles x 8 caches x 3 guards; Edge: 1 x 8 x 3; Firefox: 1 x 3 x 2.
    assert_eq!(probes.len(), 2 * 8 * 3 + 8 * 3 + 3 * 2);
}

#[test]
fn log_paths_skip_update_logs() {
    let e = env();
    let dirs = listing_dirs(CleanCategory::WindowsLogs, &e);
    assert_eq!(dirs, vec![r"C:\Windows\Logs".to_string()]);
    let ls = vec![Listing {
        dir: dirs[0].clone(),
        items: vec![item("cbs", true), item("DISM", true), item("WINDOWSUPDATE", true), item("x.log", false)],
    }];
    let existing = vec![r"C:\Windows\inf".to_string()];
    let got = paths_for(CleanCategory::WindowsLogs, &e, &ls, &existing);
    assert_eq!(dirs_of(&got), vec![r"files C:\Windows\inf setupapi*.log", r"dir C:\Windows\Logs\DISM"]);
}

#[test]
fn environment_and_tool_files() {
    let e = disk_clear_tool::paths::path_env(Some("T".to_string()), None, Some(r"D:\W".to_string()), None);
    assert_eq!(e.temp, Some("T".to_string()));
    assert_eq!(e.tmp, None);
    assert_eq!(e.system_root, Some(r"D:\W".to_string()));
    assert_eq!(e.program_data, None);
    assert!(disk_clear_tool::stores::config_path().ends_with(r"DiskClearTool\config.json"));
    assert!(disk_clear_tool::stores::history_path().ends_with(r"DiskClearTool\history.json"));
    assert!(disk_clear_tool::stores::AnalyzerConfigStore::default_path().ends_with(r"DiskClearTool\analyzer.json"));
    assert!(disk_clear_tool::snapstore::SnapshotStore::default_root().ends_with(r"DiskClearTool\snapshots"));
}

#[test]
fn tool_files_sit_under_the_configuration_directory() {
    assert_eq!(
        disk_clear_tool::stores::tool_path_in(Some(r"C:\Users\a\AppData\Roaming".to_string()), "config.json"),
        r"C:\Users\a\AppData\Roaming\DiskClearTool\config.json"
    );
    assert_eq!(disk_clear_tool::stores::tool_path_in(Some(r"D:\cfg\".to_string()), "history.json"), r"D:\cfg\DiskClearTool\history.json");
    assert_eq!(disk_clear_tool::stores::tool_path_in(None, "snapshots"), r".\DiskClearTool\snapshots");
}

#[test]
fn tmp_with_trailing_separator_is_the_same_dir() {
    let mut e = env();
    e.temp = Some(r"C:\T".to_string());
    e.tmp = Some(r"C:\T\".to_string());
    let existing = vec![r"C:\T".to_string(), r"C:\T\".to_string()];
    let got = paths_for(CleanCategory::WindowsTemp, &e, &vec![], &existing);
    assert_eq!(dirs_of(&got), vec![r"dir C:\T"]);
    e.tmp = Some(r"C:/T/./".to_string());
    let got = paths_for(CleanCategory::WindowsTemp, &e, &vec![], &vec![r"C:\T".to_string(), "C:/T/./".to_string()]);
    assert_eq!(dirs_of(&got), vec![r"dir C:\T"]);
    e.tmp = Some(r"C:\U".to_string());
    let got = paths_for(CleanCategory::WindowsTemp, &e, &vec![], &vec![r"C:\T".to_string(), r"C:\U".to_string()]);
    assert_eq!(dirs_of(&got), vec![r"dir C:\T", r"dir C:\U"]);
}

#[test]
fn tally_records_events_as_they_come() {
    let mut t = disk_clear_tool::cleaner::CleanTally::new();
    assert_eq!(t.record(CleanEvent::Removed(10)), Some((10, 1)));
    assert_eq!(t.record(CleanEvent::Failed("x".to_string())), None);
    assert_eq!(t.record(CleanEvent::RecycleBin(Ok(false), 5)), None);
    assert_eq!(t.record(CleanEvent::RecycleBin(Ok(true), 5)), Some((15, 2)));
    let r = t.finish(CleanCategory::RecycleBin);
    assert_eq!((r.freed_bytes, r.removed_count), (15, 2));
    assert_eq!(r.errors, vec!["x".to_string()]);
}
