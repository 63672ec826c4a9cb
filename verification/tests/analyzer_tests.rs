use disk_clear_tool::classify::classify;
use disk_clear_tool::diff::{diff_snapshots, DirDelta};
use disk_clear_tool::drive::{list_children, merge_monitor_dirs, monitor_activity, scan_monitor_dirs, DriveScan, Unreached};
use disk_clear_tool::models::{LargeFileEntry, MonitorEntry, MonitorSnapshot};
use disk_clear_tool::topn::{top_n_files, TopNCollector};
use disk_clear_tool::walk::{entry_kind, file_size_u64, from_wide, is_dots, to_wide_pattern, DirSummary, EntryKind};

fn pct(d: &DirDelta) -> f64 {
    d.pct_num as f64 / d.pct_den as f64 * 100.0
}

fn snap(ts: &str, dirs: Vec<(&str, u64)>, files: Vec<(&str, u64)>) -> MonitorSnapshot {
    MonitorSnapshot {
        timestamp: ts.into(),
        scan_type: "full".into(),
        drive_total: 100,
        drive_used: 50,
        monitor_dirs: dirs
            .into_iter()
            .map(|(p, s)| {
                let (ad, ar) = classify(p);
                MonitorEntry { path: p.into(), size_bytes: s, file_count: 0, exists: true, advice: ad, advice_reason: ar }
            })
            .collect(),
        large_files: files
            .into_iter()
            .map(|(p, s)| {
                let (ad, ar) = classify(p);
                LargeFileEntry { path: p.into(), size_bytes: s, advice: ad, advice_reason: ar }
            })
            .collect(),
    }
}

#[test]
fn top_n_files_keeps_largest_descending() {
    // Sizes 1..5 MB, ask for top 3 -> expect [5,4,3].
    let cands: Vec<(String, u64)> = (1..=5u64).map(|i| (format!("/f{}.bin", i), i * 1024 * 1024)).collect();
    let got = top_n_files(cands, 0, 3);
    assert_eq!(got.len(), 3);
    assert_eq!(got[0].size_bytes, 5 * 1024 * 1024);
    assert_eq!(got[1].size_bytes, 4 * 1024 * 1024);
    assert_eq!(got[2].size_bytes, 3 * 1024 * 1024);
}

#[test]
fn top_n_files_respects_min_bytes_filter() {
    let cands = vec![("/a".to_string(), 100), ("/b".to_string(), 500), ("/c".to_string(), 900)];
    // min_bytes=400 -> only b and c qualify.
    let got = top_n_files(cands, 400, 10);
    assert_eq!(got.len(), 2);
    assert_eq!(got[0].size_bytes, 900);
    assert_eq!(got[1].size_bytes, 500);
}

#[test]
fn top_n_files_zero_n_returns_empty() {
    let cands = vec![("/a".to_string(), 1000)];
    assert!(top_n_files(cands, 0, 0).is_empty());
}

#[test]
fn top_n_ties_keep_the_first_seen() {
    let mut c = TopNCollector::new(0, 1);
    c.consider("first".to_string(), 100);
    c.consider("second".to_string(), 100);
    let got = c.finish();
    assert_eq!(got.len(), 1);
    assert_eq!(got[0].path, "first");
    // A strictly larger file evicts the smallest kept one.
    let mut c = TopNCollector::new(0, 2);
    c.consider("a".to_string(), 10);
    c.consider("b".to_string(), 30);
    c.consider("c".to_string(), 20);
    let got = c.finish();
    assert_eq!(got.len(), 2);
    assert_eq!((got[0].path.as_str(), got[0].size_bytes), ("b", 30));
    assert_eq!((got[1].path.as_str(), got[1].size_bytes), ("c", 20));
}

#[test]
fn top_n_entries_carry_their_advice() {
    let got = top_n_files(vec![(r"C:\Windows\Temp\big.tmp".to_string(), 5000)], 0, 5);
    assert_eq!(got.len(), 1);
    let (a, r) = classify(r"C:\Windows\Temp\big.tmp");
    assert_eq!(got[0].advice, a);
    assert_eq!(got[0].advice_reason, r);
}

#[test]
fn diff_detects_changed_added_removed() {
    let prev = snap("t1", vec![("C:/A", 100), ("C:/B", 50)], vec![("C:/A/f.bin", 1000)]);
    // B grows, C added, A unchanged, file f.bin removed (no move since nothing matches).
    let curr = snap("t2", vec![("C:/A", 100), ("C:/B", 200), ("C:/C", 30)], vec![]);
    let d = diff_snapshots(&prev, &curr);
    let kinds: Vec<(&str, &str)> = d.iter().map(|x| (x.kind.as_str(), x.path.as_str())).collect();
    assert!(kinds.contains(&("changed", "C:/B")));
    assert!(kinds.contains(&("added", "C:/C")));
    assert!(kinds.contains(&("removed", "C:/A/f.bin")));
    // B: 50 -> 200, delta +150, pct +300.
    let b = d.iter().find(|x| x.path == "C:/B").unwrap();
    assert_eq!(b.delta_bytes, 150);
    assert_eq!(pct(b), 300.0);
}

#[test]
fn diff_suppresses_move_same_ext_similar_size() {
    let prev = snap("t1", vec![], vec![("C:/old/f.bin", 1000)]);
    let curr = snap("t2", vec![], vec![("C:/new/g.bin", 1000)]);
    let d = diff_snapshots(&prev, &curr);
    assert_eq!(d.len(), 1);
    assert_eq!(d[0].kind, "moved");
    assert_eq!(d[0].path, "C:/new/g.bin");
}

#[test]
fn diff_does_not_suppress_when_size_differs_beyond_5pct() {
    let prev = snap("t1", vec![], vec![("C:/old/f.bin", 1000)]);
    let curr = snap("t2", vec![], vec![("C:/new/g.bin", 2000)]);
    let d = diff_snapshots(&prev, &curr);
    // 100% size difference -> not a move, emit added + removed.
    assert_eq!(d.len(), 2);
    assert!(d.iter().any(|x| x.kind == "added"));
    assert!(d.iter().any(|x| x.kind == "removed"));
}

#[test]
fn diff_new_file_pct_is_100() {
    let prev = snap("t1", vec![("C:/A", 0)], vec![]);
    let curr = snap("t2", vec![("C:/A", 50)], vec![]);
    let d = diff_snapshots(&prev, &curr);
    let a = d.iter().find(|x| x.path == "C:/A").unwrap();
    assert_eq!(a.kind, "changed");
    assert_eq!(pct(a), 100.0);
}

#[test]
fn diff_orders_moves_last_and_by_size_of_change() {
    let prev = snap("t1", vec![("C:/A", 100), ("C:/B", 100)], vec![("C:/x/a.iso", 1000)]);
    let curr = snap("t2", vec![("C:/A", 110), ("C:/B", 400)], vec![("C:/y/b.iso", 1040)]);
    let d = diff_snapshots(&prev, &curr);
    let got: Vec<(&str, &str, i64)> = d.iter().map(|x| (x.kind.as_str(), x.path.as_str(), x.delta_bytes)).collect();
    assert_eq!(got, vec![("changed", "C:/B", 300), ("changed", "C:/A", 10), ("moved", "C:/y/b.iso", 0)]);
    assert_eq!(d[2].prev_bytes, 1000);
    assert_eq!(d[2].curr_bytes, 1040);
}

#[test]
fn diff_removed_dir_is_minus_100_pct_and_within_5pct_edge() {
    let prev = snap("t1", vec![("C:/Gone", 80)], vec![("C:/p/a.bin", 100)]);
    let curr = snap("t2", vec![], vec![("C:/q/b.bin", 105), ("C:/r/c.txt", 100)]);
    let d = diff_snapshots(&prev, &curr);
    let gone = d.iter().find(|x| x.path == "C:/Gone").unwrap();
    assert_eq!(gone.kind, "removed");
    assert_eq!(gone.delta_bytes, -80);
    assert_eq!(pct(gone), -100.0);
    // 100 -> 105 is exactly 5% (of the larger, 105 -> under 5%): a move.
    let mv = d.iter().find(|x| x.kind == "moved").unwrap();
    assert_eq!(mv.path, "C:/q/b.bin");
    // The .txt file has another extension: added.
    let add = d.iter().find(|x| x.path == "C:/r/c.txt").unwrap();
    assert_eq!(add.kind, "added");
    assert_eq!(pct(add), 100.0);
}

#[test]
fn list_children_single_level_descending() {
    // A directory with big.bin (500), small.bin (10) and sub\ holding 300.
    let kids = list_children(vec![
        (r"C:\children\big.bin".to_string(), DirSummary { size_bytes: 500, file_count: 1 }),
        (r"C:\children\small.bin".to_string(), DirSummary { size_bytes: 10, file_count: 1 }),
        (r"C:\children\sub".to_string(), DirSummary { size_bytes: 300, file_count: 1 }),
    ]);
    assert_eq!(kids.len(), 3);
    assert!(kids[0].size_bytes >= kids[1].size_bytes);
    assert_eq!(kids[0].size_bytes, 500);
    assert_eq!(kids[1].path, r"C:\children\sub");
    assert!(kids.iter().all(|k| k.exists));
}

#[test]
fn scan_monitor_dirs_marks_missing_and_sorts_desc() {
    let dirs = vec![r"C:\smd_b".to_string(), r"C:\smd_a".to_string(), "/no/such/path/here".to_string()];
    let found = vec![
        Some(DirSummary { size_bytes: 500, file_count: 1 }),
        Some(DirSummary { size_bytes: 100, file_count: 1 }),
        None,
    ];
    let got = scan_monitor_dirs(&dirs, &found);
    assert_eq!(got.len(), 3);
    assert!(got[0].size_bytes >= got[1].size_bytes);
    assert!(got[0].exists);
    assert_eq!(got[0].size_bytes, 500);
    assert!(got[2].exists == false);
}

#[test]
fn drive_scan_single_pass_sizes_monitors_and_collects_topn() {
    // Tree under root:
    //   Users\u\docs\big.iso   (1000)  <- under Users monitor
    //   Users\u\Cache\junk.bin (500)   <- under Users monitor
    //   Windows\Temp\t.tmp     (300)   <- under Windows AND Windows\Temp
    //   pagefile.sys           (900)   <- not under any monitor (Top-N only)
    //   Missing\                        <- monitor dir that does not exist
    let root = r"C:\drive";
    let monitors = vec![
        format!(r"{}\Users", root),
        format!(r"{}\Windows", root),
        format!(r"{}\Windows\Temp", root),
        format!(r"{}\Missing", root),
    ];
    let mut scan = DriveScan::new(&monitors, 0, 10);
    let mut active: Vec<usize> = Vec::new();
    let mut last = (0u64, 0u64);
    assert!(!scan.enter(root, &mut active));
    assert!(scan.enter(&format!(r"{}\Users", root), &mut active));
    assert!(!scan.enter(&format!(r"{}\Users\u", root), &mut active));
    assert!(!scan.enter(&format!(r"{}\Users\u\docs", root), &mut active));
    scan.on_file(format!(r"{}\Users\u\docs\big.iso", root), 1000, &active);
    assert!(!scan.enter(&format!(r"{}\Users\u\Cache", root), &mut active));
    scan.on_file(format!(r"{}\Users\u\Cache\junk.bin", root), 500, &active);
    last = scan.leave(&mut active);
    assert!(scan.enter(&format!(r"{}\Windows", root), &mut active));
    assert!(scan.enter(&format!(r"{}\windows\TEMP", root), &mut active));
    scan.on_file(format!(r"{}\Windows\Temp\t.tmp", root), 300, &active);
    last = scan.leave(&mut active);
    last = scan.leave(&mut active);
    scan.on_file(format!(r"{}\pagefile.sys", root), 900, &active);
    assert!(!scan.was_reached(3));
    // Three monitors completed during the walk; Missing was never reached.
    assert_eq!(last, (3, 4));

    assert_eq!(scan.after_walk(0, &monitors[0], true), Unreached::Reached);
    assert_eq!(scan.after_walk(3, &monitors[3], false), Unreached::Missing);
    assert_eq!(scan.after_walk(3, &monitors[3], true), Unreached::OnDrive);
    let found = vec![None, None, None, None];
    let snapshot = scan.finish(&monitors, &found, "2026-07-21T10:00:00+08:00".to_string(), 0, 0);
    assert_eq!(snapshot.timestamp, "2026-07-21T10:00:00+08:00");
    let by_path = |p: String| snapshot.monitor_dirs.iter().find(|e| e.path == p).unwrap().clone();
    let u = by_path(format!(r"{}\Users", root));
    assert_eq!((u.size_bytes, u.file_count), (1500, 2));
    let w = by_path(format!(r"{}\Windows", root));
    assert_eq!((w.size_bytes, w.file_count), (300, 1));
    let t = by_path(format!(r"{}\Windows\Temp", root));
    assert_eq!((t.size_bytes, t.file_count), (300, 1));
    let m = by_path(format!(r"{}\Missing", root));
    assert!(!m.exists);
    assert_eq!(snapshot.monitor_dirs[0].size_bytes, 1500);
    // Top-N collected all 4 files regardless of monitor membership.
    assert_eq!(snapshot.large_files.len(), 4);
    let total: u64 = snapshot.large_files.iter().map(|e| e.size_bytes).sum();
    assert_eq!(total, 2700);
    assert_eq!(snapshot.scan_type, "full");
}

#[test]
fn merged_monitor_dirs_skip_case_variants() {
    let got = merge_monitor_dirs(
        vec![r"C:\Users".to_string(), r"C:\Temp".to_string()],
        vec![r"c:\users".to_string(), r"D:\Data".to_string(), r"d:\DATA".to_string()],
        &vec![],
    );
    assert_eq!(got, vec![r"C:\Users".to_string(), r"C:\Temp".to_string(), r"D:\Data".to_string()]);
}

#[test]
fn merged_monitor_dirs_keep_the_most_active_past_the_limit() {
    let dirs: Vec<String> = (0..205).map(|i| format!("C:\\d{}", i)).collect();
    // Five of them changed a lot at the last diff; the rest not at all.
    let activity: Vec<(String, u64)> = vec![
        ("C:\\d204".to_string(), 900),
        ("C:\\d203".to_string(), 700),
        ("C:\\d202".to_string(), 800),
        ("C:\\d201".to_string(), 10),
        ("C:\\d200".to_string(), 10),
    ];
    let got = merge_monitor_dirs(dirs.clone(), vec![], &activity);
    assert_eq!(got.len(), 200);
    assert_eq!(&got[..5], &["C:\\d204", "C:\\d202", "C:\\d203", "C:\\d200", "C:\\d201"]);
    // Among the unchanged ones the first 195 keep their order; the last
    // five are dropped.
    assert_eq!(got[5], "C:\\d0");
    assert_eq!(got[199], "C:\\d194");
    assert!(!got.contains(&"C:\\d195".to_string()));
    // At the limit nothing is dropped or reordered.
    let got = merge_monitor_dirs(dirs[..200].to_vec(), vec![], &activity);
    assert_eq!(got, dirs[..200].to_vec());
}

#[test]
fn monitor_activity_is_the_size_change_either_way() {
    let prev = snap("t1", vec![("C:/A", 100), ("C:/B", 500)], vec![]);
    let curr = snap("t2", vec![("C:/A", 250), ("C:/B", 200), ("C:/C", 30)], vec![]);
    let got = monitor_activity(&prev, &curr);
    assert_eq!(
        got,
        vec![("C:/A".to_string(), 150), ("C:/B".to_string(), 300), ("C:/C".to_string(), 30)]
    );
}

#[test]
fn wide_names_decode_as_std_does() {
    let cases: Vec<Vec<u16>> = vec![
        vec![0xDC00, 0x41, 0xD800, 0xDC00, 0xDBFF, 0xDFFF, 0xD800],
        vec![0x4E2D, 0x6587, 0xD83D, 0xDE00, 0xDFFF, 0xD83D],
        vec![0xE000, 0xFFFF, 0xD7FF, 0x7F, 0x80],
    ];
    for units in cases {
        let mut buf = units.clone();
        buf.push(0);
        assert_eq!(from_wide(&buf), String::from_utf16_lossy(&units));
    }
}

#[test]
fn wide_names_and_patterns() {
    assert_eq!(from_wide(&[0x41, 0x42, 0, 0x43]), "AB");
    assert_eq!(from_wide(&[0xD83D, 0xDE00]), "\u{1F600}");
    assert_eq!(from_wide(&[0xD800, 0x41]), "\u{FFFD}A");
    let pat = to_wide_pattern(r"C:\dir");
    assert_eq!(String::from_utf16_lossy(&pat), "C:\\dir\\*\u{0}");
    let pat = to_wide_pattern("C:\\");
    assert_eq!(String::from_utf16_lossy(&pat), "C:\\*\u{0}");
    assert!(is_dots(&[0x2e, 0]));
    assert!(is_dots(&[0x2e, 0x2e, 0, 0x2e]));
    assert!(!is_dots(&[0x2e, 0x2e, 0x2e, 0]));
    assert_eq!(entry_kind(&[0x61, 0], 0x10), EntryKind::Dir);
    assert_eq!(entry_kind(&[0x61, 0], 0x410), EntryKind::Skip);
    assert_eq!(entry_kind(&[0x61, 0], 0x20), EntryKind::File);
    assert_eq!(file_size_u64(1, 2), 0x1_0000_0002);
}

#[test]
fn walk_dir_fast_sums_nested_sizes_and_counts() {
    // a.txt (10) at the root, sub\b.txt (20), sub\deeper\c.txt (5).
    let mut deeper = DirSummary::default();
    deeper.add_file(5);
    let mut sub = DirSummary::default();
    sub.add_file(20);
    sub.add_dir(deeper);
    let mut s = DirSummary::default();
    s.add_file(10);
    s.add_dir(sub);
    assert_eq!(s.size_bytes, 35);
    assert_eq!(s.file_count, 3);
}

#[test]
fn walk_dir_fast_empty_dir() {
    let s = DirSummary::default();
    assert_eq!(s, DirSummary { size_bytes: 0, file_count: 0 });
}

#[test]
fn collect_top_n_streams_all_files_into_heap() {
    // a.bin (100) and d\b.bin (200); min_bytes=0, n large enough to keep everything.
    let mut c = TopNCollector::new(0, 10);
    c.consider(r"C:\collect\a.bin".to_string(), 100);
    c.consider(r"C:\collect\d\b.bin".to_string(), 200);
    let got = c.finish();
    assert_eq!(got.len(), 2);
    let total: u64 = got.iter().map(|e| e.size_bytes).sum();
    assert_eq!(total, 300);
}

#[test]
fn collect_top_n_evicts_smaller_files() {
    // Five files of decreasing size; keep only the top 2.
    let mut c = TopNCollector::new(0, 2);
    for (i, size) in [50u64, 40, 30, 20, 10].iter().enumerate() {
        c.consider(format!(r"C:\evict\f{}.bin", i + 1), *size);
    }
    let got = c.finish();
    assert_eq!(got.len(), 2);
    assert_eq!(got[0].size_bytes, 50);
    assert_eq!(got[1].size_bytes, 40);
}

#[test]
fn dir_summary_saturates() {
    let mut s = DirSummary { size_bytes: u64::MAX - 1, file_count: u64::MAX };
    s.add_file(5);
    assert_eq!((s.size_bytes, s.file_count), (u64::MAX, u64::MAX));
}
