//! Plain data types shared by the cleaner, the analyzer and the stores.
use vstd::prelude::*;

verus! {

/// Cleanability classification for analyzer results.
#[derive(Debug, Clone, Copy, PartialEq, Eq, Structural, Hash)]
pub enum CleanAdvice {
    /// Safe to delete - cache, temp, logs, dumps, etc.
    Safe,
    /// Proceed with caution - may be needed, user should verify.
    Caution,
    /// Keep - system files, program files, user data.
    Keep,
    /// Could not classify, user must judge.
    Unknown,
}

impl Default for CleanAdvice {
    fn default() -> (r: Self)
        ensures
            r == CleanAdvice::Unknown,
    {
        CleanAdvice::Unknown
    }
}

/// The cleanable categories, in the order the tool lists them.
#[derive(Debug, Clone, Copy, PartialEq, Eq, Structural, Hash)]
pub enum CleanCategory {
    WindowsTemp,
    BrowserCache,
    WindowsUpdate,
    RecycleBin,
    Thumbnails,
    ErrorReports,
    MemoryDumps,
    WindowsLogs,
    DeliveryOptimization,
    Prefetch,
    DevCaches,
}

/// Estimated reclaimable space of one category.
#[derive(Debug, Clone)]
pub struct ScanResult {
    pub category: CleanCategory,
    pub size_bytes: u64,
    pub file_count: u64,
}

/// Outcome of cleaning one category.
#[derive(Debug, Clone)]
pub struct CleanResult {
    pub category: CleanCategory,
    pub freed_bytes: u64,
    pub removed_count: u64,
    pub errors: Vec<String>,
}

/// Progress report emitted while a category is cleaned.
#[derive(Debug, Clone)]
pub struct CleanProgress {
    pub category: CleanCategory,
    pub category_freed_bytes: u64,
    pub total_freed_bytes: u64,
    pub total_removed_count: u64,
}

/// Capacity figures of one drive.
#[derive(Debug, Clone)]
pub struct DiskInfo {
    pub total_bytes: u64,
    pub free_bytes: u64,
    pub used_bytes: u64,
}

/// How often the scheduled cleanup runs.
#[derive(Debug, Clone, Copy, PartialEq, Eq, Structural)]
pub enum ScheduleFrequency {
    Daily,
    Weekly,
}

/// The scheduled-cleanup settings.
#[derive(Debug)]
pub struct ScheduleConfig {
    pub enabled: bool,
    pub frequency: ScheduleFrequency,
    pub hour: u32,
    pub minute: u32,
    pub categories: Vec<CleanCategory>,
}

/// `a` and `b` hold the same settings.
pub open spec fn same_schedule(a: ScheduleConfig, b: ScheduleConfig) -> bool {
    &&& a.enabled == b.enabled
    &&& a.frequency == b.frequency
    &&& a.hour == b.hour
    &&& a.minute == b.minute
    &&& a.categories@ == b.categories@
}

impl Clone for ScheduleConfig {
    fn clone(&self) -> (r: Self)
        ensures
            same_schedule(r, *self),
    {
        let categories = self.categories.clone();
        assert(categories@ =~= self.categories@);
        ScheduleConfig {
            enabled: self.enabled,
            frequency: self.frequency,
            hour: self.hour,
            minute: self.minute,
            categories,
        }
    }
}

impl Default for ScheduleConfig {
    fn default() -> (r: Self)
        ensures
            r.enabled == false,
            r.frequency == ScheduleFrequency::Daily,
            r.hour == 3,
            r.minute == 0,
            r.categories@ == seq![
                CleanCategory::WindowsTemp,
                CleanCategory::BrowserCache,
                CleanCategory::WindowsUpdate,
            ],
    {
        let mut categories: Vec<CleanCategory> = Vec::new();
        categories.push(CleanCategory::WindowsTemp);
        categories.push(CleanCategory::BrowserCache);
        categories.push(CleanCategory::WindowsUpdate);
        ScheduleConfig {
            enabled: false,
            frequency: ScheduleFrequency::Daily,
            hour: 3,
            minute: 0,
            categories,
        }
    }
}

/// Per-category line of a history record.
#[derive(Debug, Clone, Copy)]
pub struct HistoryEntry {
    pub category: CleanCategory,
    pub freed_bytes: u64,
    pub removed_count: u64,
    pub error_count: u64,
}

/// One cleanup run as kept in the history.
#[derive(Debug)]
pub struct HistoryRecord {
    pub timestamp: String,
    pub source: String,
    pub total_freed_bytes: u64,
    pub total_removed: u64,
    pub entries: Vec<HistoryEntry>,
}

/// `a` and `b` hold the same record.
pub open spec fn same_record(a: HistoryRecord, b: HistoryRecord) -> bool {
    &&& a.timestamp@ == b.timestamp@
    &&& a.source@ == b.source@
    &&& a.total_freed_bytes == b.total_freed_bytes
    &&& a.total_removed == b.total_removed
    &&& a.entries@ == b.entries@
}

impl Clone for HistoryRecord {
    fn clone(&self) -> (r: Self)
        ensures
            same_record(r, *self),
    {
        let entries = self.entries.clone();
        assert(entries@ =~= self.entries@);
        HistoryRecord {
            timestamp: self.timestamp.clone(),
            source: self.source.clone(),
            total_freed_bytes: self.total_freed_bytes,
            total_removed: self.total_removed,
            entries,
        }
    }
}

/// Size of one monitored directory (or one child entry when drilling down).
#[derive(Debug, Clone)]
pub struct MonitorEntry {
    pub path: String,
    pub size_bytes: u64,
    pub file_count: u64,
    pub exists: bool,
    pub advice: CleanAdvice,
    pub advice_reason: String,
}

/// One of the largest files found by a scan.
#[derive(Debug, Clone)]
pub struct LargeFileEntry {
    pub path: String,
    pub size_bytes: u64,
    pub advice: CleanAdvice,
    pub advice_reason: String,
}

/// The result of one analyzer scan.
#[derive(Debug, Clone)]
pub struct MonitorSnapshot {
    pub timestamp: String,
    pub scan_type: String,
    pub drive_total: u64,
    pub drive_used: u64,
    pub monitor_dirs: Vec<MonitorEntry>,
    pub large_files: Vec<LargeFileEntry>,
}

/// Outcome of deleting files picked in the analyzer.
#[derive(Debug, Clone)]
pub struct DeleteResult {
    pub deleted_count: u64,
    pub freed_bytes: u64,
    pub errors: Vec<String>,
}

/// Index line describing one stored snapshot.
#[derive(Debug, Clone, PartialEq, Eq)]
pub struct SnapshotSummary {
    pub timestamp: String,
    pub scan_type: String,
    pub drive_used: u64,
}

/// Analyzer settings.
#[derive(Debug)]
pub struct AnalyzerConfig {
    pub monitor_dirs: Vec<String>,
    pub large_file_min_bytes: u64,
    pub large_file_top_n: u32,
    pub snapshot_keep_days: u32,
}

/// The monitored directories of a configuration, as character sequences.
pub open spec fn dir_views(v: Seq<String>) -> Seq<Seq<char>> {
    v.map_values(|s: String| s@)
}

/// `a` and `b` hold the same settings.
pub open spec fn same_analyzer_config(a: AnalyzerConfig, b: AnalyzerConfig) -> bool {
    &&& dir_views(a.monitor_dirs@) == dir_views(b.monitor_dirs@)
    &&& a.large_file_min_bytes == b.large_file_min_bytes
    &&& a.large_file_top_n == b.large_file_top_n
    &&& a.snapshot_keep_days == b.snapshot_keep_days
}

impl Clone for AnalyzerConfig {
    fn clone(&self) -> (r: Self)
        ensures
            same_analyzer_config(r, *self),
    {
        let mut dirs: Vec<String> = Vec::new();
        let mut i: usize = 0;
        while i < self.monitor_dirs.len()
            invariant
                i <= self.monitor_dirs.len(),
                dir_views(dirs@) == dir_views(self.monitor_dirs@.subrange(0, i as int)),
            decreases self.monitor_dirs.len() - i,
        {
            let ghost before = dirs@;
            let d = self.monitor_dirs[i].clone();
            dirs.push(d);
            assert(dir_views(dirs@) =~= dir_views(before).push(d@));
            i = i + 1;
            assert(dir_views(self.monitor_dirs@.subrange(0, i as int)) =~= dir_views(
                self.monitor_dirs@.subrange(0, i - 1),
            ).push(self.monitor_dirs@[i - 1]@));
        }
        assert(self.monitor_dirs@.subrange(0, i as int) =~= self.monitor_dirs@);
        AnalyzerConfig {
            monitor_dirs: dirs,
            large_file_min_bytes: self.large_file_min_bytes,
            large_file_top_n: self.large_file_top_n,
            snapshot_keep_days: self.snapshot_keep_days,
        }
    }
}

} // verus!
