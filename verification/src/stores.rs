//! In-memory state of the history, the schedule settings and the analyzer
//! settings. Reading and writing their files is the caller's: a store is
//! built from what was read, and a new value is taken once it was written.
use vstd::prelude::*;
use crate::paths::{ov, path_join, spec_path_join};
use crate::models::{
    same_analyzer_config, same_record, same_schedule, dir_views, AnalyzerConfig, CleanCategory,
    CleanResult, HistoryEntry, HistoryRecord, ScheduleConfig, ScheduleFrequency,
};

verus! {

/// At most this many cleanup runs are kept in the history.
pub const MAX_HISTORY: usize = 500;

/// The content of a history record.
pub struct RecordView {
    pub timestamp: Seq<char>,
    pub source: Seq<char>,
    pub total_freed_bytes: u64,
    pub total_removed: u64,
    pub entries: Seq<HistoryEntry>,
}

/// The content of a history record.
pub open spec fn record_view(r: HistoryRecord) -> RecordView {
    RecordView {
        timestamp: r.timestamp@,
        source: r.source@,
        total_freed_bytes: r.total_freed_bytes,
        total_removed: r.total_removed,
        entries: r.entries@,
    }
}

/// The contents of a list of records.
pub open spec fn record_views(v: Seq<HistoryRecord>) -> Seq<RecordView> {
    v.map_values(|r: HistoryRecord| record_view(r))
}

/// Bytes freed over `entries`.
pub open spec fn sum_freed(entries: Seq<HistoryEntry>) -> int
    decreases entries.len(),
{
    if entries.len() == 0 {
        0
    } else {
        sum_freed(entries.drop_last()) + entries.last().freed_bytes
    }
}

/// Items removed over `entries`.
pub open spec fn sum_removed(entries: Seq<HistoryEntry>) -> int
    decreases entries.len(),
{
    if entries.len() == 0 {
        0
    } else {
        sum_removed(entries.drop_last()) + entries.last().removed_count
    }
}

/// The record of a run at `timestamp` from `source` with `entries`.
pub open spec fn new_record(timestamp: Seq<char>, source: Seq<char>, entries: Seq<HistoryEntry>) -> RecordView {
    RecordView {
        timestamp,
        source,
        total_freed_bytes: sum_freed(entries) as u64,
        total_removed: sum_removed(entries) as u64,
        entries,
    }
}

/// The last `MAX_HISTORY` records of `s`.
pub open spec fn keep_newest(s: Seq<RecordView>) -> Seq<RecordView> {
    if s.len() > MAX_HISTORY {
        s.subrange(s.len() - MAX_HISTORY, s.len() as int)
    } else {
        s
    }
}

/// The cleanup history, oldest first.
pub struct HistoryStore {
    records: Vec<HistoryRecord>,
}

impl HistoryStore {
    pub closed spec fn view(&self) -> Seq<RecordView> {
        record_views(self.records@)
    }

    /// The history read from its file, or an empty one.
    pub fn new(loaded: Option<Vec<HistoryRecord>>) -> (r: Self)
        ensures
            r.view() == match loaded {
                Some(v) => record_views(v@),
                None => Seq::<RecordView>::empty(),
            },
    {
        match loaded {
            Some(v) => HistoryStore { records: v },
            None => {
                let r = HistoryStore { records: Vec::new() };
                assert(r.view() =~= Seq::<RecordView>::empty());
                r
            },
        }
    }

    /// The records, oldest first.
    pub fn list(&self) -> (r: Vec<HistoryRecord>)
        ensures
            record_views(r@) == self.view(),
    {
        let mut r: Vec<HistoryRecord> = Vec::new();
        let mut i: usize = 0;
        while i < self.records.len()
            invariant
                i <= self.records.len(),
                record_views(r@) == record_views(self.records@.subrange(0, i as int)),
            decreases self.records.len() - i,
        {
            let ghost before = r@;
            let c = self.records[i].clone();
            r.push(c);
            assert(record_views(r@) =~= record_views(before).push(record_view(c)));
            i = i + 1;
            assert(record_views(self.records@.subrange(0, i as int)) =~= record_views(
                self.records@.subrange(0, i - 1),
            ).push(record_view(self.records@[i - 1])));
        }
        assert(self.records@.subrange(0, i as int) =~= self.records@);
        r
    }

    /// The stored records, for writing them out.
    pub fn records(&self) -> (r: &Vec<HistoryRecord>)
        ensures
            record_views(r@) == self.view(),
    {
        &self.records
    }

    /// Append the record of a run at `timestamp`; only the newest
    /// `MAX_HISTORY` records are kept.
    pub fn append(&mut self, timestamp: String, entries: Vec<HistoryEntry>, source: &str)
        requires
            sum_freed(entries@) <= u64::MAX,
            sum_removed(entries@) <= u64::MAX,
        ensures
            final(self).view() == keep_newest(
                old(self).view().push(new_record(timestamp@, source@, entries@)),
            ),
    {
        let mut freed: u64 = 0;
        let mut removed: u64 = 0;
        let mut i: usize = 0;
        proof {
            lemma_sums_monotone(entries@);
        }
        while i < entries.len()
            invariant
                i <= entries.len(),
                sum_freed(entries@) <= u64::MAX,
                sum_removed(entries@) <= u64::MAX,
                forall|k: int| 0 <= k <= entries.len() ==> sum_freed(#[trigger] entries@.subrange(0, k)) <= sum_freed(entries@),
                forall|k: int| 0 <= k <= entries.len() ==> sum_removed(#[trigger] entries@.subrange(0, k)) <= sum_removed(entries@),
                freed == sum_freed(entries@.subrange(0, i as int)),
                removed == sum_removed(entries@.subrange(0, i as int)),
            decreases entries.len() - i,
        {
            proof {
                assert(entries@.subrange(0, i + 1).drop_last() =~= entries@.subrange(0, i as int));
                assert(sum_freed(entries@.subrange(0, i + 1)) <= sum_freed(entries@));
                assert(sum_removed(entries@.subrange(0, i + 1)) <= sum_removed(entries@));
            }
            freed = freed + entries[i].freed_bytes;
            removed = removed + entries[i].removed_count;
            i = i + 1;
        }
        assert(entries@.subrange(0, i as int) =~= entries@);
        let record = HistoryRecord {
            timestamp,
            source: source.to_owned(),
            total_freed_bytes: freed,
            total_removed: removed,
            entries,
        };
        let ghost before = self.records@;
        self.records.push(record);
        assert(record_views(self.records@) =~= record_views(before).push(record_view(record)));
        if self.records.len() > MAX_HISTORY {
            let overflow = self.records.len() - MAX_HISTORY;
            let ghost full = self.records@;
            let kept = self.records.split_off(overflow);
            self.records = kept;
            assert(record_views(self.records@) =~= record_views(full).subrange(
                record_views(full).len() - MAX_HISTORY,
                record_views(full).len() as int,
            ));
        }
    }

    /// Forget every record.
    pub fn clear(&mut self)
        ensures
            final(self).view() == Seq::<RecordView>::empty(),
    {
        self.records.clear();
        assert(self.view() =~= Seq::<RecordView>::empty());
    }
}

/// The history never holds more than `MAX_HISTORY` records; after an
/// append the newest record is the appended one, and the ones kept before
/// it are the newest of the earlier records, in their order.
pub proof fn lemma_append_keeps_newest(s: Seq<RecordView>, r: RecordView)
    ensures
        keep_newest(s.push(r)).len() == if s.len() + 1 > MAX_HISTORY {
            MAX_HISTORY as int
        } else {
            s.len() + 1int
        },
        keep_newest(s.push(r)).last() == r,
        keep_newest(s.push(r)).drop_last() == s.subrange(
            s.len() + 1 - keep_newest(s.push(r)).len(),
            s.len() as int,
        ),
{
    let t = s.push(r);
    let k = keep_newest(t);
    assert(k.drop_last() =~= s.subrange(s.len() + 1 - k.len(), s.len() as int));
}

proof fn lemma_sums_monotone(entries: Seq<HistoryEntry>)
    ensures
        forall|k: int| 0 <= k <= entries.len() ==> sum_freed(#[trigger] entries.subrange(0, k)) <= sum_freed(entries),
        forall|k: int| 0 <= k <= entries.len() ==> sum_removed(#[trigger] entries.subrange(0, k)) <= sum_removed(entries),
    decreases entries.len(),
{
    if entries.len() > 0 {
        let d = entries.drop_last();
        lemma_sums_monotone(d);
        assert forall|k: int| 0 <= k <= entries.len() implies sum_freed(#[trigger] entries.subrange(0, k)) <= sum_freed(entries) && sum_removed(entries.subrange(0, k)) <= sum_removed(entries) by {
            if k == entries.len() {
                assert(entries.subrange(0, k) =~= entries);
            } else {
                assert(entries.subrange(0, k) =~= d.subrange(0, k));
            }
        }
    } else {
        assert forall|k: int| 0 <= k <= entries.len() implies sum_freed(#[trigger] entries.subrange(0, k)) <= sum_freed(entries) && sum_removed(entries.subrange(0, k)) <= sum_removed(entries) by {
            assert(entries.subrange(0, k) =~= entries);
        }
    }
}

/// The history line of a cleanup result.
pub open spec fn entry_of(r: CleanResult) -> HistoryEntry {
    HistoryEntry {
        category: r.category,
        freed_bytes: r.freed_bytes,
        removed_count: r.removed_count,
        error_count: r.errors.len() as u64,
    }
}

/// History lines for cleanup results, one per result, in order.
pub fn build_entries_from_results(results: &Vec<CleanResult>) -> (r: Vec<HistoryEntry>)
    ensures
        r@ == results@.map_values(|x: CleanResult| entry_of(x)),
{
    let mut r: Vec<HistoryEntry> = Vec::new();
    let mut i: usize = 0;
    while i < results.len()
        invariant
            i <= results.len(),
            r@ == results@.subrange(0, i as int).map_values(|x: CleanResult| entry_of(x)),
        decreases results.len() - i,
    {
        let x = &results[i];
        r.push(
            HistoryEntry {
                category: x.category,
                freed_bytes: x.freed_bytes,
                removed_count: x.removed_count,
                error_count: x.errors.len() as u64,
            },
        );
        i = i + 1;
        assert(r@ =~= results@.subrange(0, i as int).map_values(|x: CleanResult| entry_of(x)));
    }
    assert(results@.subrange(0, i as int) =~= results@);
    r
}

/// History lines for the `(category, freed, removed, errors)` tuples of a
/// headless run, one per tuple, in order.
pub fn build_entries_from_cli(results: &Vec<(CleanCategory, u64, u64, u64)>) -> (r: Vec<HistoryEntry>)
    ensures
        r@ == results@.map_values(
            |x: (CleanCategory, u64, u64, u64)|
                HistoryEntry { category: x.0, freed_bytes: x.1, removed_count: x.2, error_count: x.3 },
        ),
{
    let mut r: Vec<HistoryEntry> = Vec::new();
    let mut i: usize = 0;
    while i < results.len()
        invariant
            i <= results.len(),
            r@ == results@.subrange(0, i as int).map_values(
                |x: (CleanCategory, u64, u64, u64)|
                    HistoryEntry { category: x.0, freed_bytes: x.1, removed_count: x.2, error_count: x.3 },
            ),
        decreases results.len() - i,
    {
        let (c, freed, removed, errors) = results[i];
        r.push(HistoryEntry { category: c, freed_bytes: freed, removed_count: removed, error_count: errors });
        i = i + 1;
        assert(r@ =~= results@.subrange(0, i as int).map_values(
            |x: (CleanCategory, u64, u64, u64)|
                HistoryEntry { category: x.0, freed_bytes: x.1, removed_count: x.2, error_count: x.3 },
        ));
    }
    assert(results@.subrange(0, i as int) =~= results@);
    r
}

/// The `(category, freed, removed, errors)` summary of one result that a
/// headless run reports and records.
pub open spec fn spec_cli_summary(r: CleanResult) -> (CleanCategory, u64, u64, u64) {
    (r.category, r.freed_bytes, r.removed_count, r.errors.len() as u64)
}

/// The summary of one result of a headless run.
pub fn cli_summary(r: &CleanResult) -> (s: (CleanCategory, u64, u64, u64))
    ensures
        s == spec_cli_summary(*r),
{
    (r.category, r.freed_bytes, r.removed_count, r.errors.len() as u64)
}

/// A headless run records the same history lines as an interactive one:
/// the lines built from the summaries of results are those built from the
/// results themselves.
pub proof fn lemma_cli_history_matches(results: Seq<CleanResult>)
    ensures
        results.map_values(|x: CleanResult| spec_cli_summary(x)).map_values(
            |x: (CleanCategory, u64, u64, u64)|
                HistoryEntry { category: x.0, freed_bytes: x.1, removed_count: x.2, error_count: x.3 },
        ) == results.map_values(|x: CleanResult| entry_of(x)),
{
    assert(results.map_values(|x: CleanResult| spec_cli_summary(x)).map_values(
        |x: (CleanCategory, u64, u64, u64)|
            HistoryEntry { category: x.0, freed_bytes: x.1, removed_count: x.2, error_count: x.3 },
    ) =~= results.map_values(|x: CleanResult| entry_of(x)));
}

/// The default schedule: off, daily at 03:00, temporary files, browser
/// caches and Windows Update.
pub open spec fn is_default_schedule(c: ScheduleConfig) -> bool {
    &&& c.enabled == false
    &&& c.frequency == ScheduleFrequency::Daily
    &&& c.hour == 3
    &&& c.minute == 0
    &&& c.categories@ == seq![
        CleanCategory::WindowsTemp,
        CleanCategory::BrowserCache,
        CleanCategory::WindowsUpdate,
    ]
}

/// The schedule settings.
pub struct ConfigStore {
    config: ScheduleConfig,
}

impl ConfigStore {
    pub closed spec fn config(&self) -> ScheduleConfig {
        self.config
    }

    /// The settings read from their file, or the defaults.
    pub fn new(loaded: Option<ScheduleConfig>) -> (r: Self)
        ensures
            match loaded {
                Some(c) => r.config() == c,
                None => is_default_schedule(r.config()),
            },
    {
        match loaded {
            Some(c) => ConfigStore { config: c },
            None => ConfigStore { config: ScheduleConfig::default() },
        }
    }

    /// A copy of the settings.
    pub fn get(&self) -> (r: ScheduleConfig)
        ensures
            same_schedule(r, self.config()),
    {
        self.config.clone()
    }

    /// Take `cfg` once writing it out gave `written`: on success the store
    /// holds `cfg`; on failure it is unchanged and the error is returned.
    pub fn set(&mut self, cfg: ScheduleConfig, written: Result<(), String>) -> (r: Result<(), String>)
        ensures
            r == written,
            written is Ok ==> final(self).config() == cfg,
            written is Err ==> final(self).config() == old(self).config(),
    {
        if written.is_ok() {
            self.config = cfg;
        }
        written
    }
}

/// The monitored directories by default: the system-wide ones, then the
/// local app-data directory and its `Docker`, `Packages` and `Programs`,
/// the roaming app-data directory, and the user's `Downloads` and
/// `Documents`, each only when its base is known.
pub open spec fn spec_default_monitor_dirs(
    local: Option<Seq<char>>,
    appdata: Option<Seq<char>>,
    profile: Option<Seq<char>>,
) -> Seq<Seq<char>> {
    let base = seq![
        "C:\\Users"@,
        "C:\\ProgramData"@,
        "C:\\Program Files"@,
        "C:\\Program Files (x86)"@,
        "C:\\Windows"@,
        "C:\\Windows\\Installer"@,
        "C:\\Windows\\SoftwareDistribution"@,
        "C:\\Windows\\Temp"@,
    ];
    let with_local = match local {
        Some(l) => base + seq![l, l + "\\Docker"@, l + "\\Packages"@, l + "\\Programs"@],
        None => base,
    };
    let with_appdata = match appdata {
        Some(a) => with_local.push(a),
        None => with_local,
    };
    match profile {
        Some(p) => with_appdata + seq![p + "\\Downloads"@, p + "\\Documents"@],
        None => with_appdata,
    }
}

fn push_lit(v: &mut Vec<String>, s: &str)
    ensures
        dir_views(final(v)@) == dir_views(old(v)@).push(s@),
{
    let ghost before = v@;
    let t = s.to_owned();
    v.push(t);
    assert(dir_views(v@) =~= dir_views(before).push(s@));
}

fn push_joined(v: &mut Vec<String>, a: &str, b: &str)
    ensures
        dir_views(final(v)@) == dir_views(old(v)@).push(a@ + b@),
{
    let ghost before = v@;
    let mut t = a.to_owned();
    t.append(b);
    v.push(t);
    assert(dir_views(v@) =~= dir_views(before).push(a@ + b@));
}

/// The analyzer settings by default, given the local app-data, roaming
/// app-data and user profile directories when known: the default monitored
/// directories, files from 500 MiB, the 50 largest, snapshots kept 14 days.
pub fn default_analyzer_config(local: Option<String>, appdata: Option<String>, profile: Option<String>) -> (r: AnalyzerConfig)
    ensures
        dir_views(r.monitor_dirs@) == spec_default_monitor_dirs(
            match local {
                Some(s) => Some(s@),
                None => None,
            },
            match appdata {
                Some(s) => Some(s@),
                None => None,
            },
            match profile {
                Some(s) => Some(s@),
                None => None,
            },
        ),
        r.large_file_min_bytes == 500 * 1024 * 1024,
        r.large_file_top_n == 50,
        r.snapshot_keep_days == 14,
{
    let mut out: Vec<String> = Vec::new();
    push_lit(&mut out, "C:\\Users");
    push_lit(&mut out, "C:\\ProgramData");
    push_lit(&mut out, "C:\\Program Files");
    push_lit(&mut out, "C:\\Program Files (x86)");
    push_lit(&mut out, "C:\\Windows");
    push_lit(&mut out, "C:\\Windows\\Installer");
    push_lit(&mut out, "C:\\Windows\\SoftwareDistribution");
    push_lit(&mut out, "C:\\Windows\\Temp");
    if let Some(l) = &local {
        push_lit(&mut out, l.as_str());
        push_joined(&mut out, l.as_str(), "\\Docker");
        push_joined(&mut out, l.as_str(), "\\Packages");
        push_joined(&mut out, l.as_str(), "\\Programs");
    }
    if let Some(a) = &appdata {
        push_lit(&mut out, a.as_str());
    }
    if let Some(p) = &profile {
        push_joined(&mut out, p.as_str(), "\\Downloads");
        push_joined(&mut out, p.as_str(), "\\Documents");
    }
    let ghost lv = match local {
        Some(s) => Some(s@),
        None => None::<Seq<char>>,
    };
    let ghost av = match appdata {
        Some(s) => Some(s@),
        None => None::<Seq<char>>,
    };
    let ghost pv = match profile {
        Some(s) => Some(s@),
        None => None::<Seq<char>>,
    };
    assert(dir_views(out@) =~= spec_default_monitor_dirs(lv, av, pv));
    AnalyzerConfig {
        monitor_dirs: out,
        large_file_min_bytes: 500 * 1024 * 1024,
        large_file_top_n: 50,
        snapshot_keep_days: 14,
    }
}

/// The analyzer settings.
pub struct AnalyzerConfigStore {
    config: AnalyzerConfig,
}

impl AnalyzerConfigStore {
    pub closed spec fn config(&self) -> AnalyzerConfig {
        self.config
    }

    /// The settings read from their file, or `defaults`.
    pub fn new(loaded: Option<AnalyzerConfig>, defaults: AnalyzerConfig) -> (r: Self)
        ensures
            r.config() == match loaded {
                Some(c) => c,
                None => defaults,
            },
    {
        match loaded {
            Some(c) => AnalyzerConfigStore { config: c },
            None => AnalyzerConfigStore { config: defaults },
        }
    }

    /// A copy of the settings.
    pub fn get(&self) -> (r: AnalyzerConfig)
        ensures
            same_analyzer_config(r, self.config()),
    {
        self.config.clone()
    }

    /// Take `cfg` once writing it out gave `written`: on success the store
    /// holds `cfg`; on failure it is unchanged and the error is returned.
    pub fn set(&mut self, cfg: AnalyzerConfig, written: Result<(), String>) -> (r: Result<(), String>)
        ensures
            r == written,
            written is Ok ==> final(self).config() == cfg,
            written is Err ==> final(self).config() == old(self).config(),
    {
        if written.is_ok() {
            self.config = cfg;
        }
        written
    }
}


/// Calls `dirs::config_dir()` and gives the directory as text. Nothing is
/// claimed of it: it is what the system reports for the current user.
#[verifier::external_body]
fn config_dir() -> (r: Option<String>) {
    dirs::config_dir().map(|p| p.to_string_lossy().into_owned())
}

/// The directory the tool keeps its files in, under the configuration
/// directory `config` (the current directory when there is none).
pub open spec fn spec_tool_dir(config: Option<Seq<char>>) -> Seq<char> {
    spec_path_join(
        match config {
            Some(c) => c,
            None => "."@,
        },
        "DiskClearTool"@,
    )
}

/// `name` in the tool's directory under the configuration directory
/// `config` (the current directory when there is none).
pub fn tool_path_in(config: Option<String>, name: &str) -> (r: String)
    ensures
        r@ == spec_path_join(spec_tool_dir(ov(config)), name@),
{
    let base = match config {
        Some(s) => s,
        None => ".".to_owned(),
    };
    let d = path_join(base.as_str(), "DiskClearTool");
    path_join(d.as_str(), name)
}

/// `name` in the tool's directory under the configuration directory the
/// system reports for the current user.
pub fn tool_path(name: &str) -> (r: String)
    ensures
        exists|c: Option<Seq<char>>| r@ == spec_path_join(#[trigger] spec_tool_dir(c), name@),
{
    let c = config_dir();
    let ghost cv = ov(c);
    let r = tool_path_in(c, name);
    assert(r@ == spec_path_join(spec_tool_dir(cv), name@));
    r
}

/// The file holding the schedule.
pub fn config_path() -> (r: String)
    ensures
        exists|c: Option<Seq<char>>| r@ == spec_path_join(#[trigger] spec_tool_dir(c), "config.json"@),
{
    tool_path("config.json")
}

/// The file holding the cleanup history.
pub fn history_path() -> (r: String)
    ensures
        exists|c: Option<Seq<char>>| r@ == spec_path_join(#[trigger] spec_tool_dir(c), "history.json"@),
{
    tool_path("history.json")
}

impl AnalyzerConfigStore {
    /// The file holding the analyzer settings.
    pub fn default_path() -> (r: String)
        ensures
            exists|c: Option<Seq<char>>| r@ == spec_path_join(#[trigger] spec_tool_dir(c), "analyzer.json"@),
    {
        tool_path("analyzer.json")
    }
}

} // verus!
