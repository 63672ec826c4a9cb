//! Naming, indexing and pruning of stored snapshots. Each snapshot lives in
//! a file named after its timestamp; an index lists their summaries, oldest
//! first. Reading and writing the files is the caller's.
use vstd::prelude::*;
use crate::clock::{parse_rfc3339, rfc3339_instant, Instant};
use crate::lexsort::{
    lemma_lex_sort_map, lemma_lex_sort_props, lex_sorted, sort_by_lex_key, sort_lex, LexKeyed,
    LexSortKey,
};
use crate::models::{MonitorSnapshot, SnapshotSummary};
use crate::paths::spec_path_join;
use crate::stores::{spec_tool_dir, tool_path};
use crate::order::lex_lt;
use crate::text::{after_last, chars_of, eq_lit, split_after_last, string_of};

verus! {

/// Earliest instant `chrono` can represent (January 1, 262144 BCE), in
/// seconds since the Unix epoch.
pub const MIN_TIMESTAMP: i64 = -8334601315200;

/// Seconds in a day.
pub const SECS_PER_DAY: i64 = 86400;

/// A character not allowed in a file name stem.
pub open spec fn unsafe_in_name(c: char) -> bool {
    c == ':' || c == '.' || c == '+' || c == '/' || c == '\\' || c == '<' || c == '>' || c == '|'
        || c == '?' || c == '*'
}

/// A timestamp made safe as a file name stem: every such character becomes
/// `_`.
pub open spec fn spec_sanitize_ts(ts: Seq<char>) -> Seq<char> {
    ts.map_values(|c: char| if unsafe_in_name(c) { '_' } else { c })
}

/// Turn an RFC 3339 timestamp into a file-system-safe file name stem.
pub fn sanitize_ts(ts: &str) -> (r: String)
    ensures
        r@ == spec_sanitize_ts(ts@),
        r@.len() == ts@.len(),
        forall|i: int| 0 <= i < r@.len() ==> !unsafe_in_name(#[trigger] r@[i]),
{
    let cs = chars_of(ts);
    let mut out = String::new();
    let mut i: usize = 0;
    while i < cs.len()
        invariant
            cs@ == ts@,
            i <= cs.len(),
            out@ == spec_sanitize_ts(ts@.subrange(0, i as int)),
        decreases cs.len() - i,
    {
        let c = cs[i];
        let bad = c == ':' || c == '.' || c == '+' || c == '/' || c == '\\' || c == '<' || c == '>'
            || c == '|' || c == '?' || c == '*';
        out.push(if bad { '_' } else { c });
        i = i + 1;
        assert(out@ =~= spec_sanitize_ts(ts@.subrange(0, i as int)));
    }
    assert(ts@.subrange(0, i as int) =~= ts@);
    out
}

/// The file name of the snapshot taken at `ts`.
pub fn snapshot_file_name(ts: &str) -> (r: String)
    ensures
        r@ == spec_sanitize_ts(ts@) + ".json"@,
{
    let mut s = sanitize_ts(ts);
    s.append(".json");
    s
}

/// The extension of a file name as `Path::extension` gives it: the text
/// after the last `.`, unless there is none or the name is `..` or starts
/// with its only `.`.
pub open spec fn spec_extension(name: Seq<char>) -> Option<Seq<char>> {
    if name == ".."@ {
        None
    } else {
        match after_last(name, '.') {
            None => None,
            Some(e) => if e.len() + 1 == name.len() {
                None
            } else {
                Some(e)
            },
        }
    }
}

/// A file of the snapshot directory holding a snapshot: a `.json` file
/// other than the index.
pub open spec fn spec_is_snapshot_file(name: Seq<char>) -> bool {
    spec_extension(name) == Some("json"@) && name != "index.json"@
}

proof fn lemma_after_last_len(s: Seq<char>, c: char)
    ensures
        after_last(s, c) matches Some(e) ==> e.len() < s.len(),
    decreases s.len(),
{
    if s.len() > 0 {
        lemma_after_last_len(s.drop_last(), c);
    }
}

/// Whether the file `name` of the snapshot directory holds a snapshot.
pub fn is_snapshot_file(name: &str) -> (r: bool)
    ensures
        r == spec_is_snapshot_file(name@),
{
    let n = chars_of(name);
    if eq_lit(&n, "..") {
        return false;
    }
    proof {
        lemma_after_last_len(n@, '.');
    }
    match split_after_last(&n, '.') {
        None => false,
        Some(e) => {
            assert(e@.len() < n@.len());
            if e.len() == n.len() - 1 {
                false
            } else {
                eq_lit(&e, "json") && !eq_lit(&n, "index.json")
            }
        },
    }
}

/// The index line of a snapshot.
pub fn summary_of(snap: &MonitorSnapshot) -> (r: SnapshotSummary)
    ensures
        r.timestamp@ == snap.timestamp@,
        r.scan_type@ == snap.scan_type@,
        r.drive_used == snap.drive_used,
{
    SnapshotSummary {
        timestamp: snap.timestamp.clone(),
        scan_type: snap.scan_type.clone(),
        drive_used: snap.drive_used,
    }
}

/// The content of an index line.
pub struct SummaryView {
    pub timestamp: Seq<char>,
    pub scan_type: Seq<char>,
    pub drive_used: u64,
}

/// The content of an index line.
pub open spec fn summary_view(s: SnapshotSummary) -> SummaryView {
    SummaryView { timestamp: s.timestamp@, scan_type: s.scan_type@, drive_used: s.drive_used }
}

/// The contents of index lines.
pub open spec fn summary_views(v: Seq<SnapshotSummary>) -> Seq<SummaryView> {
    v.map_values(|s: SnapshotSummary| summary_view(s))
}

impl LexKeyed for SummaryView {
    open spec fn lex_key(&self) -> Seq<char> {
        self.timestamp
    }
}

impl LexKeyed for SnapshotSummary {
    open spec fn lex_key(&self) -> Seq<char> {
        self.timestamp@
    }
}

impl LexSortKey for SnapshotSummary {
    fn lex_key_chars(&self) -> (k: Vec<char>) {
        chars_of(self.timestamp.as_str())
    }
}

impl LexKeyed for String {
    open spec fn lex_key(&self) -> Seq<char> {
        self@
    }
}

impl LexSortKey for String {
    fn lex_key_chars(&self) -> (k: Vec<char>) {
        chars_of(self.as_str())
    }
}

/// Order index lines by timestamp, oldest first; equal timestamps keep
/// their order.
pub fn sort_index(items: &mut Vec<SnapshotSummary>)
    ensures
        summary_views(final(items)@) == sort_by_lex_key(summary_views(old(items)@)),
{
    let ghost before = items@;
    sort_lex(items);
    proof {
        lemma_lex_sort_map(before, |s: SnapshotSummary| summary_view(s));
    }
}

/// Order snapshot file names as paths of one directory are ordered.
pub fn sort_file_names(names: &mut Vec<String>)
    ensures
        final(names)@.map_values(|s: String| s@) == sort_by_lex_key(old(names)@.map_values(|s: String| s@)),
{
    let ghost before = names@;
    sort_lex(names);
    proof {
        lemma_lex_sort_map(before, |s: String| s@);
    }
}

/// The timestamp of the newest snapshot of an index ordered oldest first.
pub fn latest_timestamp(items: &Vec<SnapshotSummary>) -> (r: Option<String>)
    ensures
        match r {
            Some(t) => items.len() > 0 && t@ == items@[items.len() - 1].timestamp@,
            None => items.len() == 0,
        },
{
    if items.len() == 0 {
        None
    } else {
        Some(items[items.len() - 1].timestamp.clone())
    }
}

/// `a` is strictly before `b`.
pub open spec fn instant_lt(a: Instant, b: Instant) -> bool {
    a.0 < b.0 || (a.0 == b.0 && a.1 < b.1)
}

/// The instant `keep_days` days before `now`.
pub open spec fn cutoff(now: Instant, keep_days: u32) -> Instant {
    ((now.0 - keep_days * SECS_PER_DAY) as i64, now.1)
}

/// A snapshot stamped `ts` is stale: its timestamp parses and lies before
/// the cutoff. A timestamp that does not parse is never stale.
pub open spec fn is_stale(ts: Seq<char>, now: Instant, keep_days: u32) -> bool {
    match rfc3339_instant(ts) {
        Some(t) => instant_lt(t, cutoff(now, keep_days)),
        None => false,
    }
}

/// The positions of the stale snapshots among `items[..len - 1]`: the
/// newest (last) one is never among them.
pub open spec fn stale_positions(items: Seq<Seq<char>>, now: Instant, keep_days: u32, upto: int) -> Seq<usize>
    decreases upto,
{
    if upto <= 0 {
        Seq::<usize>::empty()
    } else {
        let s = stale_positions(items, now, keep_days, upto - 1);
        if is_stale(items[upto - 1], now, keep_days) {
            s.push((upto - 1) as usize)
        } else {
            s
        }
    }
}

/// The snapshots of an index (oldest first) to delete when keeping
/// `keep_days` days at instant `now`: those whose timestamp lies before
/// the cutoff, never the newest one, none when there is at most one.
pub fn prune_candidates(items: &Vec<SnapshotSummary>, now: Instant, keep_days: u32) -> (r: Vec<usize>)
    requires
        now.0 - keep_days * SECS_PER_DAY >= MIN_TIMESTAMP,
    ensures
        r@ == (if items.len() <= 1 {
            Seq::<usize>::empty()
        } else {
            stale_positions(
                items@.map_values(|s: SnapshotSummary| s.timestamp@),
                now,
                keep_days,
                items.len() - 1,
            )
        }),
        forall|k: int| 0 <= k < r.len() ==> r@[k] < items.len() - 1,
{
    let ghost ts = items@.map_values(|s: SnapshotSummary| s.timestamp@);
    let mut r: Vec<usize> = Vec::new();
    if items.len() <= 1 {
        return r;
    }
    let cut_secs: i64 = now.0 - (keep_days as i64) * SECS_PER_DAY;
    let last = items.len() - 1;
    let mut i: usize = 0;
    while i < last
        invariant
            ts == items@.map_values(|s: SnapshotSummary| s.timestamp@),
            last == items.len() - 1,
            cut_secs == now.0 - keep_days * SECS_PER_DAY,
            i <= last,
            r@ == stale_positions(ts, now, keep_days, i as int),
            forall|k: int| 0 <= k < r.len() ==> r@[k] < i,
        decreases last - i,
    {
        let stale = match parse_rfc3339(items[i].timestamp.as_str()) {
            Some(t) => t.0 < cut_secs || (t.0 == cut_secs && t.1 < now.1),
            None => false,
        };
        assert(stale == is_stale(ts[i as int], now, keep_days));
        if stale {
            r.push(i);
        }
        i = i + 1;
    }
    r
}


/// A copy of an index line.
pub fn copy_summary(s: &SnapshotSummary) -> (r: SnapshotSummary)
    ensures
        summary_view(r) == summary_view(*s),
{
    SnapshotSummary {
        timestamp: s.timestamp.clone(),
        scan_type: s.scan_type.clone(),
        drive_used: s.drive_used,
    }
}

/// The index line of a snapshot, as content.
pub open spec fn snapshot_line(s: MonitorSnapshot) -> SummaryView {
    SummaryView { timestamp: s.timestamp@, scan_type: s.scan_type@, drive_used: s.drive_used }
}

/// The timestamps of index lines.
pub open spec fn timestamps(v: Seq<SummaryView>) -> Seq<Seq<char>> {
    v.map_values(|s: SummaryView| s.timestamp)
}

/// The file name of the snapshot taken at `ts`.
pub open spec fn file_name_of(ts: Seq<char>) -> Seq<char> {
    spec_sanitize_ts(ts) + ".json"@
}

/// The positions of the index lines to prune at `now`, keeping `keep_days`
/// days: none when there is at most one line, and never the last one.
pub open spec fn prune_positions(index: Seq<SummaryView>, now: Instant, keep_days: u32) -> Seq<usize> {
    if index.len() <= 1 {
        Seq::empty()
    } else {
        stale_positions(timestamps(index), now, keep_days, index.len() - 1)
    }
}

/// The index of a snapshot directory: one line per stored snapshot.
/// Reading and writing the directory's files is the caller's.
pub struct SnapshotStore {
    index: Vec<SnapshotSummary>,
}

impl SnapshotStore {
    /// The index lines.
    pub closed spec fn index(&self) -> Seq<SummaryView> {
        summary_views(self.index@)
    }

    /// A store whose index file read back as `loaded`; an index that is
    /// missing or does not parse counts as empty.
    pub fn new(loaded: Option<Vec<SnapshotSummary>>) -> (r: Self)
        ensures
            r.index() == match loaded {
                Some(v) => summary_views(v@),
                None => Seq::<SummaryView>::empty(),
            },
    {
        match loaded {
            Some(v) => SnapshotStore { index: v },
            None => {
                let r = SnapshotStore { index: Vec::new() };
                assert(r.index() =~= Seq::<SummaryView>::empty());
                r
            },
        }
    }

    /// The directory the snapshots are kept in.
    pub fn default_root() -> (r: String)
        ensures
            exists|c: Option<Seq<char>>| r@ == spec_path_join(#[trigger] spec_tool_dir(c), "snapshots"@),
    {
        tool_path("snapshots")
    }

    /// The index lines (oldest first once the index has been rebuilt).
    pub fn list(&self) -> (r: Vec<SnapshotSummary>)
        ensures
            summary_views(r@) == self.index(),
    {
        let mut out: Vec<SnapshotSummary> = Vec::new();
        let mut i: usize = 0;
        while i < self.index.len()
            invariant
                i <= self.index.len(),
                summary_views(out@) == summary_views(self.index@.subrange(0, i as int)),
            decreases self.index.len() - i,
        {
            let ghost before = out@;
            let c = copy_summary(&self.index[i]);
            let ghost cv = summary_view(c);
            out.push(c);
            assert(summary_views(out@) =~= summary_views(before).push(cv));
            assert(summary_views(self.index@.subrange(0, i + 1)) =~= summary_views(
                self.index@.subrange(0, i as int),
            ).push(summary_view(self.index@[i as int])));
            i = i + 1;
        }
        assert(self.index@.subrange(0, i as int) =~= self.index@);
        out
    }

    /// The file holding the most recent snapshot: that of the last index
    /// line, if any.
    pub fn latest(&self) -> (r: Option<String>)
        ensures
            match r {
                Some(f) => self.index().len() > 0 && f@ == file_name_of(self.index().last().timestamp),
                None => self.index().len() == 0,
            },
    {
        match latest_timestamp(&self.index) {
            Some(ts) => Some(snapshot_file_name(ts.as_str())),
            None => None,
        }
    }

    /// Rebuild the index from the snapshots read back from the snapshot
    /// files: their lines, ordered by timestamp, oldest first (equal
    /// timestamps keep the order of the files).
    pub fn rebuild_index(&mut self, snaps: &Vec<MonitorSnapshot>)
        ensures
            final(self).index() == sort_by_lex_key(snaps@.map_values(|s: MonitorSnapshot| snapshot_line(s))),
            lex_sorted(final(self).index()),
            final(self).index().to_multiset() == snaps@.map_values(
                |s: MonitorSnapshot| snapshot_line(s),
            ).to_multiset(),
    {
        let mut lines: Vec<SnapshotSummary> = Vec::new();
        let mut i: usize = 0;
        while i < snaps.len()
            invariant
                i <= snaps.len(),
                summary_views(lines@) == snaps@.subrange(0, i as int).map_values(
                    |s: MonitorSnapshot| snapshot_line(s),
                ),
            decreases snaps.len() - i,
        {
            let ghost before = lines@;
            let l = summary_of(&snaps[i]);
            let ghost lv = summary_view(l);
            lines.push(l);
            assert(summary_views(lines@) =~= summary_views(before).push(lv));
            assert(snaps@.subrange(0, i + 1).map_values(|s: MonitorSnapshot| snapshot_line(s))
                =~= snaps@.subrange(0, i as int).map_values(|s: MonitorSnapshot| snapshot_line(s)).push(
                snapshot_line(snaps@[i as int]),
            ));
            assert(summary_views(lines@) =~= snaps@.subrange(0, i + 1).map_values(
                |s: MonitorSnapshot| snapshot_line(s),
            ));
            i = i + 1;
        }
        assert(snaps@.subrange(0, i as int) =~= snaps@);
        sort_index(&mut lines);
        self.index = lines;
        proof {
            lemma_lex_sort_props(snaps@.map_values(|s: MonitorSnapshot| snapshot_line(s)));
        }
    }

    /// The snapshot files to delete when keeping `keep_days` days at
    /// `now`: those of the stale index lines, never the newest one.
    pub fn prune_plan(&self, now: Instant, keep_days: u32) -> (r: Vec<String>)
        requires
            now.0 - keep_days * SECS_PER_DAY >= MIN_TIMESTAMP,
        ensures
            r.len() == prune_positions(self.index(), now, keep_days).len(),
            forall|k: int|
                0 <= k < r.len() ==> {
                    let pos = prune_positions(self.index(), now, keep_days)[k] as int;
                    &&& pos < self.index().len() - 1
                    &&& (#[trigger] r@[k])@ == file_name_of(self.index()[pos].timestamp)
                },
    {
        let pos = prune_candidates(&self.index, now, keep_days);
        proof {
            assert(self.index@.map_values(|s: SnapshotSummary| s.timestamp@) =~= timestamps(
                self.index(),
            ));
        }
        let mut out: Vec<String> = Vec::new();
        let mut k: usize = 0;
        while k < pos.len()
            invariant
                k <= pos.len(),
                pos@ == prune_positions(self.index(), now, keep_days),
                forall|j: int| 0 <= j < pos.len() ==> pos@[j] < self.index.len() - 1,
                out.len() == k,
                forall|j: int|
                    0 <= j < k ==> (#[trigger] out@[j])@ == file_name_of(
                        self.index()[pos@[j] as int].timestamp,
                    ),
            decreases pos.len() - k,
        {
            let f = snapshot_file_name(self.index[pos[k]].timestamp.as_str());
            out.push(f);
            k = k + 1;
        }
        out
    }
}

} // verus!
