//! Tallies kept while scanning and cleaning a category. The walking and the
//! removals are the caller's; it reports each file or error here.
use vstd::prelude::*;
use crate::models::{CleanCategory, CleanResult, DiskInfo, ScanResult};
use crate::text::chars_of;

verus! {

/// At most this many error messages are kept per category.
pub const MAX_ERRORS: usize = 50;

/// `a + b`, or `u64::MAX` when that overflows.
pub open spec fn sat_add(a: u64, b: u64) -> u64 {
    if a + b > u64::MAX {
        u64::MAX
    } else {
        (a + b) as u64
    }
}

/// Size and number of files found while scanning.
pub struct ScanTally {
    pub size_bytes: u64,
    pub file_count: u64,
}

impl ScanTally {
    pub fn new() -> (r: Self)
        ensures
            r.size_bytes == 0,
            r.file_count == 0,
    {
        ScanTally { size_bytes: 0, file_count: 0 }
    }

    /// Count one file of `size` bytes (saturating).
    pub fn add_file(&mut self, size: u64)
        ensures
            final(self).size_bytes == sat_add(old(self).size_bytes, size),
            final(self).file_count == sat_add(old(self).file_count, 1),
    {
        self.size_bytes = self.size_bytes.saturating_add(size);
        self.file_count = self.file_count.saturating_add(1);
    }

    /// The scan result of `category`.
    pub fn finish(self, category: CleanCategory) -> (r: ScanResult)
        ensures
            r.category == category,
            r.size_bytes == self.size_bytes,
            r.file_count == self.file_count,
    {
        ScanResult { category, size_bytes: self.size_bytes, file_count: self.file_count }
    }
}

/// Bytes freed, items removed and the errors met while cleaning.
pub struct CleanTally {
    freed_bytes: u64,
    removed_count: u64,
    errors: Vec<String>,
}

impl CleanTally {
    pub closed spec fn freed(&self) -> u64 {
        self.freed_bytes
    }

    pub closed spec fn removed(&self) -> u64 {
        self.removed_count
    }

    pub closed spec fn errors(&self) -> Seq<Seq<char>> {
        self.errors@.map_values(|e: String| e@)
    }

    /// At most `MAX_ERRORS` errors are kept.
    pub closed spec fn wf(&self) -> bool {
        self.errors.len() <= MAX_ERRORS
    }

    pub fn new() -> (r: Self)
        ensures
            r.wf(),
            r.freed() == 0,
            r.removed() == 0,
            r.errors() == Seq::<Seq<char>>::empty(),
    {
        let r = CleanTally { freed_bytes: 0, removed_count: 0, errors: Vec::new() };
        assert(r.errors() =~= Seq::<Seq<char>>::empty());
        r
    }

    /// Count one removed item of `size` bytes (saturating); returns the new
    /// `(freed_bytes, removed_count)` for a progress report.
    pub fn record_removed(&mut self, size: u64) -> (r: (u64, u64))
        requires
            old(self).wf(),
        ensures
            final(self).wf(),
            final(self).freed() == sat_add(old(self).freed(), size),
            final(self).removed() == sat_add(old(self).removed(), 1),
            final(self).errors() == old(self).errors(),
            r == (final(self).freed(), final(self).removed()),
    {
        self.freed_bytes = self.freed_bytes.saturating_add(size);
        self.removed_count = self.removed_count.saturating_add(1);
        (self.freed_bytes, self.removed_count)
    }

    /// Keep `msg` unless `MAX_ERRORS` errors are kept already.
    pub fn record_error(&mut self, msg: String)
        requires
            old(self).wf(),
        ensures
            final(self).wf(),
            final(self).freed() == old(self).freed(),
            final(self).removed() == old(self).removed(),
            final(self).errors() == if old(self).errors().len() < MAX_ERRORS {
                old(self).errors().push(msg@)
            } else {
                old(self).errors()
            },
    {
        if self.errors.len() < MAX_ERRORS {
            let ghost before = self.errors@;
            self.errors.push(msg);
            assert(self.errors() =~= before.map_values(|e: String| e@).push(msg@));
        }
    }

    /// Record the outcome of emptying the recycle bin whose contents were
    /// measured at `size` bytes: `Ok(true)` counts one removal of that
    /// size, `Ok(false)` (already empty) nothing, `Err(e)` an error.
    /// Returns the progress report to make, if any.
    pub fn record_recycle_bin(&mut self, outcome: Result<bool, String>, size: u64) -> (r: Option<(u64, u64)>)
        requires
            old(self).wf(),
        ensures
            final(self).wf(),
            match outcome {
                Ok(true) => {
                    &&& final(self).freed() == sat_add(old(self).freed(), size)
                    &&& final(self).removed() == sat_add(old(self).removed(), 1)
                    &&& final(self).errors() == old(self).errors()
                    &&& r == Some((final(self).freed(), final(self).removed()))
                },
                Ok(false) => {
                    &&& final(self).freed() == old(self).freed()
                    &&& final(self).removed() == old(self).removed()
                    &&& final(self).errors() == old(self).errors()
                    &&& r is None
                },
                Err(e) => {
                    &&& final(self).freed() == old(self).freed()
                    &&& final(self).removed() == old(self).removed()
                    &&& final(self).errors() == if old(self).errors().len() < MAX_ERRORS {
                        old(self).errors().push("SHEmptyRecycleBinW: "@ + e@)
                    } else {
                        old(self).errors()
                    }
                    &&& r is None
                },
            },
    {
        match outcome {
            Ok(true) => Some(self.record_removed(size)),
            Ok(false) => None,
            Err(e) => {
                let mut msg = "SHEmptyRecycleBinW: ".to_owned();
                msg.append(e.as_str());
                self.record_error(msg);
                None
            },
        }
    }

    /// The result of cleaning `category`.
    pub fn finish(self, category: CleanCategory) -> (r: CleanResult)
        ensures
            r.category == category,
            r.freed_bytes == self.freed(),
            r.removed_count == self.removed(),
            r.errors@.map_values(|e: String| e@) == self.errors(),
    {
        CleanResult {
            category,
            freed_bytes: self.freed_bytes,
            removed_count: self.removed_count,
            errors: self.errors,
        }
    }
}

/// The error recorded when removing `path` fails with `err`.
pub fn remove_error(path: &str, err: &str) -> (r: String)
    ensures
        r@ == "remove "@ + path@ + ": "@ + err@,
{
    let mut s = "remove ".to_owned();
    s.append(path);
    s.append(": ");
    s.append(err);
    s
}

/// The error recorded when listing `dir` fails with `err`.
pub fn read_dir_error(dir: &str, err: &str) -> (r: String)
    ensures
        r@ == "read_dir "@ + dir@ + ": "@ + err@,
{
    let mut s = "read_dir ".to_owned();
    s.append(dir);
    s.append(": ");
    s.append(err);
    s
}

/// Drive figures from the total and free byte counts the system reports:
/// used is `total - free`, or 0 when free exceeds total.
pub fn disk_info(total: u64, total_free: u64) -> (r: DiskInfo)
    ensures
        r.total_bytes == total,
        r.free_bytes == total_free,
        r.used_bytes == if total >= total_free { (total - total_free) as u64 } else { 0 },
{
    DiskInfo { total_bytes: total, free_bytes: total_free, used_bytes: total.saturating_sub(total_free) }
}


/// `s` without its trailing `c`s (`str::trim_end_matches` with a char).
pub open spec fn trim_end(s: Seq<char>, c: char) -> Seq<char>
    decreases s.len(),
{
    if s.len() > 0 && s.last() == c {
        trim_end(s.drop_last(), c)
    } else {
        s
    }
}

/// The root directory of a drive named like `C`, `C:` or `C:\`: trailing
/// `\`s dropped, a `:` added when missing, then a `\`.
pub open spec fn spec_disk_root(drive: Seq<char>) -> Seq<char> {
    let t = trim_end(drive, '\\');
    if t.len() > 0 && t.last() == ':' {
        t.push('\\')
    } else {
        t.push(':').push('\\')
    }
}

/// The root directory whose space is queried for `drive`.
pub fn disk_root(drive: &str) -> (r: String)
    ensures
        r@ == spec_disk_root(drive@),
{
    let cs = chars_of(drive);
    let mut n: usize = cs.len();
    assert(cs@.subrange(0, n as int) =~= cs@);
    while n > 0 && cs[n - 1] == '\\'
        invariant
            n <= cs.len(),
            cs@ == drive@,
            trim_end(drive@, '\\') == trim_end(cs@.subrange(0, n as int), '\\'),
        decreases n,
    {
        assert(cs@.subrange(0, n as int).drop_last() =~= cs@.subrange(0, n - 1));
        n = n - 1;
    }
    let ghost t = cs@.subrange(0, n as int);
    assert(trim_end(t, '\\') == t);
    let mut s = String::new();
    let mut i: usize = 0;
    while i < n
        invariant
            i <= n,
            n <= cs.len(),
            s@ == cs@.subrange(0, i as int),
        decreases n - i,
    {
        s.push(cs[i]);
        i = i + 1;
        assert(s@ =~= cs@.subrange(0, i as int));
    }
    if !(n > 0 && cs[n - 1] == ':') {
        s.push(':');
    }
    s.push('\\');
    s
}

/// The drive figures of `drive`, given the reply of the system to the
/// query on `disk_root(drive)`: `Some((total, total_free))`, or `None`
/// when the query failed.
pub fn get_disk_info(drive: &str, reply: Option<(u64, u64)>) -> (r: Result<DiskInfo, String>)
    ensures
        match reply {
            Some((total, free)) => r matches Ok(d) && d.total_bytes == total && d.free_bytes == free
                && d.used_bytes == (if total >= free { (total - free) as u64 } else { 0 }),
            None => r matches Err(e) && e@ == "GetDiskFreeSpaceExW failed for "@ + drive@,
        },
{
    match reply {
        Some((total, free)) => Ok(disk_info(total, free)),
        None => {
            let mut e = "GetDiskFreeSpaceExW failed for ".to_owned();
            e.append(drive);
            Err(e)
        },
    }
}

/// The glob that selects files matching `pattern` directly inside `dir`.
pub fn glob_pattern(dir: &str, pattern: &str) -> (r: String)
    ensures
        r@ == dir@ + "\\"@ + pattern@,
{
    let mut s = dir.to_owned();
    s.append("\\");
    s.append(pattern);
    s
}

/// `a + b + ...` over `sizes`, each addition saturating.
pub open spec fn sat_sum(sizes: Seq<u64>) -> u64
    decreases sizes.len(),
{
    if sizes.len() == 0 {
        0
    } else {
        sat_add(sat_sum(sizes.drop_last()), sizes.last())
    }
}

/// `n` as a `u64`, or `u64::MAX` when larger.
pub open spec fn sat_count(n: nat) -> u64 {
    if n > u64::MAX {
        u64::MAX
    } else {
        n as u64
    }
}

/// The scan result of `category` whose targets hold files of these sizes.
pub fn scan_category(category: CleanCategory, sizes: &Vec<u64>) -> (r: ScanResult)
    ensures
        r.category == category,
        r.size_bytes == sat_sum(sizes@),
        r.file_count == sat_count(sizes@.len()),
{
    let mut tally = ScanTally::new();
    let mut i: usize = 0;
    while i < sizes.len()
        invariant
            i <= sizes.len(),
            tally.size_bytes == sat_sum(sizes@.subrange(0, i as int)),
            tally.file_count == sat_count(i as nat),
        decreases sizes.len() - i,
    {
        let ghost s1 = sizes@.subrange(0, i + 1);
        assert(s1.drop_last() =~= sizes@.subrange(0, i as int));
        tally.add_file(sizes[i]);
        i = i + 1;
    }
    assert(sizes@.subrange(0, i as int) =~= sizes@);
    tally.finish(category)
}

/// What happened to one item while cleaning.
pub enum CleanEvent {
    /// An item of this many bytes was removed.
    Removed(u64),
    /// Listing or removing failed with this message.
    Failed(String),
    /// Emptying the recycle bin, measured at this many bytes, gave this
    /// outcome: emptied, already empty, or an error.
    RecycleBin(Result<bool, String>, u64),
}

/// The content of a `CleanEvent`.
pub enum EventView {
    Removed(u64),
    Failed(Seq<char>),
    RecycleBin(Result<bool, Seq<char>>, u64),
}

impl View for CleanEvent {
    type V = EventView;

    open spec fn view(&self) -> EventView {
        match self {
            CleanEvent::Removed(n) => EventView::Removed(*n),
            CleanEvent::Failed(m) => EventView::Failed(m@),
            CleanEvent::RecycleBin(o, n) => EventView::RecycleBin(
                match o {
                    Ok(b) => Ok(*b),
                    Err(e) => Err(e@),
                },
                *n,
            ),
        }
    }
}

/// Bytes freed, items removed and errors kept.
pub struct TallyView {
    pub freed: u64,
    pub removed: u64,
    pub errors: Seq<Seq<char>>,
}

/// `errors` with `msg` kept, unless `MAX_ERRORS` are kept already.
pub open spec fn keep_error(errors: Seq<Seq<char>>, msg: Seq<char>) -> Seq<Seq<char>> {
    if errors.len() < MAX_ERRORS {
        errors.push(msg)
    } else {
        errors
    }
}

/// The tally after one more event.
pub open spec fn apply_event(t: TallyView, e: EventView) -> TallyView {
    match e {
        EventView::Removed(size) | EventView::RecycleBin(Ok(true), size) => TallyView {
            freed: sat_add(t.freed, size),
            removed: sat_add(t.removed, 1),
            errors: t.errors,
        },
        EventView::Failed(m) => TallyView { errors: keep_error(t.errors, m), ..t },
        EventView::RecycleBin(Ok(false), _) => t,
        EventView::RecycleBin(Err(e), _) => TallyView {
            errors: keep_error(t.errors, "SHEmptyRecycleBinW: "@ + e),
            ..t
        },
    }
}

/// Whether the event is followed by a progress report.
pub open spec fn reports_progress(e: EventView) -> bool {
    e matches EventView::Removed(_) || e matches EventView::RecycleBin(Ok(true), _)
}

pub open spec fn events_view(es: Seq<CleanEvent>) -> Seq<EventView> {
    es.map_values(|e: CleanEvent| e@)
}

/// The tally after the events, starting from nothing.
pub open spec fn run_events(es: Seq<EventView>) -> TallyView
    decreases es.len(),
{
    if es.len() == 0 {
        TallyView { freed: 0, removed: 0, errors: Seq::empty() }
    } else {
        apply_event(run_events(es.drop_last()), es.last())
    }
}

/// The `(freed_bytes, removed_count)` reports made along the events.
pub open spec fn progress_reports(es: Seq<EventView>) -> Seq<(u64, u64)>
    decreases es.len(),
{
    if es.len() == 0 {
        Seq::empty()
    } else {
        let r = progress_reports(es.drop_last());
        if reports_progress(es.last()) {
            r.push((run_events(es).freed, run_events(es).removed))
        } else {
            r
        }
    }
}

/// The tally's content.
pub open spec fn tally_view(t: CleanTally) -> TallyView {
    TallyView { freed: t.freed(), removed: t.removed(), errors: t.errors() }
}

impl CleanTally {
    /// Record one event of a cleanup; returns the progress report it calls
    /// for, if any.
    pub fn record(&mut self, e: CleanEvent) -> (r: Option<(u64, u64)>)
        requires
            old(self).wf(),
        ensures
            final(self).wf(),
            tally_view(*final(self)) == apply_event(tally_view(*old(self)), e@),
            r == (if reports_progress(e@) {
                Some((final(self).freed(), final(self).removed()))
            } else {
                None
            }),
    {
        match e {
            CleanEvent::Removed(size) => Some(self.record_removed(size)),
            CleanEvent::Failed(msg) => {
                self.record_error(msg);
                None
            },
            CleanEvent::RecycleBin(outcome, size) => self.record_recycle_bin(outcome, size),
        }
    }
}

/// The result of cleaning `category` along these events, and the progress
/// reports made on the way.
pub fn clean_category_with_progress(category: CleanCategory, events: Vec<CleanEvent>) -> (r: (
    CleanResult,
    Vec<(u64, u64)>,
))
    ensures
        r.0.category == category,
        r.0.freed_bytes == run_events(events_view(events@)).freed,
        r.0.removed_count == run_events(events_view(events@)).removed,
        r.0.errors@.map_values(|e: String| e@) == run_events(events_view(events@)).errors,
        r.1@ == progress_reports(events_view(events@)),
{
    let ghost ev = events_view(events@);
    let mut tally = CleanTally::new();
    let mut reports: Vec<(u64, u64)> = Vec::new();
    let mut i: usize = 0;
    while i < events.len()
        invariant
            tally.wf(),
            i <= events.len(),
            ev == events_view(events@),
            tally.freed() == run_events(ev.subrange(0, i as int)).freed,
            tally.removed() == run_events(ev.subrange(0, i as int)).removed,
            tally.errors() == run_events(ev.subrange(0, i as int)).errors,
            reports@ == progress_reports(ev.subrange(0, i as int)),
        decreases events.len() - i,
    {
        let ghost s1 = ev.subrange(0, i + 1);
        assert(s1.drop_last() =~= ev.subrange(0, i as int));
        assert(s1.last() == ev[i as int]);
        match &events[i] {
            CleanEvent::Removed(size) => {
                let p = tally.record_removed(*size);
                reports.push(p);
            },
            CleanEvent::Failed(msg) => {
                tally.record_error(msg.clone());
            },
            CleanEvent::RecycleBin(outcome, size) => {
                let o = match outcome {
                    Ok(b) => Ok(*b),
                    Err(e) => Err(e.clone()),
                };
                match tally.record_recycle_bin(o, *size) {
                    Some(p) => reports.push(p),
                    None => {},
                }
            },
        }
        i = i + 1;
    }
    assert(ev.subrange(0, i as int) =~= ev);
    (tally.finish(category), reports)
}

/// The result of cleaning `category` along these events.
pub fn clean_category(category: CleanCategory, events: Vec<CleanEvent>) -> (r: CleanResult)
    ensures
        r.category == category,
        r.freed_bytes == run_events(events_view(events@)).freed,
        r.removed_count == run_events(events_view(events@)).removed,
        r.errors@.map_values(|e: String| e@) == run_events(events_view(events@)).errors,
{
    clean_category_with_progress(category, events).0
}


/// However many events a cleanup meets, at most `MAX_ERRORS` error
/// messages are kept, and they are the first ones met.
pub proof fn lemma_errors_capped(es: Seq<EventView>)
    ensures
        run_events(es).errors.len() <= MAX_ERRORS,
    decreases es.len(),
{
    if es.len() > 0 {
        lemma_errors_capped(es.drop_last());
    }
}

/// The bytes freed and the items removed never go down as a cleanup
/// proceeds.
pub proof fn lemma_tally_grows(es: Seq<EventView>, k: int)
    requires
        0 <= k <= es.len(),
    ensures
        run_events(es.subrange(0, k)).freed <= run_events(es).freed,
        run_events(es.subrange(0, k)).removed <= run_events(es).removed,
    decreases es.len() - k,
{
    if k < es.len() {
        lemma_tally_grows(es, k + 1);
        let s1 = es.subrange(0, k + 1);
        assert(s1.drop_last() =~= es.subrange(0, k));
    } else {
        assert(es.subrange(0, k) =~= es);
    }
}


/// How many of the events are followed by a progress report.
pub open spec fn reporting_count(es: Seq<EventView>) -> nat
    decreases es.len(),
{
    if es.len() == 0 {
        0
    } else {
        reporting_count(es.drop_last()) + if reports_progress(es.last()) {
            1nat
        } else {
            0nat
        }
    }
}

/// One progress report per removal: the `k`-th report counts `k + 1`
/// removals, the freed bytes never go down from one report to the next,
/// and the last report gives the totals of the cleanup.
pub proof fn lemma_progress_per_removal(es: Seq<EventView>)
    ensures
        progress_reports(es).len() == reporting_count(es),
        run_events(es).removed == sat_count(reporting_count(es)),
        forall|k: int|
            0 <= k < progress_reports(es).len() ==> (#[trigger] progress_reports(es)[k]).1 == sat_count(
                (k + 1) as nat,
            ),
        forall|k: int|
            0 <= k < progress_reports(es).len() ==> (#[trigger] progress_reports(es)[k]).0 <= run_events(
                es,
            ).freed,
        forall|j: int, k: int|
            0 <= j <= k < progress_reports(es).len() ==> progress_reports(es)[j].0 <= progress_reports(
                es,
            )[k].0,
        progress_reports(es).len() > 0 ==> progress_reports(es).last() == (
            run_events(es).freed,
            run_events(es).removed,
        ),
    decreases es.len(),
{
    if es.len() > 0 {
        let d = es.drop_last();
        lemma_progress_per_removal(d);
        let r = progress_reports(d);
        let t = run_events(d);
        let u = run_events(es);
        assert(u.freed >= t.freed);
        if reports_progress(es.last()) {
            let r2 = progress_reports(es);
            assert(r2 == r.push((u.freed, u.removed)));
            assert forall|k: int| 0 <= k < r2.len() implies (#[trigger] r2[k]).0 <= u.freed by {
                if k < r.len() {
                    assert(r2[k] == r[k]);
                }
            }
            assert forall|k: int| 0 <= k < r2.len() implies (#[trigger] r2[k]).1 == sat_count(
                (k + 1) as nat,
            ) by {
                if k < r.len() {
                    assert(r2[k] == r[k]);
                }
            }
            assert forall|j: int, k: int| 0 <= j <= k < r2.len() implies r2[j].0 <= r2[k].0 by {
                if k < r.len() {
                    assert(r2[j] == r[j]);
                    assert(r2[k] == r[k]);
                } else {
                    assert(r2[j].0 <= u.freed);
                }
            }
        }
    }
}

} // verus!
