//! The single-pass drive scan: one walk of the drive feeds every file to the
//! Top-N collector and charges its size to every monitored directory that
//! encloses it. The walk is the caller's; it reports each directory it
//! enters and leaves and each file it meets.
use vstd::prelude::*;
use crate::classify::{classify, normalize, spec_classify};
use crate::cleaner::sat_add;
use crate::models::{CleanAdvice, LargeFileEntry, MonitorEntry, MonitorSnapshot};
use crate::sort::{keys, lemma_sort_map, sort_by_key_desc, sort_desc, Keyed, SortKey};
use crate::text::{backslashed, chars_eq, chars_of, eq_lit, starts_with, starts_with_lit, to_lowercase};
use crate::topn::{largest_of, lemma_collector_keeps_largest, step, TopNCollector};
use crate::walk::DirSummary;
use crate::models::dir_views;
use crate::order::Item;
use vstd::multiset::Multiset;

verus! {

/// At most this many monitored directories are scanned.
pub const MAX_MONITORS: usize = 200;

/// ASCII lowercase of a character, as a code point.
pub open spec fn ascii_lower(c: char) -> u32 {
    if 65 <= (c as u32) && (c as u32) <= 90 {
        (c as u32 + 32) as u32
    } else {
        c as u32
    }
}

/// `a` and `b` match ignoring ASCII case (`str::eq_ignore_ascii_case`).
pub open spec fn eq_ignore_ascii_case(a: Seq<char>, b: Seq<char>) -> bool {
    a.len() == b.len() && forall|i: int| 0 <= i < a.len() ==> ascii_lower(a[i]) == ascii_lower(b[i])
}

/// Whether `a` and `b` match ignoring ASCII case.
pub fn same_ignoring_ascii_case(a: &str, b: &str) -> (r: bool)
    ensures
        r == eq_ignore_ascii_case(a@, b@),
{
    let x = chars_of(a);
    let y = chars_of(b);
    if x.len() != y.len() {
        return false;
    }
    let mut i: usize = 0;
    while i < x.len()
        invariant
            x@ == a@,
            y@ == b@,
            x.len() == y.len(),
            i <= x.len(),
            forall|k: int| 0 <= k < i ==> ascii_lower(x@[k]) == ascii_lower(y@[k]),
        decreases x.len() - i,
    {
        let p = x[i] as u32;
        let q = y[i] as u32;
        let lp = if 65 <= p && p <= 90 { p + 32 } else { p };
        let lq = if 65 <= q && q <= 90 { q + 32 } else { q };
        if lp != lq {
            return false;
        }
        i = i + 1;
    }
    true
}

/// `dirs` followed by each of `extra` that matches none of the directories
/// so far ignoring ASCII case.
pub open spec fn append_new_dirs(dirs: Seq<Seq<char>>, extra: Seq<Seq<char>>) -> Seq<Seq<char>>
    decreases extra.len(),
{
    if extra.len() == 0 {
        dirs
    } else {
        let acc = append_new_dirs(dirs, extra.drop_last());
        if exists|k: int| 0 <= k < acc.len() && eq_ignore_ascii_case(acc[k], extra.last()) {
            acc
        } else {
            acc.push(extra.last())
        }
    }
}

/// How much monitored directory `dir` changed at the last diff, in bytes:
/// that of the first line of `activity` for it, 0 when there is none.
pub open spec fn activity_of(activity: Seq<(Seq<char>, u64)>, dir: Seq<char>) -> u64
    decreases activity.len(),
{
    if activity.len() == 0 {
        0
    } else if activity[0].0 == dir {
        activity[0].1
    } else {
        activity_of(activity.drop_first(), dir)
    }
}

/// A monitored directory ranked by how much it changed.
pub struct Ranked {
    pub dir: String,
    pub activity: u64,
}

/// The content of a `Ranked`.
pub struct RankedView {
    pub dir: Seq<char>,
    pub activity: u64,
}

impl Keyed for RankedView {
    open spec fn key(&self) -> int {
        self.activity as int
    }
}

impl Keyed for Ranked {
    open spec fn key(&self) -> int {
        self.activity as int
    }
}

impl SortKey for Ranked {
    fn sort_key(&self) -> (k: u128) {
        self.activity as u128
    }
}

pub open spec fn ranked_view(r: Ranked) -> RankedView {
    RankedView { dir: r.dir@, activity: r.activity }
}

/// The monitored directories of a scan: the configured ones, then the new
/// ones of `extra`; past `MAX_MONITORS` of them, the `MAX_MONITORS` that
/// changed most at the last diff, the most active first (equal activity
/// keeping their order).
pub open spec fn spec_merge_monitor_dirs(
    dirs: Seq<Seq<char>>,
    extra: Seq<Seq<char>>,
    activity: Seq<(Seq<char>, u64)>,
) -> Seq<Seq<char>> {
    let all = append_new_dirs(dirs, extra);
    if all.len() > MAX_MONITORS {
        sort_by_key_desc(
            all.map_values(|d: Seq<char>| RankedView { dir: d, activity: activity_of(activity, d) }),
        ).subrange(0, MAX_MONITORS as int).map_values(|r: RankedView| r.dir)
    } else {
        all
    }
}

fn activity_lookup(activity: &Vec<(String, u64)>, dir: &String) -> (r: u64)
    ensures
        r == activity_of(activity@.map_values(|a: (String, u64)| (a.0@, a.1)), dir@),
{
    let ghost av = activity@.map_values(|a: (String, u64)| (a.0@, a.1));
    let mut i: usize = 0;
    assert(av.subrange(0, av.len() as int) =~= av);
    while i < activity.len()
        invariant
            i <= activity.len(),
            av == activity@.map_values(|a: (String, u64)| (a.0@, a.1)),
            activity_of(av, dir@) == activity_of(av.subrange(i as int, av.len() as int), dir@),
        decreases activity.len() - i,
    {
        let ghost rest = av.subrange(i as int, av.len() as int);
        assert(rest[0] == (activity@[i as int].0@, activity@[i as int].1));
        if activity[i].0 == *dir {
            return activity[i].1;
        }
        assert(rest.drop_first() =~= av.subrange(i + 1, av.len() as int));
        i = i + 1;
    }
    0
}

/// The distance between two sizes.
pub open spec fn abs_diff(a: u64, b: u64) -> u64 {
    if a >= b {
        (a - b) as u64
    } else {
        (b - a) as u64
    }
}

/// Path-and-size view of monitor entries.
pub open spec fn sized_dirs(v: Seq<MonitorEntry>) -> Seq<(Seq<char>, u64)> {
    v.map_values(|e: MonitorEntry| (e.path@, e.size_bytes))
}

/// How much each monitored directory of `curr` changed since `prev`: the
/// distance between its sizes in the two, a directory absent from `prev`
/// counting from 0.
pub open spec fn spec_monitor_activity(prev: Seq<(Seq<char>, u64)>, curr: Seq<(Seq<char>, u64)>) -> Seq<
    (Seq<char>, u64),
> {
    curr.map_values(|c: (Seq<char>, u64)| (c.0, abs_diff(c.1, activity_of(prev, c.0))))
}

fn size_lookup(entries: &Vec<MonitorEntry>, path: &String) -> (r: u64)
    ensures
        r == activity_of(sized_dirs(entries@), path@),
{
    let ghost sv = sized_dirs(entries@);
    let mut i: usize = 0;
    assert(sv.subrange(0, sv.len() as int) =~= sv);
    while i < entries.len()
        invariant
            i <= entries.len(),
            sv == sized_dirs(entries@),
            activity_of(sv, path@) == activity_of(sv.subrange(i as int, sv.len() as int), path@),
        decreases entries.len() - i,
    {
        let ghost rest = sv.subrange(i as int, sv.len() as int);
        assert(rest[0] == (entries@[i as int].path@, entries@[i as int].size_bytes));
        if entries[i].path == *path {
            return entries[i].size_bytes;
        }
        assert(rest.drop_first() =~= sv.subrange(i + 1, sv.len() as int));
        i = i + 1;
    }
    0
}

/// How much each monitored directory of the newer snapshot `curr` changed
/// since the older one `prev`, in bytes either way: the activity by which
/// `merge_monitor_dirs` ranks directories.
pub fn monitor_activity(prev: &MonitorSnapshot, curr: &MonitorSnapshot) -> (r: Vec<(String, u64)>)
    ensures
        r@.map_values(|a: (String, u64)| (a.0@, a.1)) == spec_monitor_activity(
            sized_dirs(prev.monitor_dirs@),
            sized_dirs(curr.monitor_dirs@),
        ),
{
    let ghost target = spec_monitor_activity(sized_dirs(prev.monitor_dirs@), sized_dirs(curr.monitor_dirs@));
    let mut out: Vec<(String, u64)> = Vec::new();
    let mut i: usize = 0;
    while i < curr.monitor_dirs.len()
        invariant
            i <= curr.monitor_dirs.len(),
            target == spec_monitor_activity(sized_dirs(prev.monitor_dirs@), sized_dirs(curr.monitor_dirs@)),
            out@.map_values(|a: (String, u64)| (a.0@, a.1)) == target.subrange(0, i as int),
        decreases curr.monitor_dirs.len() - i,
    {
        let e = &curr.monitor_dirs[i];
        let p = size_lookup(&prev.monitor_dirs, &e.path);
        let d: u64 = if e.size_bytes >= p {
            e.size_bytes - p
        } else {
            p - e.size_bytes
        };
        let ghost before = out@;
        out.push((e.path.clone(), d));
        assert(out@.map_values(|a: (String, u64)| (a.0@, a.1)) =~= before.map_values(
            |a: (String, u64)| (a.0@, a.1),
        ).push((e.path@, d)));
        assert(target.subrange(0, i + 1) =~= target.subrange(0, i as int).push(target[i as int]));
        i = i + 1;
    }
    assert(target.subrange(0, i as int) =~= target);
    out
}

/// Merge the configured monitored directories with `extra` ones (such as
/// the parents of the previous scan's large files): the extra ones that
/// match none so far ignoring ASCII case are appended. Past
/// `MAX_MONITORS`, the most active ones by `activity` (the directories'
/// changes in bytes at the last diff) are kept.
pub fn merge_monitor_dirs(monitor_dirs: Vec<String>, extra: Vec<String>, activity: &Vec<(String, u64)>) -> (r: Vec<
    String,
>)
    ensures
        dir_views(r@) == spec_merge_monitor_dirs(
            dir_views(monitor_dirs@),
            dir_views(extra@),
            activity@.map_values(|a: (String, u64)| (a.0@, a.1)),
        ),
{
    let ghost base = dir_views(monitor_dirs@);
    let ghost ev = dir_views(extra@);
    let ghost av = activity@.map_values(|a: (String, u64)| (a.0@, a.1));
    let mut dirs = monitor_dirs;
    let mut i: usize = 0;
    assert(ev.subrange(0, 0) =~= Seq::<Seq<char>>::empty());
    while i < extra.len()
        invariant
            ev == dir_views(extra@),
            i <= extra.len(),
            dir_views(dirs@) == append_new_dirs(base, ev.subrange(0, i as int)),
        decreases extra.len() - i,
    {
        let ghost acc = dir_views(dirs@);
        let d = &extra[i];
        let mut found = false;
        let mut k: usize = 0;
        while k < dirs.len()
            invariant
                acc == dir_views(dirs@),
                k <= dirs.len(),
                found == exists|j: int| 0 <= j < k && eq_ignore_ascii_case(acc[j], d@),
            decreases dirs.len() - k,
        {
            assert(acc[k as int] == dirs@[k as int]@);
            if same_ignoring_ascii_case(dirs[k].as_str(), d.as_str()) {
                found = true;
            }
            k = k + 1;
        }
        proof {
            assert(ev.subrange(0, i + 1).drop_last() =~= ev.subrange(0, i as int));
            assert(ev.subrange(0, i + 1).last() == d@);
        }
        if !found {
            let c = d.clone();
            dirs.push(c);
            assert(dir_views(dirs@) =~= acc.push(d@));
        }
        i = i + 1;
    }
    assert(ev.subrange(0, i as int) =~= ev);
    if dirs.len() <= MAX_MONITORS {
        return dirs;
    }
    let ghost all = dir_views(dirs@);
    let ghost ranked_all = all.map_values(|d: Seq<char>| RankedView { dir: d, activity: activity_of(av, d) });
    let mut ranked: Vec<Ranked> = Vec::new();
    let mut j: usize = 0;
    while j < dirs.len()
        invariant
            j <= dirs.len(),
            all == dir_views(dirs@),
            ranked_all == all.map_values(|d: Seq<char>| RankedView { dir: d, activity: activity_of(av, d) }),
            av == activity@.map_values(|a: (String, u64)| (a.0@, a.1)),
            ranked@.map_values(|r: Ranked| ranked_view(r)) == ranked_all.subrange(0, j as int),
        decreases dirs.len() - j,
    {
        let a = activity_lookup(activity, &dirs[j]);
        let item = Ranked { dir: dirs[j].clone(), activity: a };
        let ghost before = ranked@;
        ranked.push(item);
        assert(ranked@.map_values(|r: Ranked| ranked_view(r)) =~= before.map_values(|r: Ranked| ranked_view(r)).push(ranked_view(item)));
        assert(ranked_all.subrange(0, j + 1) =~= ranked_all.subrange(0, j as int).push(ranked_all[j as int]));
        j = j + 1;
    }
    assert(ranked_all.subrange(0, j as int) =~= ranked_all);
    let ghost unsorted = ranked@;
    sort_desc(&mut ranked);
    proof {
        lemma_sort_map(unsorted, |r: Ranked| ranked_view(r));
        crate::sort::lemma_sort_props(unsorted);
    }
    let mut out: Vec<String> = Vec::new();
    let ghost sorted_v = ranked@.map_values(|r: Ranked| ranked_view(r));
    assert(sorted_v == sort_by_key_desc(ranked_all));
    let mut k: usize = 0;
    while k < MAX_MONITORS
        invariant
            k <= MAX_MONITORS,
            ranked@.len() == all.len(),
            all.len() > MAX_MONITORS,
            sorted_v == ranked@.map_values(|r: Ranked| ranked_view(r)),
            dir_views(out@) == sorted_v.subrange(0, k as int).map_values(|r: RankedView| r.dir),
        decreases MAX_MONITORS - k,
    {
        let ghost before = out@;
        let d = ranked[k].dir.clone();
        out.push(d);
        assert(dir_views(out@) =~= dir_views(before).push(sorted_v[k as int].dir));
        assert(sorted_v.subrange(0, k + 1).map_values(|r: RankedView| r.dir) =~= sorted_v.subrange(
            0,
            k as int,
        ).map_values(|r: RankedView| r.dir).push(sorted_v[k as int].dir));
        k = k + 1;
    }
    out
}

/// Past `MAX_MONITORS` merged directories, the merge keeps `MAX_MONITORS`
/// of them, each changed at least as much as every directory left out;
/// otherwise it keeps them all.
pub proof fn lemma_merge_keeps_most_active(
    dirs: Seq<Seq<char>>,
    extra: Seq<Seq<char>>,
    activity: Seq<(Seq<char>, u64)>,
)
    ensures
        ({
            let all = append_new_dirs(dirs, extra);
            let r = spec_merge_monitor_dirs(dirs, extra, activity);
            let left = all.to_multiset().sub(r.to_multiset());
            &&& r.len() == (if all.len() > MAX_MONITORS { MAX_MONITORS as nat } else { all.len() })
            &&& r.to_multiset().subset_of(all.to_multiset())
            &&& forall|i: int, d: Seq<char>|
                0 <= i < r.len() && #[trigger] left.count(d) > 0 ==> activity_of(activity, d)
                    <= #[trigger] activity_of(activity, r[i])
        }),
{
    broadcast use vstd::multiset::group_multiset_axioms, vstd::seq_lib::group_to_multiset_ensures;

    let all = append_new_dirs(dirs, extra);
    let r = spec_merge_monitor_dirs(dirs, extra, activity);
    let left = all.to_multiset().sub(r.to_multiset());
    if all.len() <= MAX_MONITORS {
        assert(left =~= Multiset::<Seq<char>>::empty());
        return;
    }
    let f = |d: Seq<char>| RankedView { dir: d, activity: activity_of(activity, d) };
    let g = |x: RankedView| x.dir;
    let ranked = all.map_values(f);
    let s = sort_by_key_desc(ranked);
    crate::sort::lemma_sort_props(ranked);
    crate::sort::lemma_perm_map(s, ranked, g);
    assert(ranked.map_values(g) =~= all);
    let top = s.subrange(0, MAX_MONITORS as int);
    let bot = s.subrange(MAX_MONITORS as int, s.len() as int);
    assert(s =~= top + bot);
    assert(s.map_values(g) =~= top.map_values(g) + bot.map_values(g));
    vstd::seq_lib::lemma_multiset_commutative(top.map_values(g), bot.map_values(g));
    assert(r == top.map_values(g));
    assert(left =~= bot.map_values(g).to_multiset());
    assert forall|k: int| 0 <= k < s.len() implies s[k].activity == activity_of(activity, s[k].dir) by {
        crate::sort::lemma_perm_member(ranked, s, k);
    }
    assert forall|i: int, d: Seq<char>|
        0 <= i < r.len() && #[trigger] left.count(d) > 0 implies activity_of(activity, d)
            <= #[trigger] activity_of(activity, r[i]) by {
        assert(bot.map_values(g).contains(d));
        let j = choose|j: int| 0 <= j < bot.map_values(g).len() && bot.map_values(g)[j] == d;
        assert(s[MAX_MONITORS + j].dir == d);
        assert(keys(s)[i] >= keys(s)[MAX_MONITORS + j]);
    }
}

/// The normalized form of a path used to match monitored directories:
/// lowercased, with `/` folded to `\`.
pub fn norm_lower(path: &str) -> (r: Vec<char>)
    ensures
        r@ == normalize(path@),
{
    let l = to_lowercase(path);
    backslashed(l.as_str())
}

/// The path is the C: drive or lies on it.
pub open spec fn spec_is_on_c_drive(raw: Seq<char>) -> bool {
    normalize(raw) == "c:"@ || starts_with(normalize(raw), "c:\\"@)
}

/// Whether the path is the C: drive or lies on it.
pub fn is_on_c_drive(raw: &str) -> (r: bool)
    ensures
        r == spec_is_on_c_drive(raw@),
{
    let lower = norm_lower(raw);
    eq_lit(&lower, "c:") || starts_with_lit(&lower, "c:\\")
}

/// The first position of `key` in `ks`, if any.
pub open spec fn first_index(ks: Seq<Seq<char>>, key: Seq<char>) -> Option<int>
    decreases ks.len(),
{
    if ks.len() == 0 {
        None
    } else {
        match first_index(ks.drop_last(), key) {
            Some(i) => Some(i),
            None => if ks.last() == key {
                Some(ks.len() - 1)
            } else {
                None
            },
        }
    }
}

/// `sizes` after a file of `size` bytes is charged to each directory of
/// `active`, in order (saturating).
pub open spec fn charge(sizes: Seq<u64>, active: Seq<usize>, size: u64) -> Seq<u64>
    decreases active.len(),
{
    if active.len() == 0 {
        sizes
    } else {
        let s = charge(sizes, active.drop_last(), size);
        s.update(active.last() as int, sat_add(s[active.last() as int], size))
    }
}

/// Accumulator of the single-pass drive scan.
pub struct DriveScan {
    keys: Vec<Vec<char>>,
    sizes: Vec<u64>,
    counts: Vec<u64>,
    reached: Vec<bool>,
    completed: u64,
    total: u64,
    collector: TopNCollector,
}

impl DriveScan {
    /// The normalized paths of the monitored directories.
    pub closed spec fn keys(&self) -> Seq<Seq<char>> {
        self.keys@.map_values(|k: Vec<char>| k@)
    }

    pub closed spec fn sizes(&self) -> Seq<u64> {
        self.sizes@
    }

    pub closed spec fn counts(&self) -> Seq<u64> {
        self.counts@
    }

    pub closed spec fn reached_dirs(&self) -> Seq<bool> {
        self.reached@
    }

    pub closed spec fn completed(&self) -> u64 {
        self.completed
    }

    pub closed spec fn total(&self) -> u64 {
        self.total
    }

    pub closed spec fn collector(&self) -> TopNCollector {
        self.collector
    }

    pub closed spec fn wf(&self) -> bool {
        &&& self.sizes.len() == self.keys.len()
        &&& self.counts.len() == self.keys.len()
        &&& self.reached.len() == self.keys.len()
        &&& self.collector.wf()
    }

    /// A scan of `monitors` collecting the `top_n` largest files of at
    /// least `min_bytes`.
    pub fn new(monitors: &Vec<String>, min_bytes: u64, top_n: usize) -> (r: Self)
        ensures
            r.wf(),
            r.keys() == dir_views(monitors@).map_values(|m: Seq<char>| normalize(m)),
            r.sizes() == Seq::new(monitors.len() as nat, |i: int| 0u64),
            r.counts() == Seq::new(monitors.len() as nat, |i: int| 0u64),
            r.reached_dirs() == Seq::new(monitors.len() as nat, |i: int| false),
            r.completed() == 0,
            r.total() == monitors.len(),
            r.collector().kept() == Multiset::<Item>::empty(),
            r.collector().seen() == Multiset::<Item>::empty(),
            r.collector().spec_min_bytes() == min_bytes,
            r.collector().spec_n() == top_n,
    {
        let mut keys: Vec<Vec<char>> = Vec::new();
        let mut sizes: Vec<u64> = Vec::new();
        let mut counts: Vec<u64> = Vec::new();
        let mut reached: Vec<bool> = Vec::new();
        let mut i: usize = 0;
        while i < monitors.len()
            invariant
                i <= monitors.len(),
                keys@.map_values(|k: Vec<char>| k@) == dir_views(monitors@.subrange(0, i as int)).map_values(
                    |m: Seq<char>| normalize(m),
                ),
                sizes@ == Seq::new(i as nat, |j: int| 0u64),
                counts@ == Seq::new(i as nat, |j: int| 0u64),
                reached@ == Seq::new(i as nat, |j: int| false),
            decreases monitors.len() - i,
        {
            let ghost before = keys@;
            let k = norm_lower(monitors[i].as_str());
            keys.push(k);
            sizes.push(0);
            counts.push(0);
            reached.push(false);
            assert(keys@.map_values(|k: Vec<char>| k@) =~= before.map_values(|k: Vec<char>| k@).push(k@));
            i = i + 1;
            assert(dir_views(monitors@.subrange(0, i as int)).map_values(|m: Seq<char>| normalize(m))
                =~= dir_views(monitors@.subrange(0, i - 1)).map_values(|m: Seq<char>| normalize(m)).push(
                normalize(monitors@[i - 1]@),
            ));
            assert(sizes@ =~= Seq::new(i as nat, |j: int| 0u64));
            assert(counts@ =~= Seq::new(i as nat, |j: int| 0u64));
            assert(reached@ =~= Seq::new(i as nat, |j: int| false));
        }
        assert(monitors@.subrange(0, i as int) =~= monitors@);
        DriveScan {
            keys,
            sizes,
            counts,
            reached,
            completed: 0,
            total: monitors.len() as u64,
            collector: TopNCollector::new(min_bytes, top_n),
        }
    }

    /// The position of the monitored directory with normalized path `key`.
    fn find(&self, key: &Vec<char>) -> (r: Option<usize>)
        ensures
            match r {
                Some(i) => first_index(self.keys(), key@) == Some(i as int),
                None => first_index(self.keys(), key@) is None,
            },
    {
        let ghost ks = self.keys();
        let mut i: usize = 0;
        while i < self.keys.len()
            invariant
                ks == self.keys(),
                i <= self.keys.len(),
                first_index(ks.subrange(0, i as int), key@) is None,
            decreases self.keys.len() - i,
        {
            proof {
                assert(ks.subrange(0, i + 1).drop_last() =~= ks.subrange(0, i as int));
            }
            if chars_eq(&self.keys[i], key) {
                proof {
                    lemma_first_index_prefix(ks, key@, i as int);
                }
                return Some(i);
            }
            i = i + 1;
        }
        assert(ks.subrange(0, i as int) =~= ks);
        None
    }

    /// Entering directory `dir`: when it is monitored (its normalized path
    /// is a monitored one, the first such counting), mark it reached and
    /// push it on `active`. Returns whether one was pushed, so the caller
    /// leaves it on the way back up.
    pub fn enter(&mut self, dir: &str, active: &mut Vec<usize>) -> (pushed: bool)
        requires
            old(self).wf(),
        ensures
            final(self).wf(),
            final(self).keys() == old(self).keys(),
            final(self).sizes() == old(self).sizes(),
            final(self).counts() == old(self).counts(),
            final(self).completed() == old(self).completed(),
            final(self).total() == old(self).total(),
            final(self).collector() == old(self).collector(),
            match first_index(old(self).keys(), normalize(dir@)) {
                Some(i) => {
                    &&& pushed
                    &&& final(self).reached_dirs() == old(self).reached_dirs().update(i, true)
                    &&& final(active)@ == old(active)@.push(i as usize)
                },
                None => {
                    &&& !pushed
                    &&& final(self).reached_dirs() == old(self).reached_dirs()
                    &&& final(active)@ == old(active)@
                },
            },
    {
        let key = norm_lower(dir);
        match self.find(&key) {
            Some(i) => {
                proof {
                    lemma_first_index_bound(self.keys(), key@);
                }
                self.reached.set(i, true);
                active.push(i);
                true
            },
            None => false,
        }
    }

    /// A file met by the walk: it is considered for the Top-N list and its
    /// size is charged to every directory on `active`, that is to every
    /// monitored directory that encloses it.
    pub fn on_file(&mut self, path: String, size: u64, active: &Vec<usize>)
        requires
            old(self).wf(),
            forall|k: int| 0 <= k < active.len() ==> active@[k] < old(self).keys().len(),
        ensures
            final(self).wf(),
            final(self).keys() == old(self).keys(),
            final(self).reached_dirs() == old(self).reached_dirs(),
            final(self).completed() == old(self).completed(),
            final(self).total() == old(self).total(),
            final(self).sizes() == charge(old(self).sizes(), active@, size),
            final(self).counts() == charge(old(self).counts(), active@, 1),
            final(self).collector().kept() == step(
                old(self).collector().kept(),
                (size, path@),
                old(self).collector().spec_min_bytes(),
                old(self).collector().spec_n(),
            ),
            final(self).collector().seen() == (if size >= old(self).collector().spec_min_bytes() {
                old(self).collector().seen().insert((size, path@))
            } else {
                old(self).collector().seen()
            }),
            final(self).collector().spec_min_bytes() == old(self).collector().spec_min_bytes(),
            final(self).collector().spec_n() == old(self).collector().spec_n(),
    {
        self.collector.consider(path, size);
        let ghost s0 = self.sizes@;
        let ghost c0 = self.counts@;
        let ghost keys0 = self.keys@;
        let ghost reached0 = self.reached@;
        let ghost coll0 = self.collector;
        let mut k: usize = 0;
        while k < active.len()
            invariant
                k <= active.len(),
                self.keys@ == keys0,
                self.reached@ == reached0,
                self.collector == coll0,
                self.reached.len() == self.keys.len(),
                self.completed == old(self).completed,
                self.total == old(self).total,
                forall|j: int| 0 <= j < active.len() ==> active@[j] < self.keys.len(),
                self.sizes.len() == self.keys.len(),
                self.counts.len() == self.keys.len(),
                self.sizes@ == charge(s0, active@.subrange(0, k as int), size),
                self.counts@ == charge(c0, active@.subrange(0, k as int), 1),
            decreases active.len() - k,
        {
            let i = active[k];
            proof {
                assert(active@.subrange(0, k + 1).drop_last() =~= active@.subrange(0, k as int));
                assert(active@.subrange(0, k + 1).last() == i);
            }
            let s = self.sizes[i].saturating_add(size);
            self.sizes.set(i, s);
            let c = self.counts[i].saturating_add(1);
            self.counts.set(i, c);
            k = k + 1;
        }
        assert(active@.subrange(0, k as int) =~= active@);
    }

    /// Count one more monitored directory as done; returns the new
    /// `(done, total)` for a progress report.
    pub fn note_done(&mut self) -> (r: (u64, u64))
        requires
            old(self).completed() < u64::MAX,
        ensures
            final(self).wf() == old(self).wf(),
            final(self).keys() == old(self).keys(),
            final(self).sizes() == old(self).sizes(),
            final(self).counts() == old(self).counts(),
            final(self).reached_dirs() == old(self).reached_dirs(),
            final(self).total() == old(self).total(),
            final(self).collector() == old(self).collector(),
            final(self).completed() == old(self).completed() + 1,
            r == (final(self).completed(), final(self).total()),
    {
        self.completed = self.completed + 1;
        (self.completed, self.total)
    }

    /// Leaving a monitored directory entered with `enter`: it is popped
    /// from `active` and counted as done; returns the progress report.
    pub fn leave(&mut self, active: &mut Vec<usize>) -> (r: (u64, u64))
        requires
            old(active).len() > 0,
            old(self).completed() < u64::MAX,
        ensures
            final(self).wf() == old(self).wf(),
            final(self).keys() == old(self).keys(),
            final(self).sizes() == old(self).sizes(),
            final(self).counts() == old(self).counts(),
            final(self).reached_dirs() == old(self).reached_dirs(),
            final(self).total() == old(self).total(),
            final(self).collector() == old(self).collector(),
            final(self).completed() == old(self).completed() + 1,
            final(active)@ == old(active)@.drop_last(),
            r == (final(self).completed(), final(self).total()),
    {
        active.pop();
        self.note_done()
    }

    /// Whether monitored directory `i` was entered during the walk.
    pub fn was_reached(&self, i: usize) -> (r: bool)
        requires
            self.wf(),
            i < self.keys().len(),
        ensures
            r == self.reached_dirs()[i as int],
    {
        self.reached[i]
    }
}

proof fn lemma_first_index_prefix(ks: Seq<Seq<char>>, key: Seq<char>, i: int)
    requires
        0 <= i < ks.len(),
        first_index(ks.subrange(0, i), key) is None,
        ks[i] == key,
    ensures
        first_index(ks, key) == Some(i),
    decreases ks.len(),
{
    if ks.len() == i + 1 {
        assert(ks.drop_last() =~= ks.subrange(0, i));
    } else {
        assert(ks.drop_last().subrange(0, i) =~= ks.subrange(0, i));
        lemma_first_index_prefix(ks.drop_last(), key, i);
    }
}

proof fn lemma_first_index_bound(ks: Seq<Seq<char>>, key: Seq<char>)
    ensures
        first_index(ks, key) matches Some(i) ==> 0 <= i < ks.len(),
    decreases ks.len(),
{
    if ks.len() > 0 {
        lemma_first_index_bound(ks.drop_last(), key);
    }
}

/// The content of a monitor entry.
pub struct MonitorView {
    pub path: Seq<char>,
    pub size_bytes: u64,
    pub file_count: u64,
    pub exists: bool,
    pub advice: CleanAdvice,
    pub advice_reason: Seq<char>,
}

/// The content of a monitor entry.
pub open spec fn monitor_view(e: MonitorEntry) -> MonitorView {
    MonitorView {
        path: e.path@,
        size_bytes: e.size_bytes,
        file_count: e.file_count,
        exists: e.exists,
        advice: e.advice,
        advice_reason: e.advice_reason@,
    }
}

/// The contents of a list of monitor entries.
pub open spec fn monitor_views(v: Seq<MonitorEntry>) -> Seq<MonitorView> {
    v.map_values(|e: MonitorEntry| monitor_view(e))
}

/// The entry for `path` with these totals, tagged with its advice.
pub open spec fn monitor_v(path: Seq<char>, size: u64, count: u64, exists: bool) -> MonitorView {
    MonitorView {
        path,
        size_bytes: size,
        file_count: count,
        exists,
        advice: spec_classify(path).0,
        advice_reason: spec_classify(path).1,
    }
}

impl Keyed for MonitorView {
    open spec fn key(&self) -> int {
        self.size_bytes as int
    }
}

impl Keyed for MonitorEntry {
    open spec fn key(&self) -> int {
        self.size_bytes as int
    }
}

impl SortKey for MonitorEntry {
    fn sort_key(&self) -> (k: u128) {
        self.size_bytes as u128
    }
}

/// The entry for `path` with the totals `summary`, tagged with its advice.
pub fn monitor_entry(path: String, summary: DirSummary, exists: bool) -> (r: MonitorEntry)
    ensures
        monitor_view(r) == monitor_v(path@, summary.size_bytes, summary.file_count, exists),
{
    let (advice, advice_reason) = classify(path.as_str());
    MonitorEntry {
        path,
        size_bytes: summary.size_bytes,
        file_count: summary.file_count,
        exists,
        advice,
        advice_reason,
    }
}

/// Sort entries by size, largest first, keeping the order of equal sizes.
pub fn sort_entries_desc(entries: &mut Vec<MonitorEntry>)
    ensures
        monitor_views(final(entries)@) == sort_by_key_desc(monitor_views(old(entries)@)),
{
    let ghost before = entries@;
    sort_desc(entries);
    proof {
        lemma_sort_map(before, |e: MonitorEntry| monitor_view(e));
    }
}

/// The entry of a monitored directory found (`Some` totals) or missing.
pub open spec fn probed_v(path: Seq<char>, found: Option<DirSummary>) -> MonitorView {
    match found {
        Some(s) => monitor_v(path, s.size_bytes, s.file_count, true),
        None => monitor_v(path, 0, 0, false),
    }
}

/// The entries of `dirs` in order, each with its walked totals or missing.
pub open spec fn probed_views(dirs: Seq<Seq<char>>, found: Seq<Option<DirSummary>>) -> Seq<MonitorView> {
    Seq::new(dirs.len(), |i: int| probed_v(dirs[i], found[i]))
}

/// The monitored directories `dirs`, given for each its totals when it
/// exists (`found[i]`, from walking it) or `None` when it is missing: the
/// entries sorted by size, largest first.
pub fn scan_monitor_dirs(dirs: &Vec<String>, found: &Vec<Option<DirSummary>>) -> (r: Vec<MonitorEntry>)
    requires
        found.len() == dirs.len(),
    ensures
        monitor_views(r@) == sort_by_key_desc(probed_views(dir_views(dirs@), found@)),
{
    let ghost dv = dir_views(dirs@);
    let mut out: Vec<MonitorEntry> = Vec::new();
    let mut i: usize = 0;
    while i < dirs.len()
        invariant
            dv == dir_views(dirs@),
            found.len() == dirs.len(),
            i <= dirs.len(),
            monitor_views(out@) == probed_views(dv, found@).subrange(0, i as int),
        decreases dirs.len() - i,
    {
        let ghost before = out@;
        let e = match found[i] {
            Some(s) => monitor_entry(dirs[i].clone(), s, true),
            None => monitor_entry(dirs[i].clone(), DirSummary { size_bytes: 0, file_count: 0 }, false),
        };
        out.push(e);
        assert(monitor_views(out@) =~= monitor_views(before).push(monitor_view(e)));
        i = i + 1;
        assert(probed_views(dv, found@).subrange(0, i as int) =~= probed_views(dv, found@).subrange(
            0,
            i - 1,
        ).push(probed_v(dv[i - 1], found@[i - 1])));
    }
    assert(probed_views(dv, found@).subrange(0, i as int) =~= probed_views(dv, found@));
    sort_entries_desc(&mut out);
    out
}

/// The entries of a directory drilled into, given each child's path and
/// totals (those of its walk for a subdirectory; one file of its size for
/// a file): largest first, equal sizes keeping the listing order.
pub fn list_children(children: Vec<(String, DirSummary)>) -> (r: Vec<MonitorEntry>)
    ensures
        monitor_views(r@) == sort_by_key_desc(
            children@.map_values(|c: (String, DirSummary)| monitor_v(c.0@, c.1.size_bytes, c.1.file_count, true)),
        ),
{
    let ghost cv = children@.map_values(
        |c: (String, DirSummary)| monitor_v(c.0@, c.1.size_bytes, c.1.file_count, true),
    );
    let mut out: Vec<MonitorEntry> = Vec::new();
    let mut i: usize = 0;
    while i < children.len()
        invariant
            i <= children.len(),
            cv == children@.map_values(
                |c: (String, DirSummary)| monitor_v(c.0@, c.1.size_bytes, c.1.file_count, true),
            ),
            monitor_views(out@) == cv.subrange(0, i as int),
        decreases children.len() - i,
    {
        let ghost before = out@;
        let e = monitor_entry(children[i].0.clone(), children[i].1, true);
        let ghost ev = monitor_view(e);
        out.push(e);
        assert(monitor_views(out@) =~= monitor_views(before).push(ev));
        assert(cv.subrange(0, i + 1) =~= cv.subrange(0, i as int).push(cv[i as int]));
        i = i + 1;
    }
    assert(cv.subrange(0, i as int) =~= cv);
    sort_entries_desc(&mut out);
    out
}

/// What becomes of a monitored directory once the drive walk is over.
#[derive(Debug, Clone, Copy, PartialEq, Eq, Structural)]
pub enum Unreached {
    /// The walk entered it; its totals are the walk's.
    Reached,
    /// The walk did not enter it and it does not exist.
    Missing,
    /// It lies on the C: drive but the walk did not enter it: zero totals.
    OnDrive,
    /// It lies on another drive: it is walked on its own.
    Elsewhere,
}

impl DriveScan {
    /// What to do with monitored directory `i`, at path `raw`, after the
    /// walk, given whether it exists. Every case but `Reached` counts one
    /// more directory as done.
    pub fn after_walk(&self, i: usize, raw: &str, exists: bool) -> (r: Unreached)
        requires
            self.wf(),
            i < self.keys().len(),
        ensures
            r == (if self.reached_dirs()[i as int] {
                Unreached::Reached
            } else if !exists {
                Unreached::Missing
            } else if spec_is_on_c_drive(raw@) {
                Unreached::OnDrive
            } else {
                Unreached::Elsewhere
            }),
    {
        if self.reached[i] {
            Unreached::Reached
        } else if !exists {
            Unreached::Missing
        } else if is_on_c_drive(raw) {
            Unreached::OnDrive
        } else {
            Unreached::Elsewhere
        }
    }
}

impl DriveScan {
    /// The entry of monitored directory `i` at path `raw`: the walk's
    /// totals when it was reached; else, given `found` (`None` when it does
    /// not exist), the totals of its own walk when it lies off the C:
    /// drive, or nothing when the drive walk should have met it.
    pub open spec fn final_view(&self, i: int, raw: Seq<char>, found: Option<DirSummary>) -> MonitorView {
        if self.reached_dirs()[i] {
            monitor_v(raw, self.sizes()[i], self.counts()[i], true)
        } else {
            match found {
                None => monitor_v(raw, 0, 0, false),
                Some(s) => if spec_is_on_c_drive(raw) {
                    monitor_v(raw, 0, 0, true)
                } else {
                    monitor_v(raw, s.size_bytes, s.file_count, true)
                },
            }
        }
    }

    /// The snapshot of a finished scan of the monitored directories `dirs`
    /// (the ones the scan was made with). For each directory the walk did
    /// not reach, `found[i]` gives whether it exists and, when it lies off
    /// the C: drive, the totals of walking it. The monitor entries are
    /// sorted by size, largest first; the large files are the collector's.
    /// The snapshot is stamped with `timestamp`.
    pub fn finish(
        self,
        dirs: &Vec<String>,
        found: &Vec<Option<DirSummary>>,
        timestamp: String,
        drive_total: u64,
        drive_used: u64,
    ) -> (r: MonitorSnapshot)
        requires
            self.wf(),
            dirs.len() == self.keys().len(),
            found.len() == dirs.len(),
        ensures
            monitor_views(r.monitor_dirs@) == sort_by_key_desc(
                Seq::new(dirs.len() as nat, |i: int| self.final_view(i, dirs@[i]@, found@[i])),
            ),
            r.large_files@.map_values(|e: LargeFileEntry| (e.size_bytes, e.path@)).to_multiset()
                == self.collector().kept(),
            crate::sort::sorted_desc(r.large_files@.map_values(|e: LargeFileEntry| e.size_bytes as int)),
            forall|i: int|
                0 <= i < r.large_files.len() ==> (#[trigger] r.large_files@[i].advice, r.large_files@[i].advice_reason@)
                    == spec_classify(r.large_files@[i].path@),
            r.scan_type@ == "full"@,
            r.drive_total == drive_total,
            r.drive_used == drive_used,
            r.timestamp@ == timestamp@,
            largest_of(self.collector().kept(), self.collector().seen(), self.collector().spec_n()),
    {
        proof {
            lemma_collector_keeps_largest(self.collector());
        }
        let ghost target = Seq::new(dirs.len() as nat, |i: int| self.final_view(i, dirs@[i]@, found@[i]));
        let mut out: Vec<MonitorEntry> = Vec::new();
        let mut i: usize = 0;
        while i < dirs.len()
            invariant
                self.wf(),
                dirs.len() == self.keys().len(),
                found.len() == dirs.len(),
                target == Seq::new(dirs.len() as nat, |i: int| self.final_view(i, dirs@[i]@, found@[i])),
                i <= dirs.len(),
                monitor_views(out@) == target.subrange(0, i as int),
            decreases dirs.len() - i,
        {
            let ghost before = out@;
            let raw = dirs[i].clone();
            let e = if self.reached[i] {
                monitor_entry(raw, DirSummary { size_bytes: self.sizes[i], file_count: self.counts[i] }, true)
            } else {
                match found[i] {
                    None => monitor_entry(raw, DirSummary { size_bytes: 0, file_count: 0 }, false),
                    Some(s) => {
                        if is_on_c_drive(raw.as_str()) {
                            monitor_entry(raw, DirSummary { size_bytes: 0, file_count: 0 }, true)
                        } else {
                            monitor_entry(raw, s, true)
                        }
                    },
                }
            };
            out.push(e);
            assert(monitor_views(out@) =~= monitor_views(before).push(monitor_view(e)));
            i = i + 1;
            assert(target.subrange(0, i as int) =~= target.subrange(0, i - 1).push(target[i - 1]));
        }
        assert(target.subrange(0, i as int) =~= target);
        sort_entries_desc(&mut out);
        let large = self.collector.finish();
        MonitorSnapshot {
            timestamp,
            scan_type: "full".to_owned(),
            drive_total,
            drive_used,
            monitor_dirs: out,
            large_files: large,
        }
    }
}

/// What a finished scan reports for each monitored directory `dirs[i]`:
/// one entry for that path, holding the walk's totals when the drive walk
/// reached it; when it did not, zero totals and `exists` false if it does
/// not exist, zero totals if it lies on the C: drive (the walk would have
/// met anything in it), and otherwise the totals of its own walk.
pub proof fn lemma_finish_reports_each_dir(
    scan: DriveScan,
    dirs: Seq<Seq<char>>,
    found: Seq<Option<DirSummary>>,
    i: int,
)
    requires
        dirs.len() == scan.keys().len(),
        found.len() == dirs.len(),
        0 <= i < dirs.len(),
    ensures
        ({
            let r = sort_by_key_desc(Seq::new(dirs.len() as nat, |j: int| scan.final_view(j, dirs[j], found[j])));
            exists|k: int|
                0 <= k < r.len() && (#[trigger] r[k]).path == dirs[i] && (if scan.reached_dirs()[i] {
                    r[k].size_bytes == scan.sizes()[i] && r[k].file_count == scan.counts()[i] && r[k].exists
                } else {
                    match found[i] {
                        None => r[k].size_bytes == 0 && r[k].file_count == 0 && !r[k].exists,
                        Some(own) => r[k].exists && if spec_is_on_c_drive(dirs[i]) {
                            r[k].size_bytes == 0 && r[k].file_count == 0
                        } else {
                            r[k].size_bytes == own.size_bytes && r[k].file_count == own.file_count
                        },
                    }
                })
        }),
{
    let u = Seq::new(dirs.len() as nat, |j: int| scan.final_view(j, dirs[j], found[j]));
    let r = sort_by_key_desc(u);
    crate::sort::lemma_sort_props(u);
    crate::sort::lemma_perm_member(r, u, i);
    let k = choose|k: int| 0 <= k < r.len() && r[k] == u[i];
    assert(r[k] == scan.final_view(i, dirs[i], found[i]));
}

} // verus!
