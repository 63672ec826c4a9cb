//! Differences between two analyzer snapshots.
//!
//! Monitor directories are merged by path. Large files are merged by path as
//! well, and moves are suppressed: a file only in the older snapshot that
//! pairs with a file only in the newer one of the same extension and a size
//! within 5% becomes one `moved` entry instead of a `removed` and an `added`.
use vstd::prelude::*;
use crate::lexsort::{lemma_lex_sort_map, sort_by_lex_key, sort_lex};
use crate::models::{LargeFileEntry, MonitorEntry, MonitorSnapshot};
use crate::sort::{keys, lemma_sort_map, sort_by_key_desc, sort_desc, sorted_desc, Keyed, SortKey};
use crate::text::{after_last, chars_eq, chars_of, eq_lit, split_after_last, string_of};

verus! {

/// A path and a size.
pub type Pair = (Seq<char>, u64);

/// Some entry of `c` has path `p`.
pub open spec fn has_key(c: Seq<Pair>, p: Seq<char>) -> bool {
    exists|k: int| 0 <= k < c.len() && c[k].0 == p
}

/// The position of an entry of `c` with path `p`.
pub open spec fn key_index(c: Seq<Pair>, p: Seq<char>) -> int {
    choose|k: int| 0 <= k < c.len() && c[k].0 == p
}

/// No two entries of `c` share a path.
pub open spec fn distinct_keys(c: Seq<Pair>) -> bool {
    forall|i: int, j: int| 0 <= i < c.len() && 0 <= j < c.len() && i != j ==> c[i].0 != c[j].0
}

/// `c` with the entry for `x.0` set to `x`, or `x` appended when absent: a
/// later value for a path overwrites an earlier one, as when collecting into
/// a map, and paths keep the order in which they first appear.
pub open spec fn upsert(c: Seq<Pair>, x: Pair) -> Seq<Pair> {
    if has_key(c, x.0) {
        c.update(key_index(c, x.0), x)
    } else {
        c.push(x)
    }
}

/// The entries of `s` merged by path.
pub open spec fn collapse(s: Seq<Pair>) -> Seq<Pair>
    decreases s.len(),
{
    if s.len() == 0 {
        Seq::<Pair>::empty()
    } else {
        upsert(collapse(s.drop_last()), s.last())
    }
}

/// The size recorded for path `p` in merged entries `c`.
pub open spec fn lookup(c: Seq<Pair>, p: Seq<char>) -> Option<u64> {
    if has_key(c, p) {
        Some(c[key_index(c, p)].1)
    } else {
        None
    }
}

proof fn lemma_key_index_unique(c: Seq<Pair>, k: int)
    requires
        distinct_keys(c),
        0 <= k < c.len(),
    ensures
        has_key(c, c[k].0),
        key_index(c, c[k].0) == k,
{
    let p = c[k].0;
    assert(has_key(c, p));
    let j = key_index(c, p);
    assert(c[j].0 == p);
}

proof fn lemma_collapse_distinct(s: Seq<Pair>)
    ensures
        distinct_keys(collapse(s)),
    decreases s.len(),
{
    if s.len() > 0 {
        let c = collapse(s.drop_last());
        lemma_collapse_distinct(s.drop_last());
        let x = s.last();
        if has_key(c, x.0) {
            let k = key_index(c, x.0);
            let r = c.update(k, x);
            assert forall|i: int, j: int| 0 <= i < r.len() && 0 <= j < r.len() && i != j implies r[i].0 != r[j].0 by {
                if i == k || j == k {
                } else {
                }
            }
        } else {
            let r = c.push(x);
            assert forall|i: int, j: int| 0 <= i < r.len() && 0 <= j < r.len() && i != j implies r[i].0 != r[j].0 by {
                if i == c.len() as int {
                    assert(!(0 <= j < c.len() && c[j].0 == x.0));
                } else if j == c.len() as int {
                    assert(!(0 <= i < c.len() && c[i].0 == x.0));
                }
            }
        }
    }
}

/// Entries as paths (characters) and sizes.
pub type Entries = Vec<(Vec<char>, u64)>;

/// The path-and-size view of stored entries.
pub open spec fn pairs(v: Seq<(Vec<char>, u64)>) -> Seq<Pair> {
    v.map_values(|e: (Vec<char>, u64)| (e.0@, e.1))
}

/// The position of the entry with path `p`, if any.
fn find_key(c: &Entries, p: &Vec<char>) -> (r: Option<usize>)
    requires
        distinct_keys(pairs(c@)),
    ensures
        match r {
            Some(k) => k < c.len() && has_key(pairs(c@), p@) && key_index(pairs(c@), p@) == k,
            None => !has_key(pairs(c@), p@),
        },
{
    let ghost cs = pairs(c@);
    let mut k: usize = 0;
    while k < c.len()
        invariant
            cs == pairs(c@),
            distinct_keys(cs),
            k <= c.len(),
            forall|j: int| 0 <= j < k ==> cs[j].0 != p@,
        decreases c.len() - k,
    {
        if chars_eq(&c[k].0, p) {
            proof {
                lemma_key_index_unique(cs, k as int);
            }
            return Some(k);
        }
        k = k + 1;
    }
    None
}

/// The size recorded for `p`.
fn lookup_size(c: &Entries, p: &Vec<char>) -> (r: Option<u64>)
    requires
        distinct_keys(pairs(c@)),
    ensures
        r == lookup(pairs(c@), p@),
{
    match find_key(c, p) {
        Some(k) => Some(c[k].1),
        None => None,
    }
}

/// Merge `v` by path: later sizes overwrite earlier ones.
fn collapse_entries(v: Entries) -> (r: Entries)
    ensures
        pairs(r@) == collapse(pairs(v@)),
        distinct_keys(pairs(r@)),
{
    let ghost vs = pairs(v@);
    let mut out: Entries = Vec::new();
    let mut src = v;
    let ghost all = src@;
    let mut i: usize = 0;
    let n = src.len();
    proof {
        assert(pairs(out@) =~= collapse(vs.subrange(0, 0)));
    }
    while i < n
        invariant
            n == all.len(),
            vs == pairs(all),
            i <= n,
            src@ == all.subrange(i as int, n as int),
            pairs(out@) == collapse(vs.subrange(0, i as int)),
            distinct_keys(pairs(out@)),
        decreases n - i,
    {
        let x = src.remove(0);
        let ghost before = pairs(out@);
        proof {
            assert(vs.subrange(0, i + 1).drop_last() =~= vs.subrange(0, i as int));
            assert(vs.subrange(0, i + 1).last() == (x.0@, x.1));
            lemma_collapse_distinct(vs.subrange(0, i + 1));
        }
        match find_key(&out, &x.0) {
            Some(k) => {
                out.set(k, x);
                assert(pairs(out@) =~= before.update(k as int, (x.0@, x.1)));
            },
            None => {
                out.push(x);
                assert(pairs(out@) =~= before.push((x.0@, x.1)));
            },
        }
        i = i + 1;
        assert(src@ =~= all.subrange(i as int, n as int));
    }
    assert(vs.subrange(0, n as int) =~= vs);
    out
}

/// One line of a snapshot diff.
///
/// `kind` is `changed`, `added`, `removed` or `moved`. The percentage
/// change is `pct_num / pct_den * 100`.
#[derive(Debug, Clone)]
pub struct DirDelta {
    pub path: String,
    pub kind: String,
    pub prev_bytes: u64,
    pub curr_bytes: u64,
    pub delta_bytes: i64,
    pub pct_num: i64,
    pub pct_den: u64,
}

/// The mathematical content of a `DirDelta`.
pub struct DeltaView {
    pub path: Seq<char>,
    pub kind: Seq<char>,
    pub prev_bytes: u64,
    pub curr_bytes: u64,
    pub delta_bytes: int,
    pub pct_num: int,
    pub pct_den: int,
}

impl View for DirDelta {
    type V = DeltaView;

    open spec fn view(&self) -> DeltaView {
        DeltaView {
            path: self.path@,
            kind: self.kind@,
            prev_bytes: self.prev_bytes,
            curr_bytes: self.curr_bytes,
            delta_bytes: self.delta_bytes as int,
            pct_num: self.pct_num as int,
            pct_den: self.pct_den as int,
        }
    }
}

/// Rank used to order a diff: `moved` entries after all others, then by
/// the size of the change, largest first.
pub open spec fn delta_key(kind: Seq<char>, delta: int) -> int {
    (if kind == "moved"@ { 0int } else { 0x1_0000_0000_0000_0000int }) + (if delta < 0 {
        -delta
    } else {
        delta
    })
}

impl Keyed for DeltaView {
    open spec fn key(&self) -> int {
        delta_key(self.kind, self.delta_bytes)
    }
}

impl Keyed for DirDelta {
    open spec fn key(&self) -> int {
        delta_key(self.kind@, self.delta_bytes as int)
    }
}

impl SortKey for DirDelta {
    fn sort_key(&self) -> (k: u128) {
        let kind = chars_of(self.kind.as_str());
        let rank: u128 = if eq_lit(&kind, "moved") {
            0
        } else {
            0x1_0000_0000_0000_0000
        };
        let d = self.delta_bytes as i128;
        let mag: u128 = if d < 0 {
            (-d) as u128
        } else {
            d as u128
        };
        rank + mag
    }
}

/// A delta whose percentage is computed from the sizes: `0` when both are
/// zero, `100` when it grew from zero, else the change over the old size.
pub open spec fn make_delta_v(path: Seq<char>, kind: Seq<char>, prev: u64, curr: u64) -> DeltaView {
    DeltaView {
        path,
        kind,
        prev_bytes: prev,
        curr_bytes: curr,
        delta_bytes: curr - prev,
        pct_num: if prev == 0 {
            if curr == 0 {
                0
            } else {
                1
            }
        } else {
            curr - prev
        },
        pct_den: if prev == 0 {
            1
        } else {
            prev as int
        },
    }
}

/// A path that disappeared: its whole size is lost (`-100%`).
pub open spec fn removed_v(path: Seq<char>, prev: u64) -> DeltaView {
    DeltaView {
        path,
        kind: "removed"@,
        prev_bytes: prev,
        curr_bytes: 0,
        delta_bytes: -prev,
        pct_num: -1,
        pct_den: 1,
    }
}

/// A file found again at `path` under another name: no change is counted.
pub open spec fn moved_v(path: Seq<char>, prev: u64, curr: u64) -> DeltaView {
    DeltaView {
        path,
        kind: "moved"@,
        prev_bytes: prev,
        curr_bytes: curr,
        delta_bytes: 0,
        pct_num: 0,
        pct_den: 1,
    }
}

/// The delta for one monitored path, if it changed, appeared or vanished.
pub open spec fn key_delta(p: Seq<char>, pc: Seq<Pair>, cc: Seq<Pair>) -> Option<DeltaView> {
    match (lookup(pc, p), lookup(cc, p)) {
        (Some(a), Some(b)) => if a != b {
            Some(make_delta_v(p, "changed"@, a, b))
        } else {
            None
        },
        (Some(a), None) => Some(removed_v(p, a)),
        (None, Some(b)) => Some(make_delta_v(p, "added"@, 0, b)),
        (None, None) => None,
    }
}

/// Deltas for the paths `ks`, in that order.
pub open spec fn monitor_deltas(ks: Seq<Seq<char>>, pc: Seq<Pair>, cc: Seq<Pair>) -> Seq<DeltaView>
    decreases ks.len(),
{
    if ks.len() == 0 {
        Seq::<DeltaView>::empty()
    } else {
        let d = monitor_deltas(ks.drop_last(), pc, cc);
        match key_delta(ks.last(), pc, cc) {
            Some(x) => d.push(x),
            None => d,
        }
    }
}

/// The paths of `pc`, then those of `cc` that `pc` lacks.
pub open spec fn union_paths(pc: Seq<Pair>, cc: Seq<Pair>) -> Seq<Seq<char>> {
    pc.map_values(|x: Pair| x.0) + only_in(cc, pc).map_values(|x: Pair| x.0)
}

/// The entries of `a` whose path `b` lacks, in order.
pub open spec fn only_in(a: Seq<Pair>, b: Seq<Pair>) -> Seq<Pair>
    decreases a.len(),
{
    if a.len() == 0 {
        a
    } else if has_key(b, a.last().0) {
        only_in(a.drop_last(), b)
    } else {
        only_in(a.drop_last(), b).push(a.last())
    }
}

/// `changed` deltas for files present in both, in the order of `pc`.
pub open spec fn changed_deltas(pc: Seq<Pair>, cc: Seq<Pair>) -> Seq<DeltaView>
    decreases pc.len(),
{
    if pc.len() == 0 {
        Seq::<DeltaView>::empty()
    } else {
        let d = changed_deltas(pc.drop_last(), cc);
        let x = pc.last();
        match lookup(cc, x.0) {
            Some(c) => if c != x.1 {
                d.push(make_delta_v(x.0, "changed"@, x.1, c))
            } else {
                d
            },
            None => d,
        }
    }
}

/// The extension used to pair moved files: the text after the last `.`
/// (all of the path when it has none), or empty when that text holds a
/// path separator.
pub open spec fn ext_of(path: Seq<char>) -> Seq<char> {
    let t = match after_last(path, '.') {
        Some(t) => t,
        None => path,
    };
    if t.contains('\\') || t.contains('/') {
        Seq::<char>::empty()
    } else {
        t
    }
}

/// `a` and `b` differ by at most 5% of the larger one.
pub open spec fn within_5pct(a: u64, b: u64) -> bool {
    let max: int = if a > b { a as int } else { b as int };
    let diff: int = if a > b { a - b } else { b - a };
    max == 0 || diff * 20 <= max
}

/// `y` is a candidate new location for the vanished file `x`.
pub open spec fn move_match(x: Pair, y: Pair) -> bool {
    ext_of(x.0) == ext_of(y.0) && within_5pct(x.1, y.1)
}

/// The first unused entry of `co` from position `i` on that `x` pairs with.
pub open spec fn match_from(co: Seq<Pair>, used: Seq<bool>, x: Pair, i: int) -> Option<int>
    decreases co.len() - i,
{
    if i < 0 || i >= co.len() {
        None
    } else if !used[i] && move_match(x, co[i]) {
        Some(i)
    } else {
        match_from(co, used, x, i + 1)
    }
}

/// Each vanished file, in order, takes the first free new file it pairs
/// with (a `moved` delta at the new path) or is reported `removed`; also
/// gives which new files were taken.
pub open spec fn pair_moves(po: Seq<Pair>, co: Seq<Pair>, used: Seq<bool>) -> (Seq<DeltaView>, Seq<bool>)
    decreases po.len(),
{
    if po.len() == 0 {
        (Seq::<DeltaView>::empty(), used)
    } else {
        let x = po[0];
        match match_from(co, used, x, 0) {
            Some(i) => {
                let r = pair_moves(po.drop_first(), co, used.update(i, true));
                (seq![moved_v(co[i].0, x.1, co[i].1)] + r.0, r.1)
            },
            None => {
                let r = pair_moves(po.drop_first(), co, used);
                (seq![removed_v(x.0, x.1)] + r.0, r.1)
            },
        }
    }
}

/// `added` deltas for the new files not taken by a move.
pub open spec fn added_deltas(co: Seq<Pair>, used: Seq<bool>) -> Seq<DeltaView>
    decreases co.len(),
{
    if co.len() == 0 || used.len() != co.len() {
        Seq::<DeltaView>::empty()
    } else {
        let d = added_deltas(co.drop_last(), used.drop_last());
        if !used.last() {
            d.push(make_delta_v(co.last().0, "added"@, 0, co.last().1))
        } else {
            d
        }
    }
}

/// The diff of two snapshots given as monitor entries and large files,
/// before ordering.
pub open spec fn unordered_diff(pm: Seq<Pair>, cm: Seq<Pair>, pl: Seq<Pair>, cl: Seq<Pair>) -> Seq<
    DeltaView,
> {
    let pc = collapse(pm);
    let cc = collapse(cm);
    let ks = sort_by_lex_key(union_paths(pc, cc));
    let pf = collapse(pl);
    let cf = collapse(cl);
    let po = only_in(pf, cf);
    let co = only_in(cf, pf);
    let moves = pair_moves(po, co, Seq::new(co.len(), |i: int| false));
    monitor_deltas(ks, pc, cc) + changed_deltas(pf, cf) + moves.0 + added_deltas(co, moves.1)
}

/// The diff of two snapshots: `moved` entries last, the others by the size
/// of the change, largest first; equal ranks keep their order.
pub open spec fn spec_diff(pm: Seq<Pair>, cm: Seq<Pair>, pl: Seq<Pair>, cl: Seq<Pair>) -> Seq<DeltaView> {
    sort_by_key_desc(unordered_diff(pm, cm, pl, cl))
}

/// Path-and-size view of monitor entries.
pub open spec fn monitor_pairs(v: Seq<MonitorEntry>) -> Seq<Pair> {
    v.map_values(|e: MonitorEntry| (e.path@, e.size_bytes))
}

/// Path-and-size view of large-file entries.
pub open spec fn file_pairs(v: Seq<LargeFileEntry>) -> Seq<Pair> {
    v.map_values(|e: LargeFileEntry| (e.path@, e.size_bytes))
}

/// Every size in `s` fits in an `i64`.
pub open spec fn sizes_fit(s: Seq<Pair>) -> bool {
    forall|i: int| 0 <= i < s.len() ==> s[i].1 <= i64::MAX
}

proof fn lemma_upsert_fit(c: Seq<Pair>, x: Pair)
    requires
        sizes_fit(c),
        x.1 <= i64::MAX,
    ensures
        sizes_fit(upsert(c, x)),
{
}

proof fn lemma_collapse_fit(s: Seq<Pair>)
    requires
        sizes_fit(s),
    ensures
        sizes_fit(collapse(s)),
    decreases s.len(),
{
    if s.len() > 0 {
        lemma_collapse_fit(s.drop_last());
        lemma_upsert_fit(collapse(s.drop_last()), s.last());
    }
}

proof fn lemma_only_in_props(a: Seq<Pair>, b: Seq<Pair>)
    requires
        sizes_fit(a),
    ensures
        sizes_fit(only_in(a, b)),
        forall|i: int| 0 <= i < only_in(a, b).len() ==> !has_key(b, #[trigger] only_in(a, b)[i].0),
    decreases a.len(),
{
    if a.len() > 0 {
        lemma_only_in_props(a.drop_last(), b);
    }
}

/// Path-and-size entries of monitor entries.
fn monitor_entries(v: &Vec<MonitorEntry>) -> (r: Entries)
    ensures
        pairs(r@) == monitor_pairs(v@),
{
    let mut r: Entries = Vec::new();
    let mut i: usize = 0;
    while i < v.len()
        invariant
            i <= v.len(),
            pairs(r@) == monitor_pairs(v@.subrange(0, i as int)),
        decreases v.len() - i,
    {
        let e = (chars_of(v[i].path.as_str()), v[i].size_bytes);
        let ghost before = r@;
        r.push(e);
        assert(r@ == before.push(e));
        assert(pairs(r@) =~= pairs(before).push((e.0@, e.1)));
        assert(v@.subrange(0, i + 1) =~= v@.subrange(0, i as int).push(v@[i as int]));
        assert(monitor_pairs(v@.subrange(0, i + 1)) =~= monitor_pairs(v@.subrange(0, i as int)).push((e.0@, e.1)));
        i = i + 1;
    }
    assert(v@.subrange(0, i as int) =~= v@);
    r
}

/// Path-and-size entries of large files.
fn file_entries(v: &Vec<LargeFileEntry>) -> (r: Entries)
    ensures
        pairs(r@) == file_pairs(v@),
{
    let mut r: Entries = Vec::new();
    let mut i: usize = 0;
    while i < v.len()
        invariant
            i <= v.len(),
            pairs(r@) == file_pairs(v@.subrange(0, i as int)),
        decreases v.len() - i,
    {
        let e = (chars_of(v[i].path.as_str()), v[i].size_bytes);
        let ghost before = r@;
        r.push(e);
        assert(r@ == before.push(e));
        assert(pairs(r@) =~= pairs(before).push((e.0@, e.1)));
        assert(v@.subrange(0, i + 1) =~= v@.subrange(0, i as int).push(v@[i as int]));
        assert(file_pairs(v@.subrange(0, i + 1)) =~= file_pairs(v@.subrange(0, i as int)).push((e.0@, e.1)));
        i = i + 1;
    }
    assert(v@.subrange(0, i as int) =~= v@);
    r
}

/// The entries of `a` whose path `b` lacks.
fn only_in_entries(a: &Entries, b: &Entries) -> (r: Entries)
    requires
        distinct_keys(pairs(b@)),
    ensures
        pairs(r@) == only_in(pairs(a@), pairs(b@)),
{
    let ghost pa = pairs(a@);
    let mut r: Entries = Vec::new();
    let mut i: usize = 0;
    while i < a.len()
        invariant
            pa == pairs(a@),
            distinct_keys(pairs(b@)),
            i <= a.len(),
            pairs(r@) == only_in(pa.subrange(0, i as int), pairs(b@)),
        decreases a.len() - i,
    {
        proof {
            assert(pa.subrange(0, i + 1).drop_last() =~= pa.subrange(0, i as int));
        }
        if find_key(b, &a[i].0).is_none() {
            r.push((a[i].0.clone(), a[i].1));
            assert(pairs(r@) =~= only_in(pa.subrange(0, i as int), pairs(b@)).push(pa[i as int]));
        }
        i = i + 1;
    }
    assert(pa.subrange(0, i as int) =~= pa);
    r
}

/// A delta whose percentage is computed from the sizes.
fn make_delta(path: &Vec<char>, kind: &str, prev: u64, curr: u64) -> (r: DirDelta)
    requires
        prev <= i64::MAX,
        curr <= i64::MAX,
    ensures
        r@ == make_delta_v(path@, kind@, prev, curr),
{
    let delta = curr as i64 - prev as i64;
    let (pct_num, pct_den): (i64, u64) = if prev == 0 {
        if curr == 0 {
            (0, 1)
        } else {
            (1, 1)
        }
    } else {
        (delta, prev)
    };
    DirDelta {
        path: string_of(path),
        kind: kind.to_owned(),
        prev_bytes: prev,
        curr_bytes: curr,
        delta_bytes: delta,
        pct_num,
        pct_den,
    }
}

/// The delta of a path that disappeared.
fn removed_delta(path: &Vec<char>, prev: u64) -> (r: DirDelta)
    requires
        prev <= i64::MAX,
    ensures
        r@ == removed_v(path@, prev),
{
    DirDelta {
        path: string_of(path),
        kind: "removed".to_owned(),
        prev_bytes: prev,
        curr_bytes: 0,
        delta_bytes: -(prev as i64),
        pct_num: -1,
        pct_den: 1,
    }
}

/// The delta of a file found again at `path`.
fn moved_delta(path: &Vec<char>, prev: u64, curr: u64) -> (r: DirDelta)
    ensures
        r@ == moved_v(path@, prev, curr),
{
    DirDelta {
        path: string_of(path),
        kind: "moved".to_owned(),
        prev_bytes: prev,
        curr_bytes: curr,
        delta_bytes: 0,
        pct_num: 0,
        pct_den: 1,
    }
}

/// The views of a list of deltas.
pub open spec fn views(v: Seq<DirDelta>) -> Seq<DeltaView> {
    v.map_values(|d: DirDelta| d@)
}

/// Whether `s` holds the character `c`.
fn holds_char(s: &Vec<char>, c: char) -> (r: bool)
    ensures
        r == s@.contains(c),
{
    let mut i: usize = 0;
    while i < s.len()
        invariant
            i <= s.len(),
            forall|k: int| 0 <= k < i ==> s@[k] != c,
        decreases s.len() - i,
    {
        if s[i] == c {
            return true;
        }
        i = i + 1;
    }
    false
}

/// The extension used to pair moved files.
fn extension_of(path: &Vec<char>) -> (r: Vec<char>)
    ensures
        r@ == ext_of(path@),
{
    let t = match split_after_last(path, '.') {
        Some(t) => t,
        None => path.clone(),
    };
    if holds_char(&t, '\\') || holds_char(&t, '/') {
        Vec::new()
    } else {
        t
    }
}

/// Whether `a` and `b` differ by at most 5% of the larger one.
fn is_within_5pct(a: u64, b: u64) -> (r: bool)
    ensures
        r == within_5pct(a, b),
{
    let max: u128 = if a > b { a as u128 } else { b as u128 };
    let diff: u128 = if a > b { (a - b) as u128 } else { (b - a) as u128 };
    max == 0 || diff * 20 <= max
}

/// Whether `y` is a candidate new location for the vanished file `x`.
fn is_move_match(x: &(Vec<char>, u64), y: &(Vec<char>, u64)) -> (r: bool)
    ensures
        r == move_match((x.0@, x.1), (y.0@, y.1)),
{
    let ex = extension_of(&x.0);
    let ey = extension_of(&y.0);
    chars_eq(&ex, &ey) && is_within_5pct(x.1, y.1)
}

/// The paths of `pc`, then those of `cc` that `pc` lacks, in ascending order.
fn sorted_union(pc: &Entries, cc: &Entries) -> (r: Vec<Vec<char>>)
    requires
        distinct_keys(pairs(pc@)),
    ensures
        r@.map_values(|v: Vec<char>| v@) == sort_by_lex_key(union_paths(pairs(pc@), pairs(cc@))),
{
    let only = only_in_entries(cc, pc);
    let mut ks: Vec<Vec<char>> = Vec::new();
    let mut i: usize = 0;
    while i < pc.len()
        invariant
            i <= pc.len(),
            ks@.map_values(|v: Vec<char>| v@) == pairs(pc@).subrange(0, i as int).map_values(|x: Pair| x.0),
        decreases pc.len() - i,
    {
        let ghost before = ks@;
        let k = pc[i].0.clone();
        ks.push(k);
        assert(ks@.map_values(|v: Vec<char>| v@) =~= before.map_values(|v: Vec<char>| v@).push(k@));
        i = i + 1;
        assert(pairs(pc@).subrange(0, i as int).map_values(|x: Pair| x.0) =~= pairs(pc@).subrange(
            0,
            i - 1,
        ).map_values(|x: Pair| x.0).push(k@));
    }
    let mut j: usize = 0;
    while j < only.len()
        invariant
            j <= only.len(),
            ks@.map_values(|v: Vec<char>| v@) == pairs(pc@).map_values(|x: Pair| x.0) + pairs(
                only@,
            ).subrange(0, j as int).map_values(|x: Pair| x.0),
        decreases only.len() - j,
    {
        let ghost before = ks@;
        let k = only[j].0.clone();
        ks.push(k);
        assert(ks@.map_values(|v: Vec<char>| v@) =~= before.map_values(|v: Vec<char>| v@).push(k@));
        j = j + 1;
        assert(pairs(only@).subrange(0, j as int).map_values(|x: Pair| x.0) =~= pairs(
            only@,
        ).subrange(0, j - 1).map_values(|x: Pair| x.0).push(k@));
    }
    assert(pairs(pc@).subrange(0, pc.len() as int) =~= pairs(pc@));
    assert(pairs(only@).subrange(0, only.len() as int) =~= pairs(only@));
    let ghost unsorted = ks@;
    sort_lex(&mut ks);
    proof {
        lemma_lex_sort_map(unsorted, |v: Vec<char>| v@);
    }
    ks
}

proof fn lemma_lookup_fit(c: Seq<Pair>, p: Seq<char>)
    requires
        sizes_fit(c),
    ensures
        lookup(c, p) matches Some(v) ==> v <= i64::MAX,
{
    if has_key(c, p) {
        let k = key_index(c, p);
        assert(0 <= k < c.len());
    }
}

/// Deltas for the merged monitor entries.
fn monitor_part(pc: &Entries, cc: &Entries) -> (r: Vec<DirDelta>)
    requires
        distinct_keys(pairs(pc@)),
        distinct_keys(pairs(cc@)),
        sizes_fit(pairs(pc@)),
        sizes_fit(pairs(cc@)),
    ensures
        views(r@) == monitor_deltas(
            sort_by_lex_key(union_paths(pairs(pc@), pairs(cc@))),
            pairs(pc@),
            pairs(cc@),
        ),
{
    let ks = sorted_union(pc, cc);
    let ghost kv = ks@.map_values(|v: Vec<char>| v@);
    let mut r: Vec<DirDelta> = Vec::new();
    let mut i: usize = 0;
    while i < ks.len()
        invariant
            kv == ks@.map_values(|v: Vec<char>| v@),
            distinct_keys(pairs(pc@)),
            distinct_keys(pairs(cc@)),
            sizes_fit(pairs(pc@)),
            sizes_fit(pairs(cc@)),
            i <= ks.len(),
            views(r@) == monitor_deltas(kv.subrange(0, i as int), pairs(pc@), pairs(cc@)),
        decreases ks.len() - i,
    {
        let k = &ks[i];
        proof {
            assert(kv.subrange(0, i + 1).drop_last() =~= kv.subrange(0, i as int));
            assert(kv.subrange(0, i + 1).last() == k@);
            lemma_lookup_fit(pairs(pc@), k@);
            lemma_lookup_fit(pairs(cc@), k@);
        }
        let ghost before = r@;
        match (lookup_size(pc, k), lookup_size(cc, k)) {
            (Some(a), Some(b)) => {
                if a != b {
                    let d = make_delta(k, "changed", a, b);
                    r.push(d);
                    assert(views(r@) =~= views(before).push(d@));
                }
            },
            (Some(a), None) => {
                let d = removed_delta(k, a);
                r.push(d);
                assert(views(r@) =~= views(before).push(d@));
            },
            (None, Some(b)) => {
                let d = make_delta(k, "added", 0, b);
                r.push(d);
                assert(views(r@) =~= views(before).push(d@));
            },
            (None, None) => {},
        }
        i = i + 1;
    }
    assert(kv.subrange(0, i as int) =~= kv);
    r
}

/// `changed` deltas for files present in both merged lists.
fn changed_part(pf: &Entries, cf: &Entries) -> (r: Vec<DirDelta>)
    requires
        distinct_keys(pairs(cf@)),
        sizes_fit(pairs(pf@)),
        sizes_fit(pairs(cf@)),
    ensures
        views(r@) == changed_deltas(pairs(pf@), pairs(cf@)),
{
    let ghost pv = pairs(pf@);
    let mut r: Vec<DirDelta> = Vec::new();
    let mut i: usize = 0;
    while i < pf.len()
        invariant
            pv == pairs(pf@),
            distinct_keys(pairs(cf@)),
            sizes_fit(pv),
            sizes_fit(pairs(cf@)),
            i <= pf.len(),
            views(r@) == changed_deltas(pv.subrange(0, i as int), pairs(cf@)),
        decreases pf.len() - i,
    {
        proof {
            assert(pv.subrange(0, i + 1).drop_last() =~= pv.subrange(0, i as int));
            assert(pv.subrange(0, i + 1).last() == pv[i as int]);
            lemma_lookup_fit(pairs(cf@), pv[i as int].0);
        }
        let ghost before = r@;
        if let Some(c) = lookup_size(cf, &pf[i].0) {
            if c != pf[i].1 {
                let d = make_delta(&pf[i].0, "changed", pf[i].1, c);
                r.push(d);
                assert(views(r@) =~= views(before).push(d@));
            }
        }
        i = i + 1;
    }
    assert(pv.subrange(0, i as int) =~= pv);
    r
}

/// Pair vanished files with new ones; returns the deltas and which new
/// files were taken.
fn pair_part(po: &Entries, co: &Entries) -> (r: (Vec<DirDelta>, Vec<bool>))
    requires
        sizes_fit(pairs(po@)),
    ensures
        (views(r.0@), r.1@) == pair_moves(pairs(po@), pairs(co@), Seq::new(co.len() as nat, |i: int| false)),
        r.1.len() == co.len(),
{
    let ghost pv = pairs(po@);
    let ghost cv = pairs(co@);
    let ghost u0 = Seq::new(co.len() as nat, |i: int| false);
    let ghost whole = pair_moves(pv, cv, u0);
    let mut used: Vec<bool> = Vec::new();
    let mut k: usize = 0;
    while k < co.len()
        invariant
            k <= co.len(),
            used@ == Seq::new(k as nat, |i: int| false),
        decreases co.len() - k,
    {
        used.push(false);
        k = k + 1;
        assert(used@ =~= Seq::new(k as nat, |i: int| false));
    }
    let mut acc: Vec<DirDelta> = Vec::new();
    let mut i: usize = 0;
    assert(pv.subrange(0, pv.len() as int) =~= pv);
    while i < po.len()
        invariant
            pv == pairs(po@),
            cv == pairs(co@),
            sizes_fit(pv),
            whole == pair_moves(pv, cv, u0),
            used.len() == co.len(),
            i <= po.len(),
            views(acc@) + pair_moves(pv.subrange(i as int, pv.len() as int), cv, used@).0 == whole.0,
            pair_moves(pv.subrange(i as int, pv.len() as int), cv, used@).1 == whole.1,
        decreases po.len() - i,
    {
        let ghost t = pv.subrange(i as int, pv.len() as int);
        let ghost x = pv[i as int];
        assert(t[0] == x);
        assert(t.drop_first() =~= pv.subrange(i + 1, pv.len() as int));
        let mut j: usize = 0;
        while j < co.len() && !(!used[j] && is_move_match(&po[i], &co[j]))
            invariant
                pv == pairs(po@),
                cv == pairs(co@),
                x == pv[i as int],
                i < po.len(),
                used.len() == co.len(),
                j <= co.len(),
                match_from(cv, used@, x, 0) == match_from(cv, used@, x, j as int),
            decreases co.len() - j,
        {
            j = j + 1;
        }
        let ghost rest_old = pair_moves(t, cv, used@);
        let ghost before = acc@;
        if j < co.len() {
            assert(match_from(cv, used@, x, j as int) == Some(j as int));
            let d = moved_delta(&co[j].0, po[i].1, co[j].1);
            acc.push(d);
            used.set(j, true);
            assert(views(acc@) =~= views(before).push(d@));
            assert(rest_old.0 =~= seq![d@] + pair_moves(t.drop_first(), cv, used@).0);
            assert(views(acc@) + pair_moves(t.drop_first(), cv, used@).0 =~= views(before)
                + rest_old.0);
        } else {
            assert(match_from(cv, used@, x, j as int) is None);
            let d = removed_delta(&po[i].0, po[i].1);
            acc.push(d);
            assert(views(acc@) =~= views(before).push(d@));
            assert(rest_old.0 =~= seq![d@] + pair_moves(t.drop_first(), cv, used@).0);
            assert(views(acc@) + pair_moves(t.drop_first(), cv, used@).0 =~= views(before)
                + rest_old.0);
        }
        i = i + 1;
    }
    assert(pv.subrange(i as int, pv.len() as int) =~= Seq::<Pair>::empty());
    assert(views(acc@) =~= views(acc@) + Seq::<DeltaView>::empty());
    (acc, used)
}

/// `added` deltas for the new files not taken by a move.
fn added_part(co: &Entries, used: &Vec<bool>) -> (r: Vec<DirDelta>)
    requires
        used.len() == co.len(),
        sizes_fit(pairs(co@)),
    ensures
        views(r@) == added_deltas(pairs(co@), used@),
{
    let ghost cv = pairs(co@);
    let mut r: Vec<DirDelta> = Vec::new();
    let mut i: usize = 0;
    while i < co.len()
        invariant
            cv == pairs(co@),
            used.len() == co.len(),
            sizes_fit(cv),
            i <= co.len(),
            views(r@) == added_deltas(cv.subrange(0, i as int), used@.subrange(0, i as int)),
        decreases co.len() - i,
    {
        proof {
            assert(cv.subrange(0, i + 1).drop_last() =~= cv.subrange(0, i as int));
            assert(used@.subrange(0, i + 1).drop_last() =~= used@.subrange(0, i as int));
        }
        let ghost before = r@;
        if !used[i] {
            assert(cv[i as int].1 == co@[i as int].1);
            let d = make_delta(&co[i].0, "added", 0, co[i].1);
            r.push(d);
            assert(views(r@) =~= views(before).push(d@));
        }
        i = i + 1;
    }
    assert(cv.subrange(0, i as int) =~= cv);
    assert(used@.subrange(0, i as int) =~= used@);
    r
}

/// Diff two snapshots: monitor directories and large files are merged by
/// path (a later entry for a path overrides an earlier one); moves of large
/// files are suppressed; the result lists `moved` entries last and the
/// others by the size of the change, largest first.
pub fn diff_snapshots(prev: &MonitorSnapshot, curr: &MonitorSnapshot) -> (out: Vec<DirDelta>)
    requires
        sizes_fit(monitor_pairs(prev.monitor_dirs@)),
        sizes_fit(monitor_pairs(curr.monitor_dirs@)),
        sizes_fit(file_pairs(prev.large_files@)),
        sizes_fit(file_pairs(curr.large_files@)),
    ensures
        views(out@) == spec_diff(
            monitor_pairs(prev.monitor_dirs@),
            monitor_pairs(curr.monitor_dirs@),
            file_pairs(prev.large_files@),
            file_pairs(curr.large_files@),
        ),
{
    let pm = collapse_entries(monitor_entries(&prev.monitor_dirs));
    let cm = collapse_entries(monitor_entries(&curr.monitor_dirs));
    let pf = collapse_entries(file_entries(&prev.large_files));
    let cf = collapse_entries(file_entries(&curr.large_files));
    proof {
        lemma_collapse_fit(monitor_pairs(prev.monitor_dirs@));
        lemma_collapse_fit(monitor_pairs(curr.monitor_dirs@));
        lemma_collapse_fit(file_pairs(prev.large_files@));
        lemma_collapse_fit(file_pairs(curr.large_files@));
    }
    let mut out = monitor_part(&pm, &cm);
    let mut changed = changed_part(&pf, &cf);
    let po = only_in_entries(&pf, &cf);
    let co = only_in_entries(&cf, &pf);
    proof {
        lemma_only_in_props(pairs(pf@), pairs(cf@));
        lemma_only_in_props(pairs(cf@), pairs(pf@));
    }
    let (mut moves, used) = pair_part(&po, &co);
    let mut added = added_part(&co, &used);
    let ghost v0 = views(out@);
    let ghost v1 = views(changed@);
    let ghost v2 = views(moves@);
    let ghost v3 = views(added@);
    out.append(&mut changed);
    out.append(&mut moves);
    out.append(&mut added);
    assert(views(out@) =~= v0 + v1 + v2 + v3);
    let ghost unsorted = out@;
    sort_desc(&mut out);
    proof {
        lemma_sort_map(unsorted, |d: DirDelta| d@);
    }
    out
}

/// The percentage of a change from `prev` to `curr` as a fraction: `0`
/// when both are zero, `100%` when it grew from zero, else the change over
/// the old size.
pub open spec fn pct_pair(prev: u64, curr: u64) -> (int, int) {
    if prev == 0 {
        (if curr == 0 { 0 } else { 1 }, 1)
    } else {
        (curr - prev, prev as int)
    }
}

/// What each kind of delta says of its sizes: a `changed` path has two
/// different sizes and the change between them; an `added` one had nothing
/// before; a `removed` one has nothing now (`-100%`); a `moved` file counts
/// no change and its two sizes are within 5% of each other.
pub open spec fn delta_consistent(d: DeltaView) -> bool {
    &&& d.kind == "changed"@ || d.kind == "added"@ || d.kind == "removed"@ || d.kind == "moved"@
    &&& d.kind == "changed"@ ==> d.prev_bytes != d.curr_bytes && d.delta_bytes == d.curr_bytes
        - d.prev_bytes
    &&& d.kind == "added"@ ==> d.prev_bytes == 0 && d.delta_bytes == d.curr_bytes
    &&& d.kind == "removed"@ ==> d.curr_bytes == 0 && d.delta_bytes == -d.prev_bytes
    &&& d.kind == "moved"@ ==> d.delta_bytes == 0 && within_5pct(d.prev_bytes, d.curr_bytes)
    &&& (d.kind == "changed"@ || d.kind == "added"@) ==> (d.pct_num, d.pct_den) == pct_pair(
        d.prev_bytes,
        d.curr_bytes,
    )
    &&& d.kind == "removed"@ ==> d.pct_num == -1 && d.pct_den == 1
    &&& d.kind == "moved"@ ==> d.pct_num == 0 && d.pct_den == 1
}

/// Every entry of `s` is consistent.
pub open spec fn all_consistent(s: Seq<DeltaView>) -> bool {
    forall|i: int| 0 <= i < s.len() ==> delta_consistent(#[trigger] s[i])
}

proof fn lemma_kinds_differ()
    ensures
        "changed"@ != "added"@,
        "changed"@ != "removed"@,
        "changed"@ != "moved"@,
        "added"@ != "removed"@,
        "added"@ != "moved"@,
        "removed"@ != "moved"@,
{
    reveal_strlit("changed");
    reveal_strlit("added");
    reveal_strlit("removed");
    reveal_strlit("moved");
    assert("changed"@[0] != "added"@[0]);
    assert("changed"@[0] != "removed"@[0]);
    assert("changed"@[0] != "moved"@[0]);
    assert("added"@[0] != "removed"@[0]);
    assert("added"@[0] != "moved"@[0]);
    assert("removed"@[0] != "moved"@[0]);
}

proof fn lemma_push_consistent(s: Seq<DeltaView>, d: DeltaView)
    requires
        all_consistent(s),
        delta_consistent(d),
    ensures
        all_consistent(s.push(d)),
{
    assert forall|i: int| 0 <= i < s.push(d).len() implies delta_consistent(#[trigger] s.push(d)[i]) by {
        if i < s.len() {
            assert(s.push(d)[i] == s[i]);
        }
    }
}

proof fn lemma_monitor_consistent(ks: Seq<Seq<char>>, pc: Seq<Pair>, cc: Seq<Pair>)
    ensures
        all_consistent(monitor_deltas(ks, pc, cc)),
    decreases ks.len(),
{
    lemma_kinds_differ();
    if ks.len() > 0 {
        lemma_monitor_consistent(ks.drop_last(), pc, cc);
        if let Some(x) = key_delta(ks.last(), pc, cc) {
            lemma_push_consistent(monitor_deltas(ks.drop_last(), pc, cc), x);
        }
    }
}

proof fn lemma_changed_consistent(pc: Seq<Pair>, cc: Seq<Pair>)
    ensures
        all_consistent(changed_deltas(pc, cc)),
    decreases pc.len(),
{
    lemma_kinds_differ();
    if pc.len() > 0 {
        lemma_changed_consistent(pc.drop_last(), cc);
        let x = pc.last();
        if let Some(c) = lookup(cc, x.0) {
            if c != x.1 {
                lemma_push_consistent(changed_deltas(pc.drop_last(), cc), make_delta_v(x.0, "changed"@, x.1, c));
            }
        }
    }
}

proof fn lemma_match_from(co: Seq<Pair>, used: Seq<bool>, x: Pair, i: int)
    ensures
        match_from(co, used, x, i) matches Some(j) ==> 0 <= j < co.len() && move_match(x, co[j])
            && !used[j],
    decreases co.len() - i,
{
    if 0 <= i < co.len() && !(!used[i] && move_match(x, co[i])) {
        lemma_match_from(co, used, x, i + 1);
    }
}

proof fn lemma_pairs_consistent(po: Seq<Pair>, co: Seq<Pair>, used: Seq<bool>)
    ensures
        all_consistent(pair_moves(po, co, used).0),
    decreases po.len(),
{
    lemma_kinds_differ();
    if po.len() > 0 {
        let x = po[0];
        lemma_match_from(co, used, x, 0);
        let (d, rest) = match match_from(co, used, x, 0) {
            Some(i) => (moved_v(co[i].0, x.1, co[i].1), pair_moves(po.drop_first(), co, used.update(i, true)).0),
            None => (removed_v(x.0, x.1), pair_moves(po.drop_first(), co, used).0),
        };
        match match_from(co, used, x, 0) {
            Some(i) => lemma_pairs_consistent(po.drop_first(), co, used.update(i, true)),
            None => lemma_pairs_consistent(po.drop_first(), co, used),
        }
        assert(delta_consistent(d));
        assert forall|k: int| 0 <= k < (seq![d] + rest).len() implies delta_consistent(#[trigger] (seq![d] + rest)[k]) by {
            if k > 0 {
                assert((seq![d] + rest)[k] == rest[k - 1]);
            }
        }
    }
}

proof fn lemma_added_consistent(co: Seq<Pair>, used: Seq<bool>)
    ensures
        all_consistent(added_deltas(co, used)),
    decreases co.len(),
{
    lemma_kinds_differ();
    if co.len() > 0 && used.len() == co.len() {
        lemma_added_consistent(co.drop_last(), used.drop_last());
        if !used.last() {
            lemma_push_consistent(added_deltas(co.drop_last(), used.drop_last()), make_delta_v(co.last().0, "added"@, 0, co.last().1));
        }
    }
}

proof fn lemma_concat_consistent(a: Seq<DeltaView>, b: Seq<DeltaView>)
    requires
        all_consistent(a),
        all_consistent(b),
    ensures
        all_consistent(a + b),
{
    assert forall|k: int| 0 <= k < (a + b).len() implies delta_consistent(#[trigger] (a + b)[k]) by {
        if k < a.len() {
            assert((a + b)[k] == a[k]);
        } else {
            assert((a + b)[k] == b[k - a.len()]);
        }
    }
}

/// Every line of a diff is consistent with its kind (see
/// `delta_consistent`), and the lines are ordered with `moved` entries
/// last and the others by the size of the change, largest first.
pub proof fn lemma_diff_shape(pm: Seq<Pair>, cm: Seq<Pair>, pl: Seq<Pair>, cl: Seq<Pair>)
    ensures
        all_consistent(spec_diff(pm, cm, pl, cl)),
        sorted_desc(keys(spec_diff(pm, cm, pl, cl))),
{
    let pc = collapse(pm);
    let cc = collapse(cm);
    let ks = sort_by_lex_key(union_paths(pc, cc));
    let pf = collapse(pl);
    let cf = collapse(cl);
    let po = only_in(pf, cf);
    let co = only_in(cf, pf);
    let u0 = Seq::new(co.len(), |i: int| false);
    let moves = pair_moves(po, co, u0);
    lemma_monitor_consistent(ks, pc, cc);
    lemma_changed_consistent(pf, cf);
    lemma_pairs_consistent(po, co, u0);
    lemma_added_consistent(co, moves.1);
    let a = monitor_deltas(ks, pc, cc);
    let b = changed_deltas(pf, cf);
    let c = moves.0;
    let d = added_deltas(co, moves.1);
    lemma_concat_consistent(a, b);
    lemma_concat_consistent(a + b, c);
    lemma_concat_consistent(a + b + c, d);
    let u = unordered_diff(pm, cm, pl, cl);
    assert(u == a + b + c + d);
    crate::sort::lemma_sort_props(u);
    let sd = spec_diff(pm, cm, pl, cl);
    assert forall|k: int| 0 <= k < sd.len() implies delta_consistent(#[trigger] sd[k]) by {
        crate::sort::lemma_perm_member(u, sd, k);
        let j = choose|j: int| 0 <= j < u.len() && u[j] == sd[k];
        assert(delta_consistent(u[j]));
    }
}


/// How many of the flags are set.
pub open spec fn count_true(u: Seq<bool>) -> nat
    decreases u.len(),
{
    if u.len() == 0 {
        0
    } else {
        count_true(u.drop_last()) + if u.last() {
            1nat
        } else {
            0nat
        }
    }
}

/// How many of the lines are `moved`.
pub open spec fn count_moved(ds: Seq<DeltaView>) -> nat
    decreases ds.len(),
{
    if ds.len() == 0 {
        0
    } else {
        (if ds[0].kind == "moved"@ {
            1nat
        } else {
            0nat
        }) + count_moved(ds.drop_first())
    }
}

proof fn lemma_count_set(u: Seq<bool>, i: int)
    requires
        0 <= i < u.len(),
        !u[i],
    ensures
        count_true(u.update(i, true)) == count_true(u) + 1,
    decreases u.len(),
{
    let v = u.update(i, true);
    if i == u.len() - 1 {
        assert(v.drop_last() =~= u.drop_last());
    } else {
        lemma_count_set(u.drop_last(), i);
        assert(v.drop_last() =~= u.drop_last().update(i, true));
    }
}

proof fn lemma_pair_moves_count(po: Seq<Pair>, co: Seq<Pair>, used: Seq<bool>)
    requires
        used.len() == co.len(),
    ensures
        pair_moves(po, co, used).0.len() == po.len(),
        pair_moves(po, co, used).1.len() == co.len(),
        count_true(pair_moves(po, co, used).1) == count_true(used) + count_moved(pair_moves(po, co, used).0),
    decreases po.len(),
{
    if po.len() > 0 {
        let x = po[0];
        lemma_match_from(co, used, x, 0);
        lemma_kinds_differ();
        match match_from(co, used, x, 0) {
            Some(i) => {
                let u2 = used.update(i, true);
                lemma_count_set(used, i);
                lemma_pair_moves_count(po.drop_first(), co, u2);
                let r = pair_moves(po.drop_first(), co, u2);
                assert((seq![moved_v(co[i].0, x.1, co[i].1)] + r.0).drop_first() =~= r.0);
            },
            None => {
                lemma_pair_moves_count(po.drop_first(), co, used);
                let r = pair_moves(po.drop_first(), co, used);
                assert((seq![removed_v(x.0, x.1)] + r.0).drop_first() =~= r.0);
            },
        }
    }
}

proof fn lemma_added_count(co: Seq<Pair>, used: Seq<bool>)
    requires
        used.len() == co.len(),
    ensures
        added_deltas(co, used).len() + count_true(used) == co.len(),
    decreases co.len(),
{
    if co.len() > 0 {
        lemma_added_count(co.drop_last(), used.drop_last());
    }
}

/// No large file is lost or reported twice: each file found only in the
/// older snapshot gives exactly one line, `moved` or `removed`, and each
/// file found only in the newer one is either taken by exactly one move or
/// gives one `added` line.
pub proof fn lemma_files_accounted(pl: Seq<Pair>, cl: Seq<Pair>)
    ensures
        ({
            let pf = collapse(pl);
            let cf = collapse(cl);
            let po = only_in(pf, cf);
            let co = only_in(cf, pf);
            let moves = pair_moves(po, co, Seq::new(co.len(), |i: int| false));
            &&& moves.0.len() == po.len()
            &&& count_moved(moves.0) + added_deltas(co, moves.1).len() == co.len()
        }),
{
    let pf = collapse(pl);
    let cf = collapse(cl);
    let po = only_in(pf, cf);
    let co = only_in(cf, pf);
    let u0 = Seq::new(co.len(), |i: int| false);
    assert(count_true(u0) == 0) by {
        lemma_none_set(co.len());
    }
    lemma_pair_moves_count(po, co, u0);
    let moves = pair_moves(po, co, u0);
    lemma_added_count(co, moves.1);
}

proof fn lemma_none_set(n: nat)
    ensures
        count_true(Seq::new(n, |i: int| false)) == 0,
    decreases n,
{
    if n > 0 {
        lemma_none_set((n - 1) as nat);
        assert(Seq::new(n, |i: int| false).drop_last() =~= Seq::new((n - 1) as nat, |i: int| false));
    }
}


/// The entry `e` of the older snapshot's files has no counterpart in the
/// newer one.
pub open spec fn prev_only(e: Pair, pf: Seq<Pair>, cf: Seq<Pair>) -> bool {
    lookup(pf, e.0) == Some(e.1) && lookup(cf, e.0) is None
}

/// The entry `e` of the newer snapshot's files has no counterpart in the
/// older one.
pub open spec fn curr_only(e: Pair, pf: Seq<Pair>, cf: Seq<Pair>) -> bool {
    lookup(cf, e.0) == Some(e.1) && lookup(pf, e.0) is None
}

/// What a diff line says of its path holds of the merged entries of the two
/// snapshots (monitored directories `pc`, `cc`; large files `pf`, `cf`):
/// a `changed` path is in both with the two different sizes, an `added` one
/// only in the newer, a `removed` one only in the older, and a `moved` line
/// names a file only in the newer whose size and extension match a file
/// only in the older.
pub open spec fn explained(d: DeltaView, pc: Seq<Pair>, cc: Seq<Pair>, pf: Seq<Pair>, cf: Seq<Pair>) -> bool {
    &&& d.kind == "changed"@ ==> d.prev_bytes != d.curr_bytes && ((lookup(pc, d.path) == Some(
        d.prev_bytes,
    ) && lookup(cc, d.path) == Some(d.curr_bytes)) || (lookup(pf, d.path) == Some(d.prev_bytes)
        && lookup(cf, d.path) == Some(d.curr_bytes)))
    &&& d.kind == "added"@ ==> (lookup(pc, d.path) is None && lookup(cc, d.path) == Some(
        d.curr_bytes,
    )) || curr_only((d.path, d.curr_bytes), pf, cf)
    &&& d.kind == "removed"@ ==> (lookup(pc, d.path) == Some(d.prev_bytes) && lookup(cc, d.path) is None)
        || prev_only((d.path, d.prev_bytes), pf, cf)
    &&& d.kind == "moved"@ ==> {
        &&& curr_only((d.path, d.curr_bytes), pf, cf)
        &&& exists|q: Seq<char>|
            #[trigger] prev_only((q, d.prev_bytes), pf, cf) && ext_of(q) == ext_of(d.path)
    }
}

pub open spec fn all_explained(s: Seq<DeltaView>, pc: Seq<Pair>, cc: Seq<Pair>, pf: Seq<Pair>, cf: Seq<Pair>) -> bool {
    forall|k: int| 0 <= k < s.len() ==> explained(#[trigger] s[k], pc, cc, pf, cf)
}

proof fn lemma_explained_push(
    s: Seq<DeltaView>,
    d: DeltaView,
    pc: Seq<Pair>,
    cc: Seq<Pair>,
    pf: Seq<Pair>,
    cf: Seq<Pair>,
)
    requires
        all_explained(s, pc, cc, pf, cf),
        explained(d, pc, cc, pf, cf),
    ensures
        all_explained(s.push(d), pc, cc, pf, cf),
{
    assert forall|k: int| 0 <= k < s.push(d).len() implies explained(#[trigger] s.push(d)[k], pc, cc, pf, cf) by {
        if k < s.len() {
            assert(s.push(d)[k] == s[k]);
        }
    }
}

proof fn lemma_explained_concat(
    a: Seq<DeltaView>,
    b: Seq<DeltaView>,
    pc: Seq<Pair>,
    cc: Seq<Pair>,
    pf: Seq<Pair>,
    cf: Seq<Pair>,
)
    requires
        all_explained(a, pc, cc, pf, cf),
        all_explained(b, pc, cc, pf, cf),
    ensures
        all_explained(a + b, pc, cc, pf, cf),
{
    assert forall|k: int| 0 <= k < (a + b).len() implies explained(#[trigger] (a + b)[k], pc, cc, pf, cf) by {
        if k < a.len() {
            assert((a + b)[k] == a[k]);
        } else {
            assert((a + b)[k] == b[k - a.len()]);
        }
    }
}

proof fn lemma_monitor_explained(ks: Seq<Seq<char>>, pc: Seq<Pair>, cc: Seq<Pair>, pf: Seq<Pair>, cf: Seq<Pair>)
    ensures
        all_explained(monitor_deltas(ks, pc, cc), pc, cc, pf, cf),
    decreases ks.len(),
{
    lemma_kinds_differ();
    if ks.len() > 0 {
        lemma_monitor_explained(ks.drop_last(), pc, cc, pf, cf);
        if let Some(x) = key_delta(ks.last(), pc, cc) {
            lemma_explained_push(monitor_deltas(ks.drop_last(), pc, cc), x, pc, cc, pf, cf);
        }
    }
}

proof fn lemma_lookup_at(c: Seq<Pair>, j: int)
    requires
        distinct_keys(c),
        0 <= j < c.len(),
    ensures
        lookup(c, c[j].0) == Some(c[j].1),
{
    lemma_key_index_unique(c, j);
}

proof fn lemma_changed_explained(
    pf: Seq<Pair>,
    cf: Seq<Pair>,
    n: int,
    pc: Seq<Pair>,
    cc: Seq<Pair>,
)
    requires
        distinct_keys(pf),
        0 <= n <= pf.len(),
    ensures
        all_explained(changed_deltas(pf.subrange(0, n), cf), pc, cc, pf, cf),
    decreases n,
{
    lemma_kinds_differ();
    let s = pf.subrange(0, n);
    if n > 0 {
        lemma_changed_explained(pf, cf, n - 1, pc, cc);
        assert(s.drop_last() =~= pf.subrange(0, n - 1));
        let x = s.last();
        assert(x == pf[n - 1]);
        lemma_lookup_at(pf, n - 1);
        if let Some(c) = lookup(cf, x.0) {
            if c != x.1 {
                lemma_explained_push(
                    changed_deltas(pf.subrange(0, n - 1), cf),
                    make_delta_v(x.0, "changed"@, x.1, c),
                    pc,
                    cc,
                    pf,
                    cf,
                );
            }
        }
    }
}

/// Every entry of `only_in(a, b)` is an entry of `a` whose path `b` lacks.
proof fn lemma_only_in_from(a: Seq<Pair>, b: Seq<Pair>, k: int)
    requires
        0 <= k < only_in(a, b).len(),
    ensures
        exists|j: int| 0 <= j < a.len() && #[trigger] a[j] == only_in(a, b)[k] && !has_key(b, a[j].0),
    decreases a.len(),
{
    let d = a.drop_last();
    let r = only_in(d, b);
    if k < r.len() {
        lemma_only_in_from(d, b, k);
        let j = choose|j: int| 0 <= j < d.len() && #[trigger] d[j] == r[k] && !has_key(b, d[j].0);
        assert(a[j] == d[j]);
    } else {
        assert(a[a.len() - 1] == only_in(a, b)[k]);
    }
}

proof fn lemma_only_in_lookups(a: Seq<Pair>, b: Seq<Pair>)
    requires
        distinct_keys(a),
    ensures
        forall|k: int|
            0 <= k < only_in(a, b).len() ==> lookup(a, (#[trigger] only_in(a, b)[k]).0) == Some(
                only_in(a, b)[k].1,
            ) && lookup(b, only_in(a, b)[k].0) is None,
{
    assert forall|k: int| 0 <= k < only_in(a, b).len() implies lookup(a, (#[trigger] only_in(a, b)[k]).0)
        == Some(only_in(a, b)[k].1) && lookup(b, only_in(a, b)[k].0) is None by {
        lemma_only_in_from(a, b, k);
        let j = choose|j: int| 0 <= j < a.len() && #[trigger] a[j] == only_in(a, b)[k] && !has_key(b, a[j].0);
        lemma_lookup_at(a, j);
    }
}

proof fn lemma_pairs_explained(
    po: Seq<Pair>,
    co: Seq<Pair>,
    used: Seq<bool>,
    pc: Seq<Pair>,
    cc: Seq<Pair>,
    pf: Seq<Pair>,
    cf: Seq<Pair>,
)
    requires
        forall|k: int| 0 <= k < po.len() ==> prev_only(#[trigger] po[k], pf, cf),
        forall|k: int| 0 <= k < co.len() ==> curr_only(#[trigger] co[k], pf, cf),
    ensures
        all_explained(pair_moves(po, co, used).0, pc, cc, pf, cf),
    decreases po.len(),
{
    lemma_kinds_differ();
    if po.len() > 0 {
        let x = po[0];
        assert(prev_only(po[0], pf, cf));
        assert forall|k: int| 0 <= k < po.drop_first().len() implies prev_only(
            #[trigger] po.drop_first()[k],
            pf,
            cf,
        ) by {
            assert(po.drop_first()[k] == po[k + 1]);
        }
        lemma_match_from(co, used, x, 0);
        let (d, rest) = match match_from(co, used, x, 0) {
            Some(i) => (moved_v(co[i].0, x.1, co[i].1), pair_moves(po.drop_first(), co, used.update(i, true)).0),
            None => (removed_v(x.0, x.1), pair_moves(po.drop_first(), co, used).0),
        };
        match match_from(co, used, x, 0) {
            Some(i) => {
                lemma_pairs_explained(po.drop_first(), co, used.update(i, true), pc, cc, pf, cf);
                assert(curr_only(co[i], pf, cf));
                assert(prev_only((x.0, x.1), pf, cf));
                assert(ext_of(x.0) == ext_of(co[i].0));
            },
            None => lemma_pairs_explained(po.drop_first(), co, used, pc, cc, pf, cf),
        }
        assert(explained(d, pc, cc, pf, cf));
        assert forall|k: int| 0 <= k < (seq![d] + rest).len() implies explained(
            #[trigger] (seq![d] + rest)[k],
            pc,
            cc,
            pf,
            cf,
        ) by {
            if k > 0 {
                assert((seq![d] + rest)[k] == rest[k - 1]);
            }
        }
    }
}

proof fn lemma_added_explained(
    co: Seq<Pair>,
    used: Seq<bool>,
    pc: Seq<Pair>,
    cc: Seq<Pair>,
    pf: Seq<Pair>,
    cf: Seq<Pair>,
)
    requires
        forall|k: int| 0 <= k < co.len() ==> curr_only(#[trigger] co[k], pf, cf),
    ensures
        all_explained(added_deltas(co, used), pc, cc, pf, cf),
    decreases co.len(),
{
    lemma_kinds_differ();
    if co.len() > 0 && used.len() == co.len() {
        assert forall|k: int| 0 <= k < co.drop_last().len() implies curr_only(
            #[trigger] co.drop_last()[k],
            pf,
            cf,
        ) by {
            assert(co.drop_last()[k] == co[k]);
        }
        lemma_added_explained(co.drop_last(), used.drop_last(), pc, cc, pf, cf);
        if !used.last() {
            assert(curr_only(co[co.len() - 1], pf, cf));
            lemma_explained_push(
                added_deltas(co.drop_last(), used.drop_last()),
                make_delta_v(co.last().0, "added"@, 0, co.last().1),
                pc,
                cc,
                pf,
                cf,
            );
        }
    }
}

/// Every line of a diff says of its path what the two snapshots hold (see
/// `explained`): a `changed` path is in both with different sizes, an
/// `added` one only in the newer, a `removed` one only in the older, and a
/// `moved` line pairs a large file only in the newer with a large file only
/// in the older of the same extension.
pub proof fn lemma_diff_explained(pm: Seq<Pair>, cm: Seq<Pair>, pl: Seq<Pair>, cl: Seq<Pair>)
    ensures
        all_explained(spec_diff(pm, cm, pl, cl), collapse(pm), collapse(cm), collapse(pl), collapse(cl)),
{
    let pc = collapse(pm);
    let cc = collapse(cm);
    let ks = sort_by_lex_key(union_paths(pc, cc));
    let pf = collapse(pl);
    let cf = collapse(cl);
    lemma_collapse_distinct(pl);
    lemma_collapse_distinct(cl);
    let po = only_in(pf, cf);
    let co = only_in(cf, pf);
    lemma_only_in_lookups(pf, cf);
    lemma_only_in_lookups(cf, pf);
    assert forall|k: int| 0 <= k < po.len() implies prev_only(#[trigger] po[k], pf, cf) by {}
    assert forall|k: int| 0 <= k < co.len() implies curr_only(#[trigger] co[k], pf, cf) by {}
    let u0 = Seq::new(co.len(), |i: int| false);
    let moves = pair_moves(po, co, u0);
    lemma_monitor_explained(ks, pc, cc, pf, cf);
    lemma_changed_explained(pf, cf, pf.len() as int, pc, cc);
    assert(pf.subrange(0, pf.len() as int) =~= pf);
    lemma_pairs_explained(po, co, u0, pc, cc, pf, cf);
    lemma_added_explained(co, moves.1, pc, cc, pf, cf);
    let a = monitor_deltas(ks, pc, cc);
    let b = changed_deltas(pf, cf);
    let c = moves.0;
    let d = added_deltas(co, moves.1);
    lemma_explained_concat(a, b, pc, cc, pf, cf);
    lemma_explained_concat(a + b, c, pc, cc, pf, cf);
    lemma_explained_concat(a + b + c, d, pc, cc, pf, cf);
    let u = unordered_diff(pm, cm, pl, cl);
    assert(u == a + b + c + d);
    crate::sort::lemma_sort_props(u);
    let sd = spec_diff(pm, cm, pl, cl);
    assert forall|k: int| 0 <= k < sd.len() implies explained(#[trigger] sd[k], pc, cc, pf, cf) by {
        crate::sort::lemma_perm_member(u, sd, k);
        let j = choose|j: int| 0 <= j < u.len() && u[j] == sd[k];
        assert(explained(u[j], pc, cc, pf, cf));
    }
}


/// A path that both snapshots record alike (with equal sizes, or not at
/// all) among the monitored directories and among the large files gets
/// no line.
pub proof fn lemma_unchanged_path_absent(pm: Seq<Pair>, cm: Seq<Pair>, pl: Seq<Pair>, cl: Seq<Pair>, p: Seq<char>)
    requires
        lookup(collapse(pm), p) == lookup(collapse(cm), p),
        lookup(collapse(pl), p) == lookup(collapse(cl), p),
    ensures
        forall|k: int| 0 <= k < spec_diff(pm, cm, pl, cl).len() ==> (#[trigger] spec_diff(pm, cm, pl, cl)[k]).path != p,
{
    lemma_diff_explained(pm, cm, pl, cl);
    lemma_diff_shape(pm, cm, pl, cl);
    let sd = spec_diff(pm, cm, pl, cl);
    assert forall|k: int| 0 <= k < sd.len() implies (#[trigger] sd[k]).path != p by {
        assert(explained(sd[k], collapse(pm), collapse(cm), collapse(pl), collapse(cl)));
        assert(delta_consistent(sd[k]));
    }
}


proof fn lemma_collapse_identity(s: Seq<Pair>)
    requires
        distinct_keys(s),
    ensures
        collapse(s) == s,
    decreases s.len(),
{
    if s.len() > 0 {
        let d = s.drop_last();
        assert(distinct_keys(d)) by {
            assert forall|i: int, j: int| 0 <= i < d.len() && 0 <= j < d.len() && i != j implies d[i].0
                != d[j].0 by {
                assert(d[i] == s[i] && d[j] == s[j]);
            }
        }
        lemma_collapse_identity(d);
        assert(!has_key(d, s.last().0)) by {
            if has_key(d, s.last().0) {
                let k = choose|k: int| 0 <= k < d.len() && d[k].0 == s.last().0;
                assert(s[k].0 == s[s.len() - 1].0);
            }
        }
        assert(d.push(s.last()) =~= s);
    }
}

proof fn lemma_changed_has(pf: Seq<Pair>, cf: Seq<Pair>, n: int, k: int, c: u64)
    requires
        0 <= k < n <= pf.len(),
        lookup(cf, pf[k].0) == Some(c),
        c != pf[k].1,
    ensures
        changed_deltas(pf.subrange(0, n), cf).contains(make_delta_v(pf[k].0, "changed"@, pf[k].1, c)),
    decreases n,
{
    let s = pf.subrange(0, n);
    let x = make_delta_v(pf[k].0, "changed"@, pf[k].1, c);
    assert(s.drop_last() =~= pf.subrange(0, n - 1));
    let d = changed_deltas(pf.subrange(0, n - 1), cf);
    if k == n - 1 {
        assert(s.last() == pf[k]);
        assert(changed_deltas(s, cf) == d.push(x));
        assert(d.push(x)[d.len() as int] == x);
    } else {
        lemma_changed_has(pf, cf, n - 1, k, c);
        let i = choose|i: int| 0 <= i < d.len() && d[i] == x;
        let r = changed_deltas(s, cf);
        let y = s.last();
        match lookup(cf, y.0) {
            Some(cv) => if cv != y.1 {
                let z = make_delta_v(y.0, "changed"@, y.1, cv);
                assert(r == d.push(z));
                assert(r[i] == d[i]);
            } else {
                assert(r == d);
            },
            None => {
                assert(r == d);
            },
        }
    }
}

proof fn lemma_monitor_has(ks: Seq<Seq<char>>, pc: Seq<Pair>, cc: Seq<Pair>, m: int, x: DeltaView)
    requires
        0 <= m < ks.len(),
        key_delta(ks[m], pc, cc) == Some(x),
    ensures
        monitor_deltas(ks, pc, cc).contains(x),
    decreases ks.len(),
{
    let d = monitor_deltas(ks.drop_last(), pc, cc);
    let r = monitor_deltas(ks, pc, cc);
    if m == ks.len() - 1 {
        assert(r == d.push(x));
        assert(r[d.len() as int] == x);
    } else {
        assert(ks.drop_last()[m] == ks[m]);
        lemma_monitor_has(ks.drop_last(), pc, cc, m, x);
        let i = choose|i: int| 0 <= i < d.len() && d[i] == x;
        match key_delta(ks.last(), pc, cc) {
            Some(y) => assert(r[i] == d.push(y)[i]),
            None => {},
        }
    }
}

/// Every path that the two snapshots record with different sizes, among the
/// monitored directories or among the large files (the last size given for
/// a path counting, as when entries are collected into a map), gets a
/// `changed` line carrying its older and newer size, whether it grew or
/// shrank.
pub proof fn lemma_changed_paths_reported(
    pm: Seq<Pair>,
    cm: Seq<Pair>,
    pl: Seq<Pair>,
    cl: Seq<Pair>,
    p: Seq<char>,
    a: u64,
    b: u64,
)
    requires
        a != b,
        (lookup(collapse(pm), p) == Some(a) && lookup(collapse(cm), p) == Some(b)) || (lookup(
            collapse(pl),
            p,
        ) == Some(a) && lookup(collapse(cl), p) == Some(b)),
    ensures
        exists|k: int|
            0 <= k < spec_diff(pm, cm, pl, cl).len() && (#[trigger] spec_diff(pm, cm, pl, cl)[k]).kind
                == "changed"@ && spec_diff(pm, cm, pl, cl)[k].path == p && spec_diff(pm, cm, pl, cl)[k].prev_bytes
                == a && spec_diff(pm, cm, pl, cl)[k].curr_bytes == b,
{
    let pc = collapse(pm);
    let cc = collapse(cm);
    let ks = sort_by_lex_key(union_paths(pc, cc));
    let pf = collapse(pl);
    let cf = collapse(cl);
    let po = only_in(pf, cf);
    let co = only_in(cf, pf);
    let u0 = Seq::new(co.len(), |i: int| false);
    let moves = pair_moves(po, co, u0);
    let md = monitor_deltas(ks, pc, cc);
    let cd = changed_deltas(pf, cf);
    let u = unordered_diff(pm, cm, pl, cl);
    assert(u == md + cd + moves.0 + added_deltas(co, moves.1));
    let x = make_delta_v(p, "changed"@, a, b);
    if lookup(pc, p) == Some(a) && lookup(cc, p) == Some(b) {
        let up = union_paths(pc, cc);
        let ki = key_index(pc, p);
        assert(up[ki] == p);
        crate::lexsort::lemma_lex_sort_props(up);
        crate::sort::lemma_perm_member(ks, up, ki);
        let m = choose|m: int| 0 <= m < ks.len() && ks[m] == up[ki];
        assert(key_delta(ks[m], pc, cc) == Some(x));
        lemma_monitor_has(ks, pc, cc, m, x);
        let i = choose|i: int| 0 <= i < md.len() && md[i] == x;
        assert(u[i] == x);
    } else {
        let k = key_index(pf, p);
        assert(pf[k] == (p, a));
        lemma_changed_has(pf, cf, pf.len() as int, k, b);
        assert(pf.subrange(0, pf.len() as int) =~= pf);
        let i = choose|i: int| 0 <= i < cd.len() && cd[i] == x;
        assert(u[md.len() + i] == x);
    }
    let j = choose|j: int| 0 <= j < u.len() && u[j] == x;
    crate::sort::lemma_sort_props(u);
    let sd = spec_diff(pm, cm, pl, cl);
    crate::sort::lemma_perm_member(sd, u, j);
    let k = choose|k: int| 0 <= k < sd.len() && sd[k] == u[j];
    assert(sd[k].kind == "changed"@ && sd[k].path == p && sd[k].prev_bytes == a && sd[k].curr_bytes == b);
}

/// For snapshots listing each path once: a large file present in both with
/// different sizes gets a `changed` line with both sizes, and so does a
/// monitored directory.
pub proof fn lemma_changed_entries_reported(
    pm: Seq<Pair>,
    cm: Seq<Pair>,
    pl: Seq<Pair>,
    cl: Seq<Pair>,
    files: bool,
    i: int,
    j: int,
)
    requires
        distinct_keys(pm),
        distinct_keys(cm),
        distinct_keys(pl),
        distinct_keys(cl),
        files ==> 0 <= i < pl.len() && 0 <= j < cl.len() && pl[i].0 == cl[j].0 && pl[i].1 != cl[j].1,
        !files ==> 0 <= i < pm.len() && 0 <= j < cm.len() && pm[i].0 == cm[j].0 && pm[i].1 != cm[j].1,
    ensures
        ({
            let (p, q) = if files { (pl[i], cl[j]) } else { (pm[i], cm[j]) };
            exists|k: int|
                0 <= k < spec_diff(pm, cm, pl, cl).len() && (#[trigger] spec_diff(pm, cm, pl, cl)[k]).kind
                    == "changed"@ && spec_diff(pm, cm, pl, cl)[k].path == p.0 && spec_diff(
                    pm,
                    cm,
                    pl,
                    cl,
                )[k].prev_bytes == p.1 && spec_diff(pm, cm, pl, cl)[k].curr_bytes == q.1
        }),
{
    lemma_collapse_identity(pm);
    lemma_collapse_identity(cm);
    lemma_collapse_identity(pl);
    lemma_collapse_identity(cl);
    if files {
        lemma_lookup_at(pl, i);
        lemma_lookup_at(cl, j);
        lemma_changed_paths_reported(pm, cm, pl, cl, pl[i].0, pl[i].1, cl[j].1);
    } else {
        lemma_lookup_at(pm, i);
        lemma_lookup_at(cm, j);
        lemma_changed_paths_reported(pm, cm, pl, cl, pm[i].0, pm[i].1, cm[j].1);
    }
}

} // verus!
