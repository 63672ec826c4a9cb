//! Streaming selection of the largest files: keeps the N largest files seen
//! so far, so memory stays proportional to N whatever the number of files.
use vstd::prelude::*;
use vstd::multiset::Multiset;
use crate::classify::{classify, spec_classify};
use crate::models::LargeFileEntry;
use crate::order::{chars_lt, item_lt, lemma_item_order, Item};
use crate::sort::{keys, sort_desc, Keyed, SortKey, sorted_desc};
use crate::text::{chars_of, string_of};

verus! {

broadcast use
    vstd::multiset::group_multiset_axioms,
    vstd::multiset::group_multiset_properties,
    vstd::multiset::lemma_multiset_empty_len,
    vstd::seq_lib::group_to_multiset_ensures,
;

/// `m` is a least element of `kept` in `(size, path)` order.
pub open spec fn is_least(m: Item, kept: Multiset<Item>) -> bool {
    &&& kept.count(m) > 0
    &&& forall|y: Item| kept.count(y) > 0 ==> !item_lt(y, m)
}

/// The least element of `kept` in `(size, path)` order.
pub open spec fn least(kept: Multiset<Item>) -> Item {
    choose|m: Item| is_least(m, kept)
}

/// What one candidate does to the kept files: dropped when `n == 0` or it
/// is smaller than `min_bytes`; added while fewer than `n` are kept;
/// otherwise it replaces the least kept file when it is strictly larger.
pub open spec fn step(kept: Multiset<Item>, x: Item, min_bytes: u64, n: nat) -> Multiset<Item> {
    if n == 0 || x.0 < min_bytes {
        kept
    } else if kept.len() < n {
        kept.insert(x)
    } else if x.0 > least(kept).0 {
        kept.remove(least(kept)).insert(x)
    } else {
        kept
    }
}

/// The files kept after considering `xs` in order, starting from none.
pub open spec fn top_n(xs: Seq<Item>, min_bytes: u64, n: nat) -> Multiset<Item>
    decreases xs.len(),
{
    if xs.len() == 0 {
        Multiset::empty()
    } else {
        step(top_n(xs.drop_last(), min_bytes, n), xs.last(), min_bytes, n)
    }
}

/// The candidates among `xs` that reach `min_bytes`.
pub open spec fn qualifying(xs: Seq<Item>, min_bytes: u64) -> Multiset<Item>
    decreases xs.len(),
{
    if xs.len() == 0 {
        Multiset::empty()
    } else if xs.last().0 >= min_bytes {
        qualifying(xs.drop_last(), min_bytes).insert(xs.last())
    } else {
        qualifying(xs.drop_last(), min_bytes)
    }
}

/// `kept` is a selection of the `n` largest of `seen`: it is drawn from
/// `seen`, holds `min(n, |seen|)` files, and no file left out is larger than
/// a file kept.
pub open spec fn largest_of(kept: Multiset<Item>, seen: Multiset<Item>, n: nat) -> bool {
    &&& forall|x: Item| kept.count(x) <= seen.count(x)
    &&& kept.len() == if seen.len() < n { seen.len() } else { n }
    &&& forall|x: Item, y: Item|
        seen.count(x) > kept.count(x) && kept.count(y) > 0 ==> y.0 >= x.0
}

proof fn lemma_least_unique(m: Item, kept: Multiset<Item>)
    requires
        is_least(m, kept),
    ensures
        least(kept) == m,
{
    let c = least(kept);
    assert(is_least(c, kept));
    lemma_item_order(m, c, m);
}

/// Considering one more candidate keeps the kept files a selection of the
/// `n` largest qualifying candidates.
pub proof fn lemma_step_keeps_largest(
    kept: Multiset<Item>,
    seen: Multiset<Item>,
    x: Item,
    min_bytes: u64,
    n: nat,
)
    requires
        largest_of(kept, seen, n),
        kept.len() < n ==> kept == seen,
    ensures
        ({
            let seen2 = if x.0 >= min_bytes { seen.insert(x) } else { seen };
            let kept2 = step(kept, x, min_bytes, n);
            &&& largest_of(kept2, seen2, n)
            &&& kept2.len() < n ==> kept2 == seen2
        }),
{
    let seen2 = if x.0 >= min_bytes { seen.insert(x) } else { seen };
    let kept2 = step(kept, x, min_bytes, n);
    if n == 0 {
        assert(kept.len() == 0);
        assert forall|z: Item| kept.count(z) == 0 by {
            if kept.count(z) > 0 {
                assert(kept.len() > 0);
            }
        }
    } else if x.0 < min_bytes {
    } else if kept.len() < n {
        assert(kept2 =~= seen2);
    } else {
        assert(kept.len() > 0);
        let m = least(kept);
        assert(exists|w: Item| is_least(w, kept)) by {
            lemma_least_exists(kept);
        }
        assert(is_least(m, kept));
        if x.0 > m.0 {
            assert forall|a: Item, b: Item|
                seen2.count(a) > kept2.count(a) && kept2.count(b) > 0 implies b.0 >= a.0 by {
                if b == x {
                    if a == m {
                    } else {
                        assert(seen.count(a) > kept.count(a));
                        assert(kept.count(m) > 0);
                    }
                } else {
                    assert(kept.count(b) > 0);
                    if a == m {
                        lemma_item_order(b, m, b);
                    } else {
                        assert(seen.count(a) > kept.count(a));
                    }
                }
            }
        } else {
            assert forall|a: Item, b: Item|
                seen2.count(a) > kept2.count(a) && kept2.count(b) > 0 implies b.0 >= a.0 by {
                if a == x {
                    lemma_item_order(b, m, b);
                } else {
                    assert(seen.count(a) > kept.count(a));
                }
            }
        }
    }
}

/// A non-empty multiset has a least element.
pub proof fn lemma_least_exists(kept: Multiset<Item>)
    requires
        kept.len() > 0,
    ensures
        exists|m: Item| is_least(m, kept),
    decreases kept.len(),
{
    let a = kept.choose();
    assert(kept.count(a) > 0);
    let rest = kept.remove(a);
    if rest.len() == 0 {
        assert forall|y: Item| kept.count(y) > 0 implies !item_lt(y, a) by {
            if y != a {
                assert(rest.count(y) > 0);
            } else {
                lemma_item_order(a, a, a);
            }
        }
        assert(is_least(a, kept));
    } else {
        lemma_least_exists(rest);
        let m = choose|m: Item| is_least(m, rest);
        if item_lt(a, m) {
            assert forall|y: Item| kept.count(y) > 0 implies !item_lt(y, a) by {
                lemma_item_order(y, a, m);
                lemma_item_order(a, a, a);
                if y != a {
                    assert(rest.count(y) > 0);
                }
            }
            assert(is_least(a, kept));
        } else {
            assert(is_least(m, kept));
        }
    }
}

/// Streaming Top-N accumulator: holds the `n` largest files considered so
/// far that reach `min_bytes`.
pub struct TopNCollector {
    items: Vec<(u64, Vec<char>)>,
    min_bytes: u64,
    n: usize,
    seen: Ghost<Multiset<Item>>,
}

/// A stored candidate, as a size and the characters of its path.
pub open spec fn item_of(e: (u64, Vec<char>)) -> Item {
    (e.0, e.1@)
}

impl TopNCollector {
    /// The files currently kept.
    pub closed spec fn kept(&self) -> Multiset<Item> {
        self.items@.map_values(|e: (u64, Vec<char>)| item_of(e)).to_multiset()
    }

    /// The candidates considered so far that reach `min_bytes`.
    pub closed spec fn seen(&self) -> Multiset<Item> {
        self.seen@
    }

    pub closed spec fn spec_min_bytes(&self) -> u64 {
        self.min_bytes
    }

    pub closed spec fn spec_n(&self) -> nat {
        self.n as nat
    }

    /// The collector's invariant: the kept files are the `n` largest seen.
    pub closed spec fn wf(&self) -> bool {
        &&& largest_of(self.kept(), self.seen@, self.n as nat)
        &&& self.kept().len() < self.n ==> self.kept() == self.seen@
        &&& self.items.len() <= self.n
    }

    pub fn new(min_bytes: u64, n: usize) -> (r: Self)
        ensures
            r.wf(),
            r.kept() == Multiset::<Item>::empty(),
            r.seen() == Multiset::<Item>::empty(),
            r.spec_min_bytes() == min_bytes,
            r.spec_n() == n,
    {
        let r = TopNCollector { items: Vec::new(), min_bytes, n, seen: Ghost(Multiset::empty()) };
        assert(r.items@.map_values(|e: (u64, Vec<char>)| item_of(e)) =~= Seq::<Item>::empty());
        r
    }

    /// The index of a least stored item.
    fn least_index(&self) -> (i: usize)
        requires
            self.items.len() > 0,
        ensures
            i < self.items.len(),
            is_least(item_of(self.items@[i as int]), self.kept()),
    {
        let ghost s = self.items@.map_values(|e: (u64, Vec<char>)| item_of(e));
        let mut best: usize = 0;
        let mut i: usize = 1;
        proof {
            lemma_item_order(s[0], s[0], s[0]);
        }
        while i < self.items.len()
            invariant
                s == self.items@.map_values(|e: (u64, Vec<char>)| item_of(e)),
                0 < i <= self.items.len(),
                best < i,
                forall|j: int| 0 <= j < i ==> !item_lt(#[trigger] s[j], s[best as int]),
            decreases self.items.len() - i,
        {
            let a = &self.items[i];
            let b = &self.items[best];
            let smaller = a.0 < b.0 || (a.0 == b.0 && chars_lt(&a.1, &b.1));
            if smaller {
                proof {
                    assert forall|j: int| 0 <= j < i + 1 implies !item_lt(#[trigger] s[j], s[i as int]) by {
                        lemma_item_order(s[j], s[i as int], s[best as int]);
                        lemma_item_order(s[j], s[best as int], s[i as int]);
                    }
                }
                best = i;
            } else {
                proof {
                    lemma_item_order(s[i as int], s[best as int], s[i as int]);
                    lemma_item_order(s[best as int], s[i as int], s[best as int]);
                }
            }
            i = i + 1;
        }
        proof {
            assert forall|y: Item| self.kept().count(y) > 0 implies !item_lt(y, s[best as int]) by {
                assert(s.contains(y));
                let j = choose|j: int| 0 <= j < s.len() && s[j] == y;
                assert(!item_lt(s[j], s[best as int]));
            }
            assert(s.contains(s[best as int]));
        }
        best
    }

    /// Consider one file. Below `min_bytes` or `n == 0` it is dropped; a
    /// full collector evicts its least file only when the candidate is
    /// strictly larger.
    pub fn consider(&mut self, path: String, size: u64)
        requires
            old(self).wf(),
        ensures
            final(self).wf(),
            final(self).kept() == step(old(self).kept(), (size, path@), old(self).spec_min_bytes(), old(self).spec_n()),
            final(self).seen() == (if size >= old(self).spec_min_bytes() {
                old(self).seen().insert((size, path@))
            } else {
                old(self).seen()
            }),
            final(self).spec_min_bytes() == old(self).spec_min_bytes(),
            final(self).spec_n() == old(self).spec_n(),
    {
        let ghost x: Item = (size, path@);
        let ghost old_kept = self.kept();
        let ghost old_seen = self.seen@;
        proof {
            lemma_step_keeps_largest(old_kept, old_seen, x, self.min_bytes, self.n as nat);
        }
        if size >= self.min_bytes {
            self.seen = Ghost(self.seen@.insert(x));
        }
        if self.n == 0 || size < self.min_bytes {
            return;
        }
        let ghost s = self.items@.map_values(|e: (u64, Vec<char>)| item_of(e));
        assert(s.len() == self.items.len());
        assert(old_kept.len() == s.len());
        if self.items.len() < self.n {
            let cs = chars_of(path.as_str());
            self.items.push((size, cs));
            assert(self.items@.map_values(|e: (u64, Vec<char>)| item_of(e)) =~= s.push(x));
        } else {
            let i = self.least_index();
            proof {
                lemma_least_unique(item_of(self.items@[i as int]), old_kept);
            }
            if size > self.items[i].0 {
                self.items.remove(i);
                let cs = chars_of(path.as_str());
                self.items.push((size, cs));
                assert(self.items@.map_values(|e: (u64, Vec<char>)| item_of(e)) =~= s.remove(
                    i as int,
                ).push(x));
            }
        }
    }

    /// The kept files as entries sorted by size, largest first, each tagged
    /// with its cleanability advice.
    pub fn finish(self) -> (out: Vec<LargeFileEntry>)
        requires
            self.wf(),
        ensures
            out@.map_values(|e: LargeFileEntry| (e.size_bytes, e.path@)).to_multiset() == self.kept(),
            largest_of(self.kept(), self.seen(), self.spec_n()),
            sorted_desc(out@.map_values(|e: LargeFileEntry| e.size_bytes as int)),
            forall|i: int|
                0 <= i < out.len() ==> (#[trigger] out@[i].advice, out@[i].advice_reason@)
                    == spec_classify(out@[i].path@),
    {
        let mut out: Vec<LargeFileEntry> = Vec::new();
        let ghost s = self.items@.map_values(|e: (u64, Vec<char>)| item_of(e));
        let mut i: usize = 0;
        while i < self.items.len()
            invariant
                s == self.items@.map_values(|e: (u64, Vec<char>)| item_of(e)),
                i <= self.items.len(),
                out@.map_values(|e: LargeFileEntry| (e.size_bytes, e.path@)) == s.subrange(0, i as int),
                forall|k: int|
                    0 <= k < out.len() ==> (#[trigger] out@[k].advice, out@[k].advice_reason@)
                        == spec_classify(out@[k].path@),
            decreases self.items.len() - i,
        {
            let path = string_of(&self.items[i].1);
            let (advice, advice_reason) = classify(path.as_str());
            let entry = LargeFileEntry { path, size_bytes: self.items[i].0, advice, advice_reason };
            assert((entry.size_bytes, entry.path@) == s[i as int]);
            let ghost prev = out@;
            out.push(entry);
            assert(out@ == prev.push(entry));
            assert(out@.map_values(|e: LargeFileEntry| (e.size_bytes, e.path@)) =~= prev.map_values(|e: LargeFileEntry| (e.size_bytes, e.path@)).push((entry.size_bytes, entry.path@)));
            i = i + 1;
            assert(out@.map_values(|e: LargeFileEntry| (e.size_bytes, e.path@)) =~= s.subrange(0, i as int));
        }
        assert(s.subrange(0, i as int) =~= s);
        let ghost before = out@;
        sort_desc(&mut out);
        proof {
            crate::sort::lemma_perm_map(before, out@, |e: LargeFileEntry| (e.size_bytes, e.path@));
            assert forall|k: int| 0 <= k < out.len() implies (#[trigger] out@[k].advice, out@[k].advice_reason@)
                == spec_classify(out@[k].path@) by {
                crate::sort::lemma_perm_member(before, out@, k);
                let j = choose|j: int| 0 <= j < before.len() && before[j] == out@[k];
                assert((before[j].advice, before[j].advice_reason@) == spec_classify(before[j].path@));
            }
            assert(keys(out@) =~= out@.map_values(|e: LargeFileEntry| e.size_bytes as int));
        }
        out
    }
}

/// A collector in its invariant keeps a selection of the `n` largest of the
/// qualifying files it has considered.
pub proof fn lemma_collector_keeps_largest(c: TopNCollector)
    requires
        c.wf(),
    ensures
        largest_of(c.kept(), c.seen(), c.spec_n()),
{
}

impl Keyed for LargeFileEntry {
    open spec fn key(&self) -> int {
        self.size_bytes as int
    }
}

impl SortKey for LargeFileEntry {
    fn sort_key(&self) -> (k: u128) {
        self.size_bytes as u128
    }
}

/// Keep the `n` largest of `candidates` that reach `min_bytes`, largest
/// first, each tagged with its cleanability advice.
pub fn top_n_files(candidates: Vec<(String, u64)>, min_bytes: u64, n: usize) -> (out: Vec<LargeFileEntry>)
    ensures
        ({
            let xs = candidates@.map_values(|c: (String, u64)| (c.1, c.0@));
            let got = out@.map_values(|e: LargeFileEntry| (e.size_bytes, e.path@)).to_multiset();
            &&& got == top_n(xs, min_bytes, n as nat)
            &&& largest_of(got, qualifying(xs, min_bytes), n as nat)
        }),
        sorted_desc(out@.map_values(|e: LargeFileEntry| e.size_bytes as int)),
        forall|i: int|
            0 <= i < out.len() ==> (#[trigger] out@[i].advice, out@[i].advice_reason@)
                == spec_classify(out@[i].path@),
{
    let ghost xs = candidates@.map_values(|c: (String, u64)| (c.1, c.0@));
    let mut c = TopNCollector::new(min_bytes, n);
    let mut i: usize = 0;
    while i < candidates.len()
        invariant
            xs == candidates@.map_values(|c: (String, u64)| (c.1, c.0@)),
            i <= candidates.len(),
            c.wf(),
            c.spec_min_bytes() == min_bytes,
            c.spec_n() == n,
            c.kept() == top_n(xs.subrange(0, i as int), min_bytes, n as nat),
            c.seen() == qualifying(xs.subrange(0, i as int), min_bytes),
        decreases candidates.len() - i,
    {
        let path = candidates[i].0.clone();
        let size = candidates[i].1;
        c.consider(path, size);
        proof {
            assert(xs.subrange(0, i + 1).drop_last() =~= xs.subrange(0, i as int));
            assert(xs.subrange(0, i + 1).last() == (size, path@));
        }
        i = i + 1;
    }
    assert(xs.subrange(0, i as int) =~= xs);
    c.finish()
}

} // verus!
