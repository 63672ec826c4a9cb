//! Stable sorting by a numeric key, largest key first.
use vstd::prelude::*;

verus! {

broadcast use vstd::multiset::group_multiset_axioms, vstd::seq_lib::group_to_multiset_ensures;

/// A value with a numeric key to sort by.
pub trait Keyed: Sized {
    spec fn key(&self) -> int;
}

/// A value whose sort key can be computed at run time.
pub trait SortKey: Keyed {
    fn sort_key(&self) -> (k: u128)
        ensures
            k as int == self.key(),
    ;
}

/// Every key is at least every later key.
pub open spec fn sorted_desc(s: Seq<int>) -> bool {
    forall|i: int, j: int| 0 <= i < j < s.len() ==> s[i] >= s[j]
}

/// The keys of `s`, in order.
pub open spec fn keys<T: Keyed>(s: Seq<T>) -> Seq<int> {
    s.map_values(|e: T| e.key())
}

/// `x` inserted into `s` after every element whose key is at least its own.
pub open spec fn insert_desc<T: Keyed>(s: Seq<T>, x: T) -> Seq<T>
    decreases s.len(),
{
    if s.len() == 0 {
        seq![x]
    } else if s.last().key() >= x.key() {
        s.push(x)
    } else {
        insert_desc(s.drop_last(), x).push(s.last())
    }
}

/// Stable insertion sort of `s`, largest key first: elements with equal
/// keys keep their relative order.
pub open spec fn sort_by_key_desc<T: Keyed>(s: Seq<T>) -> Seq<T>
    decreases s.len(),
{
    if s.len() == 0 {
        s
    } else {
        insert_desc(sort_by_key_desc(s.drop_last()), s.last())
    }
}

proof fn lemma_insert_at<T: Keyed>(s: Seq<T>, x: T, j: int)
    requires
        0 <= j <= s.len(),
        j == 0 || s[j - 1].key() >= x.key(),
        forall|k: int| j <= k < s.len() ==> s[k].key() < x.key(),
    ensures
        insert_desc(s, x) == s.insert(j, x),
    decreases s.len(),
{
    if s.len() == 0 {
        assert(s.insert(j, x) =~= seq![x]);
    } else if s.len() == j {
        assert(s.insert(j, x) =~= s.push(x));
    } else {
        let d = s.drop_last();
        lemma_insert_at(d, x, j);
        assert(d.insert(j, x).push(s.last()) =~= s.insert(j, x));
    }
}

proof fn lemma_insert_props<T: Keyed>(s: Seq<T>, x: T)
    requires
        sorted_desc(keys(s)),
    ensures
        sorted_desc(keys(insert_desc(s, x))),
        insert_desc(s, x).to_multiset() == s.to_multiset().insert(x),
        insert_desc(s, x).len() == s.len() + 1,
    decreases s.len(),
{
    let r = insert_desc(s, x);
    if s.len() == 0 {
        assert(r =~= Seq::<T>::empty().push(x));
    } else if s.last().key() >= x.key() {
        assert forall|i: int, j: int| 0 <= i < j < r.len() implies keys(r)[i] >= keys(r)[j] by {
            if j == r.len() - 1 {
                assert(keys(s)[i] >= keys(s)[s.len() - 1]);
            } else {
                assert(keys(s)[i] >= keys(s)[j]);
            }
        }
    } else {
        let d = s.drop_last();
        assert(sorted_desc(keys(d))) by {
            assert forall|i: int, j: int| 0 <= i < j < d.len() implies keys(d)[i] >= keys(d)[j] by {
                assert(keys(s)[i] >= keys(s)[j]);
            }
        }
        lemma_insert_props(d, x);
        let rd = insert_desc(d, x);
        assert(s =~= d.push(s.last()));
        assert forall|i: int, j: int| 0 <= i < j < r.len() implies keys(r)[i] >= keys(r)[j] by {
            if j == r.len() - 1 {
                // the last element of `s` is below `x` and every element of `d`
                assert(r[j] == s.last());
                assert(rd.to_multiset().count(rd[i]) > 0);
                if rd[i] == x {
                } else {
                    assert(d.to_multiset().count(rd[i]) > 0);
                    assert(d.contains(rd[i]));
                    let k = choose|k: int| 0 <= k < d.len() && d[k] == rd[i];
                    assert(keys(s)[k] >= keys(s)[s.len() - 1]);
                }
            } else {
                assert(keys(rd)[i] >= keys(rd)[j]);
            }
        }
    }
}

/// The sort yields a permutation of its input, sorted by key.
pub proof fn lemma_sort_props<T: Keyed>(s: Seq<T>)
    ensures
        sorted_desc(keys(sort_by_key_desc(s))),
        sort_by_key_desc(s).to_multiset() == s.to_multiset(),
        sort_by_key_desc(s).len() == s.len(),
    decreases s.len(),
{
    if s.len() > 0 {
        lemma_sort_props(s.drop_last());
        lemma_insert_props(sort_by_key_desc(s.drop_last()), s.last());
        assert(s =~= s.drop_last().push(s.last()));
    }
}

/// Sort `v` by key, largest first, keeping the order of equal keys.
pub fn sort_desc<T: SortKey>(v: &mut Vec<T>)
    ensures
        final(v)@ == sort_by_key_desc(old(v)@),
        sorted_desc(keys(final(v)@)),
        final(v)@.to_multiset() == old(v)@.to_multiset(),
{
    let ghost input = v@;
    let mut out: Vec<T> = Vec::new();
    let n = v.len();
    let mut i: usize = 0;
    while i < n
        invariant
            n == input.len(),
            i <= n,
            v@ == input.subrange(i as int, n as int),
            out@ == sort_by_key_desc(input.subrange(0, i as int)),
        decreases n - i,
    {
        let x = v.remove(0);
        proof {
            lemma_sort_props(input.subrange(0, i as int));
        }
        let kx = x.sort_key();
        let mut j: usize = out.len();
        while j > 0 && out[j - 1].sort_key() < kx
            invariant
                j <= out.len(),
                kx == x.key(),
                forall|k: int| j <= k < out.len() ==> out@[k].key() < x.key(),
            decreases j,
        {
            j = j - 1;
        }
        proof {
            lemma_insert_at(out@, x, j as int);
            assert(input.subrange(0, i + 1).drop_last() =~= input.subrange(0, i as int));
            assert(input.subrange(0, i + 1).last() == x);
        }
        out.insert(j, x);
        i = i + 1;
        assert(v@ =~= input.subrange(i as int, n as int));
    }
    assert(input.subrange(0, n as int) =~= input);
    proof {
        lemma_sort_props(input);
    }
    *v = out;
}

/// Sorting commutes with a map of the elements that keeps their keys.
pub proof fn lemma_sort_map<A: Keyed, B: Keyed>(s: Seq<A>, f: spec_fn(A) -> B)
    requires
        forall|a: A| #[trigger] f(a).key() == a.key(),
    ensures
        sort_by_key_desc(s).map_values(f) == sort_by_key_desc(s.map_values(f)),
    decreases s.len(),
{
    if s.len() > 0 {
        let d = s.drop_last();
        lemma_sort_map(d, f);
        assert(s.map_values(f).drop_last() =~= d.map_values(f));
        lemma_insert_map(sort_by_key_desc(d), s.last(), f);
    } else {
        assert(s.map_values(f) =~= Seq::<B>::empty());
    }
}

proof fn lemma_insert_map<A: Keyed, B: Keyed>(s: Seq<A>, x: A, f: spec_fn(A) -> B)
    requires
        forall|a: A| #[trigger] f(a).key() == a.key(),
    ensures
        insert_desc(s, x).map_values(f) == insert_desc(s.map_values(f), f(x)),
    decreases s.len(),
{
    if s.len() == 0 {
        assert(seq![x].map_values(f) =~= seq![f(x)]);
    } else {
        let d = s.drop_last();
        assert(s.map_values(f).drop_last() =~= d.map_values(f));
        assert(s.map_values(f).last() == f(s.last()));
        assert(f(s.last()).key() == s.last().key());
        assert(f(x).key() == x.key());
        if s.last().key() >= x.key() {
            assert(s.push(x).map_values(f) =~= s.map_values(f).push(f(x)));
        } else {
            lemma_insert_map(d, x, f);
            assert(insert_desc(d, x).push(s.last()).map_values(f) =~= insert_desc(d, x).map_values(
                f,
            ).push(f(s.last())));
        }
    }
}

/// Equal multisets stay equal under any map of the elements.
pub proof fn lemma_perm_map<A, B>(a: Seq<A>, b: Seq<A>, f: spec_fn(A) -> B)
    requires
        a.to_multiset() == b.to_multiset(),
    ensures
        a.map_values(f).to_multiset() == b.map_values(f).to_multiset(),
    decreases a.len(),
{
    assert(a.to_multiset().len() == a.len());
    assert(b.to_multiset().len() == b.len());
    if a.len() == 0 {
        assert(b.len() == 0);
        assert(a.map_values(f) =~= b.map_values(f));
    } else {
        let x = a.last();
        assert(b.to_multiset().count(x) > 0);
        assert(b.contains(x));
        let k = choose|k: int| 0 <= k < b.len() && b[k] == x;
        let a1 = a.drop_last();
        let b1 = b.remove(k);
        assert(a =~= a1.push(x));
        assert(a1.to_multiset() =~= b1.to_multiset());
        lemma_perm_map(a1, b1, f);
        assert(a.map_values(f) =~= a1.map_values(f).push(f(x)));
        assert(b.map_values(f).remove(k) =~= b1.map_values(f));
        assert(b.map_values(f)[k] == f(x));
    }
}

/// Every element of a permutation of `a` is an element of `a`.
pub proof fn lemma_perm_member<A>(a: Seq<A>, b: Seq<A>, k: int)
    requires
        a.to_multiset() == b.to_multiset(),
        0 <= k < b.len(),
    ensures
        exists|j: int| 0 <= j < a.len() && a[j] == b[k],
{
    assert(b.to_multiset().count(b[k]) > 0);
    assert(a.contains(b[k]));
}

} // verus!
