//! Stable sorting by a string key, in ascending code-point order.
use vstd::prelude::*;
use crate::order::{chars_lt, lemma_lex_asym, lemma_lex_total, lemma_lex_trans, lex_lt};

verus! {

broadcast use vstd::multiset::group_multiset_axioms, vstd::seq_lib::group_to_multiset_ensures;

/// A value with a string key to sort by.
pub trait LexKeyed: Sized {
    spec fn lex_key(&self) -> Seq<char>;
}

/// A value whose string key can be read at run time.
pub trait LexSortKey: LexKeyed {
    fn lex_key_chars(&self) -> (k: Vec<char>)
        ensures
            k@ == self.lex_key(),
    ;
}

/// No key is smaller than an earlier one.
pub open spec fn lex_sorted<T: LexKeyed>(s: Seq<T>) -> bool {
    forall|i: int, j: int| 0 <= i < j < s.len() ==> !lex_lt(s[j].lex_key(), s[i].lex_key())
}

/// `x` inserted into `s` after every element whose key is not above its own.
pub open spec fn insert_lex<T: LexKeyed>(s: Seq<T>, x: T) -> Seq<T>
    decreases s.len(),
{
    if s.len() == 0 {
        seq![x]
    } else if !lex_lt(x.lex_key(), s.last().lex_key()) {
        s.push(x)
    } else {
        insert_lex(s.drop_last(), x).push(s.last())
    }
}

/// Stable insertion sort of `s` by key, smallest first.
pub open spec fn sort_by_lex_key<T: LexKeyed>(s: Seq<T>) -> Seq<T>
    decreases s.len(),
{
    if s.len() == 0 {
        s
    } else {
        insert_lex(sort_by_lex_key(s.drop_last()), s.last())
    }
}

proof fn lemma_insert_lex_at<T: LexKeyed>(s: Seq<T>, x: T, j: int)
    requires
        0 <= j <= s.len(),
        j == 0 || !lex_lt(x.lex_key(), s[j - 1].lex_key()),
        forall|k: int| j <= k < s.len() ==> lex_lt(x.lex_key(), #[trigger] s[k].lex_key()),
    ensures
        insert_lex(s, x) == s.insert(j, x),
    decreases s.len(),
{
    if s.len() == 0 {
        assert(s.insert(j, x) =~= seq![x]);
    } else if s.len() == j {
        assert(s.insert(j, x) =~= s.push(x));
    } else {
        let d = s.drop_last();
        assert(lex_lt(x.lex_key(), s[s.len() - 1].lex_key()));
        assert forall|k: int| j <= k < d.len() implies lex_lt(x.lex_key(), #[trigger] d[k].lex_key()) by {
            assert(d[k] == s[k]);
        }
        lemma_insert_lex_at(d, x, j);
        assert(d.insert(j, x).push(s.last()) =~= s.insert(j, x));
    }
}

proof fn lemma_insert_lex_props<T: LexKeyed>(s: Seq<T>, x: T)
    requires
        lex_sorted(s),
    ensures
        lex_sorted(insert_lex(s, x)),
        insert_lex(s, x).to_multiset() == s.to_multiset().insert(x),
        insert_lex(s, x).len() == s.len() + 1,
    decreases s.len(),
{
    let r = insert_lex(s, x);
    if s.len() == 0 {
        assert(r =~= Seq::<T>::empty().push(x));
        lemma_lex_asym(x.lex_key(), x.lex_key());
    } else if !lex_lt(x.lex_key(), s.last().lex_key()) {
        assert forall|i: int, j: int| 0 <= i < j < r.len() implies !lex_lt(r[j].lex_key(), r[i].lex_key()) by {
            if j == r.len() - 1 {
                if i < s.len() - 1 {
                    assert(!lex_lt(s[s.len() - 1].lex_key(), s[i].lex_key()));
                    lemma_lex_total(s[i].lex_key(), s[s.len() - 1].lex_key());
                    if lex_lt(x.lex_key(), s[i].lex_key()) {
                        if s[i].lex_key() == s[s.len() - 1].lex_key() {
                        } else {
                            lemma_lex_trans(x.lex_key(), s[i].lex_key(), s[s.len() - 1].lex_key());
                        }
                    }
                }
            } else {
                assert(!lex_lt(s[j].lex_key(), s[i].lex_key()));
            }
        }
    } else {
        let d = s.drop_last();
        assert(lex_sorted(d)) by {
            assert forall|i: int, j: int| 0 <= i < j < d.len() implies !lex_lt(d[j].lex_key(), d[i].lex_key()) by {
                assert(!lex_lt(s[j].lex_key(), s[i].lex_key()));
            }
        }
        lemma_insert_lex_props(d, x);
        let rd = insert_lex(d, x);
        assert(s =~= d.push(s.last()));
        assert forall|i: int, j: int| 0 <= i < j < r.len() implies !lex_lt(r[j].lex_key(), r[i].lex_key()) by {
            if j == r.len() - 1 {
                assert(r[j] == s.last());
                assert(rd.to_multiset().count(rd[i]) > 0);
                if rd[i] == x {
                    lemma_lex_asym(x.lex_key(), s.last().lex_key());
                } else {
                    assert(d.to_multiset().count(rd[i]) > 0);
                    assert(d.contains(rd[i]));
                    let k = choose|k: int| 0 <= k < d.len() && d[k] == rd[i];
                    assert(!lex_lt(s[s.len() - 1].lex_key(), s[k].lex_key()));
                }
            } else {
                assert(!lex_lt(rd[j].lex_key(), rd[i].lex_key()));
            }
        }
    }
}

/// The sort yields a permutation of its input, in ascending key order.
pub proof fn lemma_lex_sort_props<T: LexKeyed>(s: Seq<T>)
    ensures
        lex_sorted(sort_by_lex_key(s)),
        sort_by_lex_key(s).to_multiset() == s.to_multiset(),
        sort_by_lex_key(s).len() == s.len(),
    decreases s.len(),
{
    if s.len() > 0 {
        lemma_lex_sort_props(s.drop_last());
        lemma_insert_lex_props(sort_by_lex_key(s.drop_last()), s.last());
        assert(s =~= s.drop_last().push(s.last()));
    }
}

/// Sorting commutes with a map of the elements that keeps their keys.
pub proof fn lemma_lex_sort_map<A: LexKeyed, B: LexKeyed>(s: Seq<A>, f: spec_fn(A) -> B)
    requires
        forall|a: A| #[trigger] f(a).lex_key() == a.lex_key(),
    ensures
        sort_by_lex_key(s).map_values(f) == sort_by_lex_key(s.map_values(f)),
    decreases s.len(),
{
    if s.len() > 0 {
        let d = s.drop_last();
        lemma_lex_sort_map(d, f);
        assert(s.map_values(f).drop_last() =~= d.map_values(f));
        lemma_insert_lex_map(sort_by_lex_key(d), s.last(), f);
    } else {
        assert(s.map_values(f) =~= Seq::<B>::empty());
    }
}

proof fn lemma_insert_lex_map<A: LexKeyed, B: LexKeyed>(s: Seq<A>, x: A, f: spec_fn(A) -> B)
    requires
        forall|a: A| #[trigger] f(a).lex_key() == a.lex_key(),
    ensures
        insert_lex(s, x).map_values(f) == insert_lex(s.map_values(f), f(x)),
    decreases s.len(),
{
    if s.len() == 0 {
        assert(seq![x].map_values(f) =~= seq![f(x)]);
    } else {
        let d = s.drop_last();
        assert(s.map_values(f).drop_last() =~= d.map_values(f));
        assert(s.map_values(f).last() == f(s.last()));
        assert(f(s.last()).lex_key() == s.last().lex_key());
        assert(f(x).lex_key() == x.lex_key());
        if !lex_lt(x.lex_key(), s.last().lex_key()) {
            assert(s.push(x).map_values(f) =~= s.map_values(f).push(f(x)));
        } else {
            lemma_insert_lex_map(d, x, f);
            assert(insert_lex(d, x).push(s.last()).map_values(f) =~= insert_lex(d, x).map_values(
                f,
            ).push(f(s.last())));
        }
    }
}

/// Sort `v` by key, smallest first, keeping the order of equal keys.
pub fn sort_lex<T: LexSortKey>(v: &mut Vec<T>)
    ensures
        final(v)@ == sort_by_lex_key(old(v)@),
        lex_sorted(final(v)@),
        final(v)@.to_multiset() == old(v)@.to_multiset(),
{
    let ghost input = v@;
    let mut out: Vec<T> = Vec::new();
    let n = v.len();
    let mut i: usize = 0;
    while i < n
        invariant
            n == input.len(),
            i <= n,
            v@ == input.subrange(i as int, n as int),
            out@ == sort_by_lex_key(input.subrange(0, i as int)),
        decreases n - i,
    {
        let x = v.remove(0);
        let kx = x.lex_key_chars();
        let mut j: usize = out.len();
        while j > 0 && chars_lt(&kx, &out[j - 1].lex_key_chars())
            invariant
                j <= out.len(),
                kx@ == x.lex_key(),
                forall|k: int| j <= k < out.len() ==> lex_lt(x.lex_key(), #[trigger] out@[k].lex_key()),
            decreases j,
        {
            j = j - 1;
        }
        proof {
            lemma_insert_lex_at(out@, x, j as int);
            assert(input.subrange(0, i + 1).drop_last() =~= input.subrange(0, i as int));
            assert(input.subrange(0, i + 1).last() == x);
        }
        out.insert(j, x);
        i = i + 1;
        assert(v@ =~= input.subrange(i as int, n as int));
    }
    assert(input.subrange(0, n as int) =~= input);
    proof {
        lemma_lex_sort_props(input);
    }
    *v = out;
}

impl LexKeyed for Vec<char> {
    open spec fn lex_key(&self) -> Seq<char> {
        self@
    }
}

impl LexKeyed for Seq<char> {
    open spec fn lex_key(&self) -> Seq<char> {
        *self
    }
}

impl LexSortKey for Vec<char> {
    fn lex_key_chars(&self) -> (k: Vec<char>) {
        self.clone()
    }
}

} // verus!
