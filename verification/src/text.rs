//! Character-level string helpers shared by the classifier, the analyzer and
//! the command builders. Paths are handled as sequences of `char`.
use vstd::prelude::*;
use vstd::string::StrSliceExecFns;

verus! {

/// What `str::to_lowercase` returns for a string with the given characters.
pub uninterp spec fn lowercase(s: Seq<char>) -> Seq<char>;

/// Calls `str::to_lowercase` (std). Claimed: the result's characters are
/// `lowercase` of the argument's characters, a function of them alone.
#[verifier::external_body]
pub(crate) fn to_lowercase(s: &str) -> (r: String)
    ensures
        r@ == lowercase(s@),
{
    s.to_lowercase()
}

/// `String::push` (std) appends one character.
pub assume_specification[ String::push ](string: &mut String, ch: char)
    ensures
        final(string)@ == old(string)@.push(ch),
;

/// The characters of `s`.
pub fn chars_of(s: &str) -> (v: Vec<char>)
    ensures
        v@ == s@,
{
    let n = s.unicode_len();
    let mut v: Vec<char> = Vec::new();
    let mut i: usize = 0;
    while i < n
        invariant
            n == s@.len(),
            i <= n,
            v@ == s@.subrange(0, i as int),
        decreases n - i,
    {
        let c = s.get_char(i);
        v.push(c);
        i = i + 1;
        assert(v@ =~= s@.subrange(0, i as int));
    }
    assert(v@ =~= s@);
    v
}

/// A `String` holding the characters of `v`.
pub fn string_of(v: &Vec<char>) -> (s: String)
    ensures
        s@ == v@,
{
    let mut s = String::new();
    let mut i: usize = 0;
    while i < v.len()
        invariant
            i <= v.len(),
            s@ == v@.subrange(0, i as int),
        decreases v.len() - i,
    {
        s.push(v[i]);
        i = i + 1;
        assert(s@ =~= v@.subrange(0, i as int));
    }
    assert(s@ =~= v@);
    s
}

/// Whether two character vectors hold the same characters.
pub fn chars_eq(a: &Vec<char>, b: &Vec<char>) -> (r: bool)
    ensures
        r == (a@ == b@),
{
    if a.len() != b.len() {
        return false;
    }
    let mut i: usize = 0;
    while i < a.len()
        invariant
            a.len() == b.len(),
            i <= a.len(),
            forall|k: int| 0 <= k < i ==> a@[k] == b@[k],
        decreases a.len() - i,
    {
        if a[i] != b[i] {
            return false;
        }
        i = i + 1;
    }
    assert(a@ =~= b@);
    true
}

/// Whether `v` holds exactly the characters of `lit`.
pub fn eq_lit(v: &Vec<char>, lit: &str) -> (r: bool)
    ensures
        r == (v@ == lit@),
{
    let l = chars_of(lit);
    chars_eq(v, &l)
}

/// Whether `pat` occurs in `s` starting at position `i`.
pub fn matches_at(s: &Vec<char>, i: usize, pat: &Vec<char>) -> (r: bool)
    requires
        i + pat.len() <= s.len(),
    ensures
        r == (s@.subrange(i as int, i + pat.len()) == pat@),
{
    let m = pat.len();
    let mut k: usize = 0;
    while k < m
        invariant
            m == pat.len(),
            i + m <= s.len(),
            k <= m,
            forall|j: int| 0 <= j < k ==> s@[i + j] == pat@[j],
        decreases m - k,
    {
        if s[i + k] != pat[k] {
            assert(s@.subrange(i as int, i + m)[k as int] != pat@[k as int]);
            return false;
        }
        k = k + 1;
    }
    assert(s@.subrange(i as int, i + m) =~= pat@);
    true
}

/// `x` is a prefix of `s` (`str::starts_with`).
pub open spec fn starts_with(s: Seq<char>, x: Seq<char>) -> bool {
    x.is_prefix_of(s)
}

/// `x` is a suffix of `s` (`str::ends_with`).
pub open spec fn ends_with(s: Seq<char>, x: Seq<char>) -> bool {
    x.is_suffix_of(s)
}

/// Whether `s` starts with the characters of `lit`.
pub fn starts_with_lit(s: &Vec<char>, lit: &str) -> (r: bool)
    ensures
        r == starts_with(s@, lit@),
{
    let p = chars_of(lit);
    if p.len() > s.len() {
        return false;
    }
    matches_at(s, 0, &p)
}

/// Whether `s` ends with the characters of `lit`.
pub fn ends_with_lit(s: &Vec<char>, lit: &str) -> (r: bool)
    ensures
        r == ends_with(s@, lit@),
{
    let p = chars_of(lit);
    if p.len() > s.len() {
        return false;
    }
    matches_at(s, s.len() - p.len(), &p)
}

/// `pat` occupies `s[i .. i + pat.len()]` and is bounded on both sides by a
/// `\` or by the ends of `s`: it is a run of whole `\`-delimited components.
pub open spec fn bounded_at(s: Seq<char>, i: int, pat: Seq<char>) -> bool {
    &&& 0 <= i
    &&& i + pat.len() <= s.len()
    &&& (i == 0 || s[i - 1] == '\\')
    &&& (i + pat.len() == s.len() || s[i + pat.len()] == '\\')
    &&& s.subrange(i, i + pat.len()) == pat
}

/// `pat` appears somewhere in `s` as a run of whole `\`-delimited components.
pub open spec fn has_components(s: Seq<char>, pat: Seq<char>) -> bool {
    exists|i: int| bounded_at(s, i, pat)
}

/// Whether `pat` appears in `s` as a run of whole `\`-delimited components.
pub fn find_components(s: &Vec<char>, pat: &Vec<char>) -> (r: bool)
    ensures
        r == has_components(s@, pat@),
{
    let n = s.len();
    let m = pat.len();
    if m > n {
        assert(forall|i: int| !bounded_at(s@, i, pat@));
        return false;
    }
    let mut i: usize = 0;
    while i <= n - m
        invariant
            n == s.len(),
            m == pat.len(),
            m <= n,
            i <= n - m,
            forall|k: int| 0 <= k < i ==> !bounded_at(s@, k, pat@),
        ensures
            forall|k: int| 0 <= k <= n - m ==> !bounded_at(s@, k, pat@),
        decreases n - m - i,
    {
        let left = i == 0 || s[i - 1] == '\\';
        let right = i + m == n || s[i + m] == '\\';
        if left && right && matches_at(s, i, pat) {
            assert(bounded_at(s@, i as int, pat@));
            return true;
        }
        if i == n - m {
            break;
        }
        i = i + 1;
    }
    false
}

/// The part of `s` after its last `c`, or `None` when `s` holds no `c`.
pub open spec fn after_last(s: Seq<char>, c: char) -> Option<Seq<char>>
    decreases s.len(),
{
    if s.len() == 0 {
        None
    } else if s.last() == c {
        Some(Seq::<char>::empty())
    } else {
        match after_last(s.drop_last(), c) {
            Some(t) => Some(t.push(s.last())),
            None => None,
        }
    }
}

proof fn lemma_after_last(s: Seq<char>, c: char, j: int)
    requires
        0 <= j <= s.len(),
        j == 0 || s[j - 1] == c,
        forall|k: int| j <= k < s.len() ==> s[k] != c,
    ensures
        after_last(s, c) == (if j == 0 { None } else { Some(s.subrange(j, s.len() as int)) }),
    decreases s.len(),
{
    if s.len() == j {
        if j > 0 {
            assert(s.subrange(j, s.len() as int) =~= Seq::<char>::empty());
        }
    } else {
        let d = s.drop_last();
        assert forall|k: int| j <= k < d.len() implies d[k] != c by {
            assert(d[k] == s[k]);
        }
        if j > 0 {
            assert(d[j - 1] == s[j - 1]);
        }
        lemma_after_last(d, c, j);
        if j > 0 {
            assert(d.subrange(j, d.len() as int).push(s.last()) =~= s.subrange(j, s.len() as int));
        }
    }
}

/// The characters after the last `c` in `s`, or `None` when there is none.
pub fn split_after_last(s: &Vec<char>, c: char) -> (r: Option<Vec<char>>)
    ensures
        match r {
            Some(v) => after_last(s@, c) == Some(v@),
            None => after_last(s@, c) is None,
        },
{
    let n = s.len();
    let mut j: usize = n;
    while j > 0 && s[j - 1] != c
        invariant
            n == s.len(),
            j <= n,
            forall|k: int| j <= k < n ==> s@[k] != c,
        decreases j,
    {
        j = j - 1;
    }
    proof {
        lemma_after_last(s@, c, j as int);
    }
    if j == 0 {
        None
    } else {
        let mut out: Vec<char> = Vec::new();
        let mut k: usize = j;
        while k < n
            invariant
                n == s.len(),
                j <= k <= n,
                out@ == s@.subrange(j as int, k as int),
            decreases n - k,
        {
            out.push(s[k]);
            k = k + 1;
            assert(out@ =~= s@.subrange(j as int, k as int));
        }
        Some(out)
    }
}

/// `s` with every `/` replaced by `\` (`str::replace('/', "\\")`).
pub open spec fn slashes_to_backslashes(s: Seq<char>) -> Seq<char> {
    s.map_values(|c: char| if c == '/' { '\\' } else { c })
}

/// The characters of `s` with every `/` turned into `\`.
pub fn backslashed(s: &str) -> (v: Vec<char>)
    ensures
        v@ == slashes_to_backslashes(s@),
{
    let src = chars_of(s);
    let mut v: Vec<char> = Vec::new();
    let mut i: usize = 0;
    while i < src.len()
        invariant
            i <= src.len(),
            src@ == s@,
            v@ == slashes_to_backslashes(s@.subrange(0, i as int)),
        decreases src.len() - i,
    {
        let c = src[i];
        v.push(if c == '/' { '\\' } else { c });
        i = i + 1;
        assert(v@ =~= slashes_to_backslashes(s@.subrange(0, i as int)));
    }
    assert(s@.subrange(0, i as int) =~= s@);
    v
}

} // verus!
