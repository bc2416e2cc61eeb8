//! Character-sequence utilities shared by the parser, the identifier
//! resolver and the search filter: whitespace classification, first-match
//! scanning, trimming and substring search, each with an exact
//! specification over `Seq<char>`.

use vstd::prelude::*;
use vstd::string::StrSliceExecFns;

verus! {

/// The views of a sequence of strings.
pub open spec fn str_views(ls: Seq<String>) -> Seq<Seq<char>> {
    ls.map_values(|l: String| l@)
}

/// ASCII whitespace: the character set used for title trimming and
/// blank-line detection.
pub open spec fn is_space(c: char) -> bool {
    c == ' ' || c == '\t' || c == '\n' || c == '\r' || c == '\u{c}'
}

/// Executable mirror of `is_space`.
pub fn is_space_char(c: char) -> (r: bool)
    ensures
        r == is_space(c),
{
    c == ' ' || c == '\t' || c == '\n' || c == '\r' || c == '\u{c}'
}

/// Index of the first occurrence of `c` in `s`, or `s.len()` if absent.
pub open spec fn find_char(s: Seq<char>, c: char) -> int
    decreases s.len(),
{
    if s.len() == 0 {
        0
    } else if s[0] == c {
        0
    } else {
        1 + find_char(s.drop_first(), c)
    }
}

/// An index with the characteristic properties of `find_char` is
/// `find_char`: a scan that exhibits them has found it.
pub proof fn lemma_find_char_is(s: Seq<char>, c: char, k: int)
    requires
        0 <= k <= s.len(),
        forall|j: int| 0 <= j < k ==> s[j] != c,
        k < s.len() ==> s[k] == c,
    ensures
        find_char(s, c) == k,
    decreases s.len(),
{
    if s.len() == 0 {
    } else if s[0] == c {
        assert(k == 0);
    } else {
        let t = s.drop_first();
        assert(k >= 1);
        assert forall|j: int| 0 <= j < k - 1 implies t[j] != c by {
            assert(t[j] == s[j + 1]);
        }
        if k - 1 < t.len() {
            assert(t[k - 1] == s[k]);
        }
        lemma_find_char_is(t, c, k - 1);
    }
}

/// `s` with leading whitespace removed.
pub open spec fn trim_front(s: Seq<char>) -> Seq<char>
    decreases s.len(),
{
    if s.len() > 0 && is_space(s[0]) {
        trim_front(s.drop_first())
    } else {
        s
    }
}

/// `s` with trailing whitespace removed.
pub open spec fn trim_back(s: Seq<char>) -> Seq<char>
    decreases s.len(),
{
    if s.len() > 0 && is_space(s[s.len() - 1]) {
        trim_back(s.drop_last())
    } else {
        s
    }
}

/// `s` with surrounding whitespace removed.
pub open spec fn trimmed(s: Seq<char>) -> Seq<char> {
    trim_back(trim_front(s))
}

/// A sequence whose first character is no whitespace keeps it at the
/// front through trailing trimming, and stays non-empty.
pub proof fn lemma_trim_back_head(s: Seq<char>)
    requires
        s.len() > 0,
        !is_space(s[0]),
    ensures
        trim_back(s).len() > 0,
        trim_back(s)[0] == s[0],
    decreases s.len(),
{
    if is_space(s[s.len() - 1]) {
        let t = s.drop_last();
        assert(t[0] == s[0]);
        lemma_trim_back_head(t);
    }
}

/// Leading trimming of a sequence with some non-whitespace character
/// leaves a non-empty sequence starting with a non-whitespace
/// character.
pub proof fn lemma_trim_front_nonspace(s: Seq<char>)
    requires
        exists|j: int| 0 <= j < s.len() && !is_space(s[j]),
    ensures
        trim_front(s).len() > 0,
        !is_space(trim_front(s)[0]),
    decreases s.len(),
{
    let j = choose|j: int| 0 <= j < s.len() && !is_space(s[j]);
    if is_space(s[0]) {
        let t = s.drop_first();
        assert(j >= 1);
        assert(t[j - 1] == s[j]);
        lemma_trim_front_nonspace(t);
    }
}

/// A sequence with some non-whitespace character does not trim to the
/// empty sequence.
pub proof fn lemma_trimmed_keeps_nonspace(s: Seq<char>)
    requires
        exists|j: int| 0 <= j < s.len() && !is_space(s[j]),
    ensures
        trimmed(s).len() > 0,
{
    lemma_trim_front_nonspace(s);
    lemma_trim_back_head(trim_front(s));
}

/// A sequence whose two ends are non-whitespace is already trimmed.
pub proof fn lemma_trimmed_id(s: Seq<char>)
    requires
        s.len() > 0,
        !is_space(s[0]),
        !is_space(s[s.len() - 1]),
    ensures
        trimmed(s) == s,
{
    assert(trim_front(s) == s);
    assert(trim_back(s) == s);
}

/// Trimming one leading space off a sequence whose ends are
/// non-whitespace gives the sequence itself.
pub proof fn lemma_trimmed_space_prefix(s: Seq<char>)
    requires
        s.len() > 0,
        !is_space(s[0]),
        !is_space(s[s.len() - 1]),
    ensures
        trimmed(seq![' '] + s) == s,
{
    let w = seq![' '] + s;
    assert(w[0] == ' ');
    assert(w.drop_first() =~= s);
    assert(trim_front(w) == trim_front(s));
    lemma_trimmed_id(s);
}

/// Index at which the last `/`-separated segment of `s` starts: right
/// after the last `/`, or `0` when `s` holds no `/`.
pub open spec fn seg_start(s: Seq<char>) -> int
    decreases s.len(),
{
    if s.len() == 0 {
        0
    } else if s[s.len() - 1] == '/' {
        s.len() as int
    } else {
        seg_start(s.drop_last())
    }
}

/// The last `/`-separated segment of `s`; the whole of `s` when it holds
/// no `/`.
pub open spec fn last_segment(s: Seq<char>) -> Seq<char> {
    s.subrange(seg_start(s), s.len() as int)
}

/// An index after whose position no `/` follows, and which sits right
/// after a `/` (or at the start), is `seg_start`.
pub proof fn lemma_seg_start_is(s: Seq<char>, k: int)
    requires
        0 <= k <= s.len(),
        k > 0 ==> s[k - 1] == '/',
        forall|j: int| k <= j < s.len() ==> s[j] != '/',
    ensures
        seg_start(s) == k,
    decreases s.len(),
{
    if s.len() == 0 {
    } else if s[s.len() - 1] == '/' {
        assert(k == s.len());
    } else {
        let t = s.drop_last();
        assert(k < s.len());
        assert forall|j: int| k <= j < t.len() implies t[j] != '/' by {
            assert(t[j] == s[j]);
        }
        if k > 0 {
            assert(t[k - 1] == s[k - 1]);
        }
        lemma_seg_start_is(t, k);
    }
}

/// `pat` occurs in `s` starting exactly at index `i`.
pub open spec fn match_at(s: Seq<char>, pat: Seq<char>, i: int) -> bool {
    0 <= i && i + pat.len() <= s.len() && s.subrange(i, i + pat.len() as int) == pat
}

/// `pat` occurs somewhere in `s`.
pub open spec fn has_sub(s: Seq<char>, pat: Seq<char>) -> bool {
    exists|i: int| match_at(s, pat, i)
}

/// Index of the first occurrence of `pat` in `s` at or after `i`, if any.
pub open spec fn first_match_from(s: Seq<char>, pat: Seq<char>, i: int) -> Option<int>
    decreases s.len() - i + 1,
{
    if i + pat.len() > s.len() {
        None
    } else if match_at(s, pat, i) {
        Some(i)
    } else {
        first_match_from(s, pat, i + 1)
    }
}

/// `first_match_from` finds a match, and the earliest one; when it finds
/// none, there is none at or after the start.
pub proof fn lemma_first_match_from(s: Seq<char>, pat: Seq<char>, from: int)
    ensures
        (match first_match_from(s, pat, from) {
            Some(i) => from <= i && match_at(s, pat, i) && forall|j: int|
                from <= j < i ==> !match_at(s, pat, j),
            None => forall|j: int| j >= from ==> !match_at(s, pat, j),
        }),
    decreases s.len() - from + 1,
{
    if from + pat.len() > s.len() {
    } else if match_at(s, pat, from) {
    } else {
        lemma_first_match_from(s, pat, from + 1);
    }
}

/// `pat` occurs in `s` exactly when a search from the start finds it.
pub proof fn lemma_has_sub(s: Seq<char>, pat: Seq<char>)
    ensures
        has_sub(s, pat) <==> first_match_from(s, pat, 0) is Some,
{
    lemma_first_match_from(s, pat, 0);
    if has_sub(s, pat) && first_match_from(s, pat, 0) is None {
        let i = choose|i: int| match_at(s, pat, i);
        assert(i >= 0);
        assert(!match_at(s, pat, i));
    }
}

/// Collects the characters of a string slice into a vector with the same
/// view.
pub fn chars_vec(s: &str) -> (v: Vec<char>)
    ensures
        v@ == s@,
{
    let n = s.unicode_len();
    let mut v: Vec<char> = Vec::new();
    let mut i: usize = 0;
    while i < n
        invariant
            n == s@.len(),
            i <= n,
            v@ == s@.subrange(0, i as int),
        decreases n - i,
    {
        let c = s.get_char(i);
        v.push(c);
        assert(v@ =~= s@.subrange(0, (i + 1) as int));
        i += 1;
    }
    assert(v@ =~= s@);
    v
}

/// First index at or after `from` holding character `c`, or `hi` when the
/// range `[from, hi)` does not hold it.
pub fn scan_char(v: &Vec<char>, from: usize, hi: usize, c: char) -> (r: usize)
    requires
        from <= hi <= v.len(),
    ensures
        r - from == find_char(v@.subrange(from as int, hi as int), c),
        from <= r <= hi,
        forall|j: int| from <= j < r ==> v@[j] != c,
        r < hi ==> v@[r as int] == c,
{
    let mut i: usize = from;
    while i < hi && v[i] != c
        invariant
            from <= i <= hi <= v.len(),
            forall|j: int| from <= j < i ==> v@[j] != c,
        decreases hi - i,
    {
        i += 1;
    }
    proof {
        let s = v@.subrange(from as int, hi as int);
        assert forall|j: int| 0 <= j < i - from implies s[j] != c by {
            assert(s[j] == v@[from + j]);
        }
        if i < hi {
            assert(s[i - from] == v@[i as int]);
        }
        lemma_find_char_is(s, c, i - from);
    }
    i
}

/// Bounds of the whitespace-trimmed middle of the range `[lo, hi)` of `v`.
pub fn trim_bounds(v: &Vec<char>, lo: usize, hi: usize) -> (r: (usize, usize))
    requires
        lo <= hi <= v.len(),
    ensures
        lo <= r.0 <= r.1 <= hi,
        v@.subrange(r.0 as int, r.1 as int) == trimmed(
            v@.subrange(lo as int, hi as int),
        ),
{
    let mut a: usize = lo;
    while a < hi && is_space_char(v[a])
        invariant
            lo <= a <= hi <= v.len(),
            trim_front(v@.subrange(lo as int, hi as int)) == trim_front(
                v@.subrange(a as int, hi as int),
            ),
        decreases hi - a,
    {
        proof {
            let s = v@.subrange(a as int, hi as int);
            assert(s[0] == v@[a as int]);
            assert(s.drop_first() =~= v@.subrange(a + 1, hi as int));
        }
        a += 1;
    }
    proof {
        let s = v@.subrange(a as int, hi as int);
        if s.len() > 0 {
            assert(s[0] == v@[a as int]);
        }
        assert(trim_front(s) == s);
    }
    let mut b: usize = hi;
    while b > a && is_space_char(v[b - 1])
        invariant
            lo <= a <= b <= hi <= v.len(),
            trim_back(v@.subrange(a as int, hi as int)) == trim_back(
                v@.subrange(a as int, b as int),
            ),
        decreases b,
    {
        proof {
            let s = v@.subrange(a as int, b as int);
            assert(s[s.len() - 1] == v@[b - 1]);
            assert(s.drop_last() =~= v@.subrange(a as int, b - 1));
        }
        b -= 1;
    }
    proof {
        let s = v@.subrange(a as int, b as int);
        if s.len() > 0 {
            assert(s[s.len() - 1] == v@[b - 1]);
        }
        assert(trim_back(s) == s);
    }
    (a, b)
}

/// Start of the last `/`-separated segment of the range `[lo, hi)` of `v`.
pub fn scan_seg(v: &Vec<char>, lo: usize, hi: usize) -> (r: usize)
    requires
        lo <= hi <= v.len(),
    ensures
        lo <= r <= hi,
        r - lo == seg_start(v@.subrange(lo as int, hi as int)),
{
    let mut j: usize = hi;
    while j > lo && v[j - 1] != '/'
        invariant
            lo <= j <= hi <= v.len(),
            forall|k: int| j <= k < hi ==> v@[k] != '/',
        decreases j,
    {
        j -= 1;
    }
    proof {
        let s = v@.subrange(lo as int, hi as int);
        assert forall|k: int| j - lo <= k < s.len() implies s[k] != '/' by {
            assert(s[k] == v@[lo + k]);
        }
        if j > lo {
            assert(s[j - lo - 1] == v@[j - 1]);
        }
        lemma_seg_start_is(s, j - lo);
    }
    j
}

/// Whether `pat` occurs in `v` starting exactly at `i`.
fn match_eq_at(v: &Vec<char>, pat: &Vec<char>, i: usize) -> (r: bool)
    requires
        i + pat.len() <= v.len(),
    ensures
        r == match_at(v@, pat@, i as int),
{
    let m = pat.len();
    let mut j: usize = 0;
    while j < m
        invariant
            j <= m == pat@.len(),
            i + m <= v.len(),
            forall|k: int| 0 <= k < j ==> v@[i + k] == pat@[k],
        decreases m - j,
    {
        if v[i + j] != pat[j] {
            proof {
                if match_at(v@, pat@, i as int) {
                    assert(v@.subrange(i as int, i + pat@.len() as int)[j as int] == v@[i + j]);
                }
            }
            return false;
        }
        j += 1;
    }
    proof {
        assert(v@.subrange(i as int, i + pat@.len() as int) =~= pat@);
    }
    true
}

/// First occurrence of `pat` in `v` at or after `from`, if any.
pub fn find_sub_from(v: &Vec<char>, pat: &Vec<char>, from: usize) -> (r: Option<usize>)
    ensures
        (match r {
            Some(i) => from <= i && match_at(v@, pat@, i as int) && first_match_from(
                v@,
                pat@,
                from as int,
            ) == Some(i as int),
            None => first_match_from(v@, pat@, from as int) is None,
        }),
{
    if pat.len() > v.len() || from > v.len() - pat.len() {
        proof {
            lemma_first_match_from(v@, pat@, from as int);
            if first_match_from(v@, pat@, from as int) is Some {
                let i = first_match_from(v@, pat@, from as int)->Some_0;
                assert(match_at(v@, pat@, i));
            }
        }
        return None;
    }
    let bound = v.len() - pat.len();
    let mut i: usize = from;
    while i <= bound
        invariant
            from <= i <= bound + 1,
            bound == v.len() - pat.len(),
            pat@.len() <= v@.len(),
            first_match_from(v@, pat@, from as int) == first_match_from(v@, pat@, i as int),
        decreases bound + 1 - i,
    {
        if match_eq_at(v, pat, i) {
            assert(first_match_from(v@, pat@, i as int) == Some(i as int));
            return Some(i);
        }
        assert(first_match_from(v@, pat@, i as int) == first_match_from(v@, pat@, i + 1));
        proof {
            if pat@.len() == 0 {
                assert(v@.subrange(i as int, i as int) =~= pat@);
            }
        }
        i += 1;
    }
    assert(first_match_from(v@, pat@, i as int) is None);
    None
}

/// Whether `pat` occurs anywhere in `v`.
pub fn contains_sub(v: &Vec<char>, pat: &Vec<char>) -> (r: bool)
    ensures
        r == has_sub(v@, pat@),
{
    proof {
        lemma_has_sub(v@, pat@);
    }
    match find_sub_from(v, pat, 0) {
        Some(_) => true,
        None => false,
    }
}

} // verus!
