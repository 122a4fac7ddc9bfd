//! Character-sequence utilities shared by the frontmatter codec: whitespace
//! trimming, substring search and line splitting, each with an exact
//! mathematical specification.

use vstd::prelude::*;

verus! {

/// The whitespace characters this crate recognizes when trimming.
pub open spec fn is_ws(c: char) -> bool {
    c == ' ' || c == '\t' || c == '\r' || c == '\n'
}

/// `s` with leading whitespace removed.
pub open spec fn trim_front(s: Seq<char>) -> Seq<char>
    decreases s.len(),
{
    if s.len() > 0 && is_ws(s[0]) {
        trim_front(s.drop_first())
    } else {
        s
    }
}

/// `s` with trailing whitespace removed.
pub open spec fn trim_back(s: Seq<char>) -> Seq<char>
    decreases s.len(),
{
    if s.len() > 0 && is_ws(s.last()) {
        trim_back(s.drop_last())
    } else {
        s
    }
}

/// `s` with leading and trailing whitespace removed.
pub open spec fn spec_trim(s: Seq<char>) -> Seq<char> {
    trim_back(trim_front(s))
}

/// Trimming `s` would change nothing.
pub open spec fn trim_stable(s: Seq<char>) -> bool {
    s.len() == 0 || (!is_ws(s[0]) && !is_ws(s.last()))
}

pub proof fn lemma_trim_front_stable(s: Seq<char>)
    requires
        s.len() == 0 || !is_ws(s[0]),
    ensures
        trim_front(s) == s,
{
}

pub proof fn lemma_trim_back_stable(s: Seq<char>)
    requires
        s.len() == 0 || !is_ws(s.last()),
    ensures
        trim_back(s) == s,
{
}

pub proof fn lemma_trim_stable(s: Seq<char>)
    requires
        trim_stable(s),
    ensures
        spec_trim(s) == s,
{
    lemma_trim_front_stable(s);
    lemma_trim_back_stable(s);
}

pub proof fn lemma_trim_front_props(s: Seq<char>)
    ensures
        trim_front(s).len() <= s.len(),
        trim_front(s).len() > 0 ==> !is_ws(trim_front(s)[0]),
        trim_front(s) == s.skip(s.len() - trim_front(s).len()),
        forall|i: int| 0 <= i < s.len() - trim_front(s).len() ==> is_ws(s[i]),
    decreases s.len(),
{
    if s.len() > 0 && is_ws(s[0]) {
        lemma_trim_front_props(s.drop_first());
        assert(s.drop_first().skip(
            s.drop_first().len() - trim_front(s.drop_first()).len(),
        ) =~= s.skip(s.len() - trim_front(s).len()));
        assert forall|i: int| 0 <= i < s.len() - trim_front(s).len() implies is_ws(s[i]) by {
            if i > 0 {
                assert(s[i] == s.drop_first()[i - 1]);
            }
        }
    } else {
        assert(s.skip(0) =~= s);
    }
}

pub proof fn lemma_trim_back_props(s: Seq<char>)
    ensures
        trim_back(s).len() <= s.len(),
        trim_back(s).len() > 0 ==> !is_ws(trim_back(s).last()),
        trim_back(s) == s.take(trim_back(s).len() as int),
        forall|i: int| trim_back(s).len() <= i < s.len() ==> is_ws(s[i]),
    decreases s.len(),
{
    if s.len() > 0 && is_ws(s.last()) {
        lemma_trim_back_props(s.drop_last());
        assert(s.drop_last().take(trim_back(s).len() as int) =~= s.take(
            trim_back(s).len() as int,
        ));
        assert forall|i: int| trim_back(s).len() <= i < s.len() implies is_ws(s[i]) by {
            if i < s.len() - 1 {
                assert(s[i] == s.drop_last()[i]);
            }
        }
    } else {
        assert(s.take(s.len() as int) =~= s);
    }
}

/// The trimmed form of any sequence is trim-stable.
pub proof fn lemma_trim_is_stable(s: Seq<char>)
    ensures
        trim_stable(spec_trim(s)),
        spec_trim(spec_trim(s)) == spec_trim(s),
{
    lemma_trim_front_props(s);
    lemma_trim_back_props(trim_front(s));
    let t = spec_trim(s);
    if t.len() > 0 {
        assert(t[0] == trim_front(s)[0]);
    }
    lemma_trim_stable(t);
}

/// Dropping one leading whitespace character does not change the trim.
pub proof fn lemma_trim_skip_ws(s: Seq<char>)
    requires
        s.len() > 0,
        is_ws(s[0]),
    ensures
        spec_trim(s) == spec_trim(s.drop_first()),
{
}

/// `true` when `pat` occurs in `s` starting at index `i`.
pub open spec fn match_at(s: Seq<char>, pat: Seq<char>, i: int) -> bool {
    0 <= i && i + pat.len() <= s.len() && s.subrange(i, i + pat.len()) == pat
}

/// Index of the first occurrence of `pat` in `s` at or after `i`, if any.
pub open spec fn find_from(s: Seq<char>, pat: Seq<char>, i: int) -> Option<int>
    decreases s.len() - i,
{
    if pat.len() <= 0 || i < 0 || i + pat.len() > s.len() {
        None
    } else if match_at(s, pat, i) {
        Some(i)
    } else {
        find_from(s, pat, i + 1)
    }
}

/// `pat` occurs nowhere in `s`.
pub open spec fn no_match(s: Seq<char>, pat: Seq<char>) -> bool {
    forall|i: int| !match_at(s, pat, i)
}

pub proof fn lemma_find_from_none(s: Seq<char>, pat: Seq<char>, i: int)
    requires
        forall|j: int| i <= j ==> !match_at(s, pat, j),
    ensures
        find_from(s, pat, i) == None::<int>,
    decreases s.len() - i,
{
    if !(pat.len() <= 0 || i < 0 || i + pat.len() > s.len()) {
        lemma_find_from_none(s, pat, i + 1);
    }
}

pub proof fn lemma_find_from_exact(s: Seq<char>, pat: Seq<char>, i: int, j: int)
    requires
        pat.len() > 0,
        0 <= i <= j,
        match_at(s, pat, j),
        forall|k: int| i <= k < j ==> !match_at(s, pat, k),
    ensures
        find_from(s, pat, i) == Some(j),
    decreases j - i,
{
    if i < j {
        lemma_find_from_exact(s, pat, i + 1, j);
    }
}

/// Characters of `s`, as a vector.
pub fn chars_of(s: &str) -> (r: Vec<char>)
    ensures
        r@ == s@,
{
    let n = s.unicode_len();
    let mut v: Vec<char> = Vec::new();
    let mut i: usize = 0;
    while i < n
        invariant
            n == s@.len(),
            i <= n,
            v@ == s@.take(i as int),
        decreases n - i,
    {
        v.push(s.get_char(i));
        assert(s@.take(i + 1 as int) =~= s@.take(i as int).push(s@[i as int]));
        i = i + 1;
    }
    assert(s@.take(n as int) =~= s@);
    v
}

/// Relies on `String: FromIterator<char>`: collecting characters yields the
/// string of exactly those characters, in order.
#[verifier::external_body]
pub fn string_from_chars(v: &Vec<char>) -> (r: String)
    ensures
        r@ == v@,
{
    v.iter().collect()
}

/// Whether `c` is one of this crate's whitespace characters.
pub fn is_ws_char(c: char) -> (b: bool)
    ensures
        b == is_ws(c),
{
    c == ' ' || c == '\t' || c == '\r' || c == '\n'
}

/// Copy of `s[lo..hi]`.
pub fn subrange_of(s: &Vec<char>, lo: usize, hi: usize) -> (r: Vec<char>)
    requires
        lo <= hi <= s@.len(),
    ensures
        r@ == s@.subrange(lo as int, hi as int),
{
    let mut v: Vec<char> = Vec::new();
    let mut i: usize = lo;
    while i < hi
        invariant
            lo <= i <= hi <= s@.len(),
            v@ == s@.subrange(lo as int, i as int),
        decreases hi - i,
    {
        v.push(s[i]);
        assert(s@.subrange(lo as int, i + 1 as int) =~= s@.subrange(lo as int, i as int).push(
            s@[i as int],
        ));
        i = i + 1;
    }
    v
}

/// `s` trimmed of leading and trailing whitespace.
#[verifier::rlimit(50)]
pub fn trim_of(s: &Vec<char>) -> (r: Vec<char>)
    ensures
        r@ == spec_trim(s@),
{
    let n = s.len();
    let mut lo: usize = 0;
    proof {
        assert(s@.skip(0) =~= s@);
    }
    while lo < n && is_ws_char(s[lo])
        invariant
            lo <= n == s@.len(),
            trim_front(s@) == trim_front(s@.skip(lo as int)),
            forall|k: int| 0 <= k < lo ==> is_ws(s@[k]),
        decreases n - lo,
    {
        proof {
            assert(s@.skip(lo as int).drop_first() =~= s@.skip(lo + 1 as int));
        }
        lo = lo + 1;
    }
    let ghost t = s@.skip(lo as int);
    proof {
        if lo < n {
            lemma_trim_front_stable(t);
        } else {
            assert(t =~= Seq::<char>::empty());
            lemma_trim_front_stable(t);
        }
        assert(trim_front(s@) == t);
    }
    let mut hi: usize = n;
    proof {
        assert(t.take(n - lo as int) =~= t);
    }
    while hi > lo && is_ws_char(s[hi - 1])
        invariant
            lo <= hi <= n == s@.len(),
            t == s@.skip(lo as int),
            trim_front(s@) == t,
            trim_back(t) == trim_back(t.take(hi - lo as int)),
        decreases hi,
    {
        proof {
            let u = t.take(hi - lo as int);
            assert(u.last() == s@[hi - 1]);
            assert(u.drop_last() =~= t.take(hi - 1 - lo as int));
        }
        hi = hi - 1;
    }
    proof {
        let u = t.take(hi - lo as int);
        if hi > lo {
            assert(u.last() == s@[hi - 1]);
            lemma_trim_back_stable(u);
        } else {
            assert(u =~= Seq::<char>::empty());
            lemma_trim_back_stable(u);
        }
        assert(s@.subrange(lo as int, hi as int) =~= u);
    }
    subrange_of(s, lo, hi)
}

/// Whether `pat` occurs in `s` at index `i`.
pub fn match_at_exec(s: &Vec<char>, pat: &Vec<char>, i: usize) -> (b: bool)
    ensures
        b == match_at(s@, pat@, i as int),
{
    let n = s.len();
    if i > n || pat.len() > n - i {
        assert(!match_at(s@, pat@, i as int));
        return false;
    }
    let mut j: usize = 0;
    while j < pat.len()
        invariant
            n == s@.len(),
            i + pat@.len() <= n,
            j <= pat@.len(),
            forall|k: int| 0 <= k < j ==> s@[i + k] == pat@[k],
        decreases pat@.len() - j,
    {
        assert(i + j < n);
        if s[i + j] != pat[j] {
            assert(s@.subrange(i as int, i + pat@.len()) != pat@) by {
                assert(s@.subrange(i as int, i + pat@.len())[j as int] != pat@[j as int]);
            }
            return false;
        }
        j = j + 1;
    }
    assert(s@.subrange(i as int, i + pat@.len()) =~= pat@);
    true
}

/// Index of the first occurrence of `pat` in `s` at or after `from`.
pub fn find_sub(s: &Vec<char>, pat: &Vec<char>, from: usize) -> (r: Option<usize>)
    requires
        pat@.len() > 0,
    ensures
        find_from(s@, pat@, from as int) == (match r {
            Some(j) => Some(j as int),
            None => None::<int>,
        }),
        r matches Some(j) ==> from <= j && match_at(s@, pat@, j as int),
{
    let mut i: usize = from;
    loop
        invariant
            from <= i,
            pat@.len() > 0,
            find_from(s@, pat@, from as int) == find_from(s@, pat@, i as int),
        decreases s@.len() + 1 - i,
    {
        if i > s.len() || pat.len() > s.len() - i {
            assert(find_from(s@, pat@, i as int) == None::<int>);
            return None;
        }
        if match_at_exec(s, pat, i) {
            return Some(i);
        }
        i = i + 1;
    }
}

/// Whether `pat` occurs anywhere in `s`.
pub fn contains_sub(s: &Vec<char>, pat: &Vec<char>) -> (b: bool)
    requires
        pat@.len() > 0,
    ensures
        b == (find_from(s@, pat@, 0) is Some),
{
    find_sub(s, pat, 0).is_some()
}

/// Whether `s` begins with `pat`.
pub fn starts_with(s: &Vec<char>, pat: &Vec<char>) -> (b: bool)
    ensures
        b == match_at(s@, pat@, 0),
{
    match_at_exec(s, pat, 0)
}

} // verus!
