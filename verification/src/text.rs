//! Character-level string operations used by the routing rules.
use vstd::prelude::*;
use vstd::string::*;

verus! {

/// `prefix` is an initial segment of `s`.
pub open spec fn has_prefix(s: Seq<char>, prefix: Seq<char>) -> bool {
    prefix.len() <= s.len() && s.subrange(0, prefix.len() as int) == prefix
}

/// Replaces every non-overlapping occurrence of `pat`, scanning left to right.
pub open spec fn replace_all(s: Seq<char>, pat: Seq<char>, rep: Seq<char>) -> Seq<char>
    recommends
        pat.len() > 0,
    decreases s.len(),
{
    if pat.len() == 0 || s.len() < pat.len() {
        s
    } else if has_prefix(s, pat) {
        rep + replace_all(s.subrange(pat.len() as int, s.len() as int), pat, rep)
    } else {
        seq![s[0]] + replace_all(s.subrange(1, s.len() as int), pat, rep)
    }
}

/// `s` without any trailing run of `c`.
pub open spec fn trim_end_char(s: Seq<char>, c: char) -> Seq<char>
    decreases s.len(),
{
    if s.len() > 0 && s.last() == c {
        trim_end_char(s.drop_last(), c)
    } else {
        s
    }
}

/// Equality of two string slices, character by character.
pub fn str_eq(a: &str, b: &str) -> (r: bool)
    ensures
        r == (a@ == b@),
{
    let n = a.unicode_len();
    if n != b.unicode_len() {
        return false;
    }
    let mut i: usize = 0;
    while i < n
        invariant
            n == a@.len(),
            n == b@.len(),
            i <= n,
            forall|j: int| 0 <= j < i ==> a@[j] == b@[j],
        decreases n - i,
    {
        if a.get_char(i) != b.get_char(i) {
            return false;
        }
        i += 1;
    }
    assert(a@ =~= b@);
    true
}

/// Whether `s` at character position `at` continues with `pat`.
fn matches_at(s: &str, at: usize, pat: &str) -> (r: bool)
    requires
        at <= s@.len(),
    ensures
        r == has_prefix(s@.subrange(at as int, s@.len() as int), pat@),
{
    let n = s.unicode_len();
    let m = pat.unicode_len();
    if m > n - at {
        return false;
    }
    let mut j: usize = 0;
    while j < m
        invariant
            n == s@.len(),
            m == pat@.len(),
            at + m <= n,
            j <= m,
            forall|k: int| 0 <= k < j ==> s@[at + k] == pat@[k],
        decreases m - j,
    {
        if s.get_char(at + j) != pat.get_char(j) {
            return false;
        }
        j += 1;
    }
    assert(s@.subrange(at as int, s@.len() as int).subrange(0, m as int) =~= pat@);
    true
}

/// `str::starts_with` for a string pattern.
pub fn starts_with(s: &str, prefix: &str) -> (r: bool)
    ensures
        r == has_prefix(s@, prefix@),
{
    let r = matches_at(s, 0, prefix);
    assert(s@.subrange(0, s@.len() as int) =~= s@);
    r
}

proof fn lemma_replace_all_step(s: Seq<char>, i: int, pat: Seq<char>, rep: Seq<char>)
    requires
        pat.len() > 0,
        0 <= i < s.len(),
        s.len() - i >= pat.len(),
    ensures
        has_prefix(s.subrange(i, s.len() as int), pat) ==> replace_all(s.subrange(i, s.len() as int), pat, rep)
            == rep + replace_all(s.subrange(i + pat.len(), s.len() as int), pat, rep),
        !has_prefix(s.subrange(i, s.len() as int), pat) ==> replace_all(s.subrange(i, s.len() as int), pat, rep)
            == seq![s[i]] + replace_all(s.subrange(i + 1, s.len() as int), pat, rep),
{
    let t = s.subrange(i, s.len() as int);
    assert(t.subrange(pat.len() as int, t.len() as int) =~= s.subrange(i + pat.len(), s.len() as int));
    assert(t.subrange(1, t.len() as int) =~= s.subrange(i + 1, s.len() as int));
}

/// `str::replace` for a non-empty pattern.
pub fn replace_all_exec(s: &str, pat: &str, rep: &str) -> (r: String)
    requires
        pat@.len() > 0,
    ensures
        r@ == replace_all(s@, pat@, rep@),
{
    let n = s.unicode_len();
    let m = pat.unicode_len();
    let mut out = String::new();
    let mut i: usize = 0;
    assert(s@.subrange(0, n as int) =~= s@);
    assert(out@ + replace_all(s@, pat@, rep@) =~= replace_all(s@, pat@, rep@));
    while i < n
        invariant
            n == s@.len(),
            m == pat@.len(),
            m > 0,
            i <= n,
            out@ + replace_all(s@.subrange(i as int, n as int), pat@, rep@) == replace_all(s@, pat@, rep@),
        decreases n - i,
    {
        if n - i < m {
            assert(replace_all(s@.subrange(i as int, n as int), pat@, rep@) == s@.subrange(i as int, n as int));
            let tail = s.substring_char(i, n);
            out.append(tail);
            proof {
                assert(s@.subrange(n as int, n as int) =~= Seq::<char>::empty());
            }
            i = n;
        } else if matches_at(s, i, pat) {
            proof { lemma_replace_all_step(s@, i as int, pat@, rep@); }
            out.append(rep);
            assert(out@ + replace_all(s@.subrange(i + m, n as int), pat@, rep@)
                == replace_all(s@, pat@, rep@));
            i = i + m;
        } else {
            proof { lemma_replace_all_step(s@, i as int, pat@, rep@); }
            let c = s.substring_char(i, i + 1);
            out.append(c);
            assert(c@ =~= seq![s@[i as int]]);
            assert(out@ + replace_all(s@.subrange(i + 1, n as int), pat@, rep@)
                == replace_all(s@, pat@, rep@));
            i = i + 1;
        }
    }
    proof {
        assert(s@.subrange(n as int, n as int) =~= Seq::<char>::empty());
        assert(replace_all(Seq::<char>::empty(), pat@, rep@) == Seq::<char>::empty());
        assert(out@ + Seq::<char>::empty() =~= out@);
    }
    out
}

/// `str::trim_end_matches` for a single character.
pub fn trim_end_char_exec(s: &str, c: char) -> (r: String)
    ensures
        r@ == trim_end_char(s@, c),
{
    let mut end = s.unicode_len();
    assert(s@.subrange(0, end as int) =~= s@);
    while end > 0 && s.get_char(end - 1) == c
        invariant
            end <= s@.len(),
            trim_end_char(s@.subrange(0, end as int), c) == trim_end_char(s@, c),
        decreases end,
    {
        assert(s@.subrange(0, end as int).drop_last() =~= s@.subrange(0, end - 1));
        end -= 1;
    }
    proof {
        assert(s@.subrange(0, s@.len() as int) =~= s@);
    }
    String::from_str(s.substring_char(0, end))
}

} // verus!
