//! First-match lookup in sequences, the order in which the routers search
//! their tables.
use vstd::prelude::*;

verus! {

/// `i` is the first position of `s` whose element satisfies `p`.
pub open spec fn is_first<T>(s: Seq<T>, p: spec_fn(T) -> bool, i: int) -> bool {
    &&& 0 <= i < s.len()
    &&& p(s[i])
    &&& forall|j: int| 0 <= j < i ==> !p(#[trigger] s[j])
}

/// The first position whose element satisfies `p`, or -1.
pub open spec fn first_index<T>(s: Seq<T>, p: spec_fn(T) -> bool) -> int {
    if exists|i: int| is_first(s, p, i) {
        choose|i: int| is_first(s, p, i)
    } else {
        -1
    }
}

pub proof fn lemma_first_index_is<T>(s: Seq<T>, p: spec_fn(T) -> bool, i: int)
    requires
        is_first(s, p, i),
    ensures
        first_index(s, p) == i,
{
    let k = choose|k: int| is_first(s, p, k);
    assert(is_first(s, p, k));
    if k < i {
        assert(!p(s[k]));
    } else if i < k {
        assert(!p(s[i]));
    }
}

pub proof fn lemma_first_index_none<T>(s: Seq<T>, p: spec_fn(T) -> bool)
    requires
        forall|j: int| 0 <= j < s.len() ==> !p(#[trigger] s[j]),
    ensures
        first_index(s, p) == -1,
{
    if exists|i: int| is_first(s, p, i) {
        let i = choose|i: int| is_first(s, p, i);
        assert(p(s[i]));
    }
}

/// `first_index` is -1 exactly when nothing matches, and otherwise a match
/// with no match before it.
pub proof fn lemma_first_index_range<T>(s: Seq<T>, p: spec_fn(T) -> bool)
    ensures
        -1 <= first_index(s, p) < s.len(),
        first_index(s, p) >= 0 ==> is_first(s, p, first_index(s, p)),
        first_index(s, p) == -1 <==> forall|j: int| 0 <= j < s.len() ==> !p(#[trigger] s[j]),
    decreases s.len(),
{
    if exists|j: int| 0 <= j < s.len() && p(s[j]) {
        let j = choose|j: int| 0 <= j < s.len() && p(s[j]);
        lemma_first_exists(s, p, j);
    } else {
        lemma_first_index_none(s, p);
    }
}

/// After replacing the first match (or appending when there is none) by
/// an element that matches, that element is the first match.
pub proof fn lemma_first_index_after_upsert<T>(s: Seq<T>, p: spec_fn(T) -> bool, x: T)
    requires
        p(x),
    ensures
        ({
            let i = first_index(s, p);
            let t = if i >= 0 { s.update(i, x) } else { s.push(x) };
            &&& first_index(t, p) == if i >= 0 { i } else { s.len() as int }
            &&& t[first_index(t, p)] == x
        }),
{
    lemma_first_index_range(s, p);
    let i = first_index(s, p);
    if i >= 0 {
        let t = s.update(i, x);
        assert(is_first(t, p, i)) by {
            assert forall|j: int| 0 <= j < i implies !p(#[trigger] t[j]) by {
                assert(t[j] == s[j]);
            }
        }
        lemma_first_index_is(t, p, i);
    } else {
        let t = s.push(x);
        assert(is_first(t, p, s.len() as int)) by {
            assert forall|j: int| 0 <= j < s.len() implies !p(#[trigger] t[j]) by {
                assert(t[j] == s[j]);
            }
        }
        lemma_first_index_is(t, p, s.len() as int);
    }
}

proof fn lemma_first_exists<T>(s: Seq<T>, p: spec_fn(T) -> bool, j: int)
    requires
        0 <= j < s.len(),
        p(s[j]),
    ensures
        is_first(s, p, first_index(s, p)),
    decreases j,
{
    if exists|i: int| 0 <= i < j && p(s[i]) {
        let i = choose|i: int| 0 <= i < j && p(s[i]);
        lemma_first_exists(s, p, i);
    } else {
        assert(is_first(s, p, j));
        lemma_first_index_is(s, p, j);
    }
}

/// Two sequences whose elements match `p` at the same places have the same
/// first match.
pub proof fn lemma_first_index_same<T>(s1: Seq<T>, s2: Seq<T>, p: spec_fn(T) -> bool)
    requires
        s1.len() == s2.len(),
        forall|j: int| 0 <= j < s1.len() ==> p(#[trigger] s1[j]) == p(s2[j]),
    ensures
        first_index(s1, p) == first_index(s2, p),
{
    lemma_first_index_range(s1, p);
    lemma_first_index_range(s2, p);
    let i = first_index(s1, p);
    if i >= 0 {
        assert(is_first(s2, p, i)) by {
            assert forall|j: int| 0 <= j < i implies !p(#[trigger] s2[j]) by {
                assert(!p(s1[j]));
            }
        }
        lemma_first_index_is(s2, p, i);
    } else {
        assert forall|j: int| 0 <= j < s2.len() implies !p(#[trigger] s2[j]) by {
            assert(!p(s1[j]));
        }
        lemma_first_index_none(s2, p);
    }
}

/// No two elements of `s` share a key.
pub open spec fn unique_by<T, K>(s: Seq<T>, k: spec_fn(T) -> K) -> bool {
    forall|i: int, j: int| 0 <= i < j < s.len() ==> k(#[trigger] s[i]) != k(#[trigger] s[j])
}

/// Appending an element under a new key keeps keys unique.
pub proof fn lemma_push_keeps_unique<T, K>(s: Seq<T>, k: spec_fn(T) -> K, x: T)
    requires
        unique_by(s, k),
        forall|j: int| 0 <= j < s.len() ==> k(#[trigger] s[j]) != k(x),
    ensures
        unique_by(s.push(x), k),
{
    let t = s.push(x);
    assert forall|i: int, j: int| 0 <= i < j < t.len() implies k(#[trigger] t[i]) != k(#[trigger] t[j]) by {
        assert(t[i] == s[i]);
        if j < s.len() {
            assert(t[j] == s[j]);
        }
    }
}

/// Replacing an element by one under the same key keeps keys unique.
pub proof fn lemma_update_keeps_unique<T, K>(s: Seq<T>, k: spec_fn(T) -> K, i: int, x: T)
    requires
        unique_by(s, k),
        0 <= i < s.len(),
        k(x) == k(s[i]),
    ensures
        unique_by(s.update(i, x), k),
{
    let t = s.update(i, x);
    assert forall|a: int, b: int| 0 <= a < b < t.len() implies k(#[trigger] t[a]) != k(#[trigger] t[b]) by {
        assert(k(t[a]) == k(s[a]) && k(t[b]) == k(s[b]));
    }
}

/// Dropping an element keeps keys unique.
pub proof fn lemma_remove_keeps_unique<T, K>(s: Seq<T>, k: spec_fn(T) -> K, i: int)
    requires
        unique_by(s, k),
        0 <= i < s.len(),
    ensures
        unique_by(s.remove(i), k),
{
    let t = s.remove(i);
    assert forall|a: int, b: int| 0 <= a < b < t.len() implies k(#[trigger] t[a]) != k(#[trigger] t[b]) by {
        let a1 = if a < i { a } else { a + 1 };
        let b1 = if b < i { b } else { b + 1 };
        assert(t[a] == s[a1] && t[b] == s[b1]);
    }
}

/// Replacing the first element that `p` finds, or appending when there is
/// none, keeps keys unique when `p` finds exactly the elements under the
/// key of `x`.
pub proof fn lemma_upsert_keeps_unique<T, K>(s: Seq<T>, k: spec_fn(T) -> K, p: spec_fn(T) -> bool, x: T)
    requires
        unique_by(s, k),
        forall|y: T| #[trigger] p(y) <==> k(y) == k(x),
    ensures
        unique_by(if first_index(s, p) >= 0 { s.update(first_index(s, p), x) } else { s.push(x) }, k),
{
    lemma_first_index_range(s, p);
    let i = first_index(s, p);
    if i >= 0 {
        assert(p(s[i]));
        lemma_update_keeps_unique(s, k, i, x);
    } else {
        assert forall|j: int| 0 <= j < s.len() implies k(#[trigger] s[j]) != k(x) by {
            assert(!p(s[j]));
        }
        lemma_push_keeps_unique(s, k, x);
    }
}

} // verus!
