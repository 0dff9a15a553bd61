//! Searching a sequence from its front.

use vstd::prelude::*;

verus! {

/// The first index at or after `i` whose element satisfies `p`, or the length
/// of `s` when there is none.
pub open spec fn first_from<T>(s: Seq<T>, p: spec_fn(T) -> bool, i: int) -> int
    decreases s.len() - i,
{
    if i < 0 || i >= s.len() {
        s.len() as int
    } else if p(s[i]) {
        i
    } else {
        first_from(s, p, i + 1)
    }
}

/// The first index whose element satisfies `p`, or the length of `s` when no
/// element does.
pub open spec fn first_index<T>(s: Seq<T>, p: spec_fn(T) -> bool) -> int {
    first_from(s, p, 0)
}

proof fn lemma_first_from_found<T>(s: Seq<T>, p: spec_fn(T) -> bool, start: int, i: int)
    requires
        0 <= start <= i <= s.len(),
        forall|j: int| start <= j < i ==> !p(#[trigger] s[j]),
        i < s.len() ==> p(s[i]),
    ensures
        first_from(s, p, start) == i,
    decreases i - start,
{
    if start < i {
        lemma_first_from_found(s, p, start + 1, i);
    }
}

proof fn lemma_first_from_bounds<T>(s: Seq<T>, p: spec_fn(T) -> bool, start: int)
    requires
        0 <= start <= s.len(),
    ensures
        start <= first_from(s, p, start) <= s.len(),
        forall|j: int| start <= j < first_from(s, p, start) ==> !p(#[trigger] s[j]),
        first_from(s, p, start) < s.len() ==> p(s[first_from(s, p, start)]),
    decreases s.len() - start,
{
    if start < s.len() && !p(s[start]) {
        lemma_first_from_bounds(s, p, start + 1);
    }
}

/// An index that no earlier element satisfying `p` precedes, and that holds
/// such an element or is the length, is the first index.
pub proof fn lemma_first_index_is<T>(s: Seq<T>, p: spec_fn(T) -> bool, i: int)
    requires
        0 <= i <= s.len(),
        forall|j: int| 0 <= j < i ==> !p(#[trigger] s[j]),
        i < s.len() ==> p(s[i]),
    ensures
        first_index(s, p) == i,
{
    lemma_first_from_found(s, p, 0, i);
}

/// The first index lies within the sequence or at its end, no element before
/// it satisfies `p`, and the element at it does.
pub proof fn lemma_first_index_bounds<T>(s: Seq<T>, p: spec_fn(T) -> bool)
    ensures
        0 <= first_index(s, p) <= s.len(),
        forall|j: int| 0 <= j < first_index(s, p) ==> !p(#[trigger] s[j]),
        first_index(s, p) < s.len() ==> p(s[first_index(s, p)]),
{
    lemma_first_from_bounds(s, p, 0);
}

/// Replacing an element by one that satisfies `p` just when the old one did
/// leaves the first index where it was.
pub proof fn lemma_first_index_after_update<T>(s: Seq<T>, i: int, x: T, p: spec_fn(T) -> bool)
    requires
        0 <= i < s.len(),
        p(x) == p(s[i]),
    ensures
        first_index(s.update(i, x), p) == first_index(s, p),
{
    let j = first_index(s, p);
    lemma_first_index_bounds(s, p);
    let t = s.update(i, x);
    assert forall|k: int| 0 <= k < j implies !p(#[trigger] t[k]) by {
        assert(!p(s[k]));
    }
    lemma_first_index_is(t, p, j);
}

/// Where the first index is after an element entered at `i`: where it was
/// if that is before `i`; else at `i` if the new element satisfies `p`; else
/// one further on.
pub proof fn lemma_first_index_after_insert<T>(s: Seq<T>, i: int, x: T, p: spec_fn(T) -> bool)
    requires
        0 <= i <= s.len(),
    ensures
        first_index(s.insert(i, x), p) == if first_index(s, p) < i {
            first_index(s, p)
        } else if p(x) {
            i
        } else {
            first_index(s, p) + 1
        },
{
    let j = first_index(s, p);
    lemma_first_index_bounds(s, p);
    let t = s.insert(i, x);
    let target = if j < i {
        j
    } else if p(x) {
        i
    } else {
        j + 1
    };
    assert forall|k: int| 0 <= k < target implies !p(#[trigger] t[k]) by {
        if k < i {
            assert(t[k] == s[k]);
            assert(!p(s[k]));
        } else if k > i {
            assert(t[k] == s[k - 1]);
            assert(!p(s[k - 1]));
        }
    }
    if target < t.len() {
        if j < i {
            assert(t[target] == s[j]);
        } else if !p(x) {
            assert(t[target] == s[j]);
        }
    }
    lemma_first_index_is(t, p, target);
}

} // verus!
