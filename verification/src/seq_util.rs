//! Facts about sequences that the stores of this crate rely on: the first
//! element that satisfies a predicate, and how `filter` behaves under
//! the updates the stores make.

use vstd::prelude::*;

verus! {

/// The position of the first element of `s` that satisfies `p`, or `-1`
/// when there is none.
pub open spec fn first_match<T>(s: Seq<T>, p: spec_fn(T) -> bool) -> int
    decreases s.len(),
{
    if s.len() == 0 {
        -1
    } else if p(s[0]) {
        0
    } else {
        let r = first_match(s.drop_first(), p);
        if r < 0 {
            -1
        } else {
            r + 1
        }
    }
}

/// `first_match` is the least position whose element satisfies `p`.
pub proof fn lemma_first_match<T>(s: Seq<T>, p: spec_fn(T) -> bool)
    ensures
        -1 <= first_match(s, p) < s.len(),
        first_match(s, p) >= 0 ==> p(s[first_match(s, p)]),
        forall|j: int| 0 <= j < first_match(s, p) ==> !p(#[trigger] s[j]),
        first_match(s, p) < 0 ==> forall|j: int| 0 <= j < s.len() ==> !p(#[trigger] s[j]),
    decreases s.len(),
{
    if s.len() > 0 && !p(s[0]) {
        let t = s.drop_first();
        lemma_first_match(t, p);
        assert forall|j: int| 0 < j < s.len() implies s[j] == #[trigger] t[j - 1] by {}
        let r = first_match(t, p);
        if r < 0 {
            assert forall|j: int| 0 <= j < s.len() implies !p(#[trigger] s[j]) by {
                if j > 0 {
                    assert(s[j] == t[j - 1]);
                }
            }
        } else {
            assert forall|j: int| 0 <= j < r + 1 implies !p(#[trigger] s[j]) by {
                if j > 0 {
                    assert(s[j] == t[j - 1]);
                }
            }
        }
    }
}

/// A position whose element satisfies `p`, with none before it, is the
/// first match.
pub proof fn lemma_first_match_at<T>(s: Seq<T>, p: spec_fn(T) -> bool, i: int)
    requires
        0 <= i < s.len(),
        p(s[i]),
        forall|j: int| 0 <= j < i ==> !p(#[trigger] s[j]),
    ensures
        first_match(s, p) == i,
{
    lemma_first_match(s, p);
}

/// When no element satisfies `p` there is no first match.
pub proof fn lemma_first_match_none<T>(s: Seq<T>, p: spec_fn(T) -> bool)
    requires
        forall|j: int| 0 <= j < s.len() ==> !p(#[trigger] s[j]),
    ensures
        first_match(s, p) == -1,
{
    lemma_first_match(s, p);
    if first_match(s, p) >= 0 {
        assert(p(s[first_match(s, p)]));
    }
}

/// Replacing an element by another with the same verdict of `p` leaves
/// the first match where it was.
pub proof fn lemma_first_match_update<T>(s: Seq<T>, p: spec_fn(T) -> bool, i: int, x: T)
    requires
        0 <= i < s.len(),
        p(s[i]) == p(x),
    ensures
        first_match(s.update(i, x), p) == first_match(s, p),
{
    let u = s.update(i, x);
    lemma_first_match(s, p);
    lemma_first_match(u, p);
    assert forall|j: int| 0 <= j < s.len() implies p(#[trigger] u[j]) == p(s[j]) by {}
    let a = first_match(s, p);
    let b = first_match(u, p);
    if a >= 0 {
        assert(p(u[a]));
        lemma_first_match_at(u, p, a);
    } else {
        lemma_first_match_none(u, p);
    }
}

/// Appending an element keeps an existing first match, and otherwise the
/// new element is the first match exactly when it satisfies `p`.
pub proof fn lemma_first_match_push<T>(s: Seq<T>, p: spec_fn(T) -> bool, x: T)
    ensures
        first_match(s.push(x), p) == if first_match(s, p) >= 0 {
            first_match(s, p)
        } else if p(x) {
            s.len() as int
        } else {
            -1
        },
{
    let u = s.push(x);
    lemma_first_match(s, p);
    assert forall|j: int| 0 <= j < s.len() implies #[trigger] u[j] == s[j] by {}
    let a = first_match(s, p);
    if a >= 0 {
        assert(u[a] == s[a]);
        lemma_first_match_at(u, p, a);
    } else if p(x) {
        lemma_first_match_at(u, p, s.len() as int);
    } else {
        lemma_first_match_none(u, p);
    }
}

/// `filter` on a sequence extended by one element.
pub proof fn lemma_filter_push<T>(s: Seq<T>, p: spec_fn(T) -> bool, x: T)
    ensures
        s.push(x).filter(p) == if p(x) {
            s.filter(p).push(x)
        } else {
            s.filter(p)
        },
{
    reveal(Seq::filter);
    assert(s.push(x).drop_last() =~= s);
}

/// The filter of a prefix one element longer.
pub proof fn lemma_filter_take_step<T>(s: Seq<T>, p: spec_fn(T) -> bool, i: int)
    requires
        0 <= i < s.len(),
    ensures
        s.take(i + 1).filter(p) == if p(s[i]) {
            s.take(i).filter(p).push(s[i])
        } else {
            s.take(i).filter(p)
        },
{
    assert(s.take(i + 1) =~= s.take(i).push(s[i]));
    lemma_filter_push(s.take(i), p, s[i]);
}

/// Replacing an element that `p` rejects by another that `p` rejects does
/// not change the filter.
pub proof fn lemma_filter_update_rejected<T>(s: Seq<T>, p: spec_fn(T) -> bool, i: int, x: T)
    requires
        0 <= i < s.len(),
        !p(s[i]),
        !p(x),
    ensures
        s.update(i, x).filter(p) == s.filter(p),
    decreases s.len(),
{
    let u = s.update(i, x);
    if i == s.len() - 1 {
        assert(u =~= s.drop_last().push(x));
        assert(s =~= s.drop_last().push(s[i]));
        lemma_filter_push(s.drop_last(), p, x);
        lemma_filter_push(s.drop_last(), p, s[i]);
    } else {
        let d = s.drop_last();
        lemma_filter_update_rejected(d, p, i, x);
        assert(u =~= d.update(i, x).push(s.last()));
        assert(s =~= d.push(s.last()));
        lemma_filter_push(d.update(i, x), p, s.last());
        lemma_filter_push(d, p, s.last());
    }
}

/// Filtering by a predicate that holds of every element keeps everything.
pub proof fn lemma_filter_all<T>(s: Seq<T>, p: spec_fn(T) -> bool)
    requires
        forall|j: int| 0 <= j < s.len() ==> p(#[trigger] s[j]),
    ensures
        s.filter(p) == s,
    decreases s.len(),
{
    reveal(Seq::filter);
    if s.len() > 0 {
        lemma_filter_all(s.drop_last(), p);
        assert(s.drop_last().push(s.last()) =~= s);
    }
}

} // verus!
