//! Stable sorting.

use vstd::prelude::*;
use crate::text;

verus! {

/// Puts `x` into the sorted `s`, behind everything that is not above it.
pub open spec fn insert_ranked<V>(s: Seq<V>, x: V, le: spec_fn(V, V) -> bool) -> Seq<V>
    decreases s.len(),
{
    if s.len() == 0 || le(s.last(), x) {
        s.push(x)
    } else {
        insert_ranked(s.drop_last(), x, le).push(s.last())
    }
}

/// The elements in ascending order, those of equal rank in the order in which they came.
pub open spec fn stable_sort<V>(s: Seq<V>, le: spec_fn(V, V) -> bool) -> Seq<V>
    decreases s.len(),
{
    if s.len() == 0 {
        Seq::empty()
    } else {
        insert_ranked(stable_sort(s.drop_last(), le), s.last(), le)
    }
}

/// Whether `le` is total and transitive.
pub open spec fn is_ranking<V>(le: spec_fn(V, V) -> bool) -> bool {
    &&& forall|a: V, b: V| #[trigger] le(a, b) || le(b, a)
    &&& forall|a: V, b: V, c: V| #[trigger] le(a, b) && #[trigger] le(b, c) ==> le(a, c)
}

/// Whether no element is above a later one.
pub open spec fn ascending<V>(s: Seq<V>, le: spec_fn(V, V) -> bool) -> bool {
    forall|i: int, j: int| 0 <= i < j < s.len() ==> le(#[trigger] s[i], #[trigger] s[j])
}

/// Whether every element is at most `b`.
spec fn bounded<V>(s: Seq<V>, b: V, le: spec_fn(V, V) -> bool) -> bool {
    forall|i: int| 0 <= i < s.len() ==> le(#[trigger] s[i], b)
}

/// Elements that can be ranked.
pub trait Ranked: View + Sized {
    /// Whether the first ranks at most as high as the second.
    spec fn ranks() -> spec_fn(Self::V, Self::V) -> bool;

    /// Whether this one ranks at most as high as the other.
    fn at_most(&self, other: &Self) -> (r: bool)
        ensures
            r == Self::ranks()(self@, other@),
    ;

    /// The ranking is total and transitive.
    proof fn lemma_ranking()
        ensures
            is_ranking(Self::ranks()),
    ;
}

/// Where an element is inserted.
proof fn lemma_insert_at<V>(s: Seq<V>, x: V, le: spec_fn(V, V) -> bool, j: int)
    requires
        0 <= j <= s.len(),
        j > 0 ==> le(s[j - 1], x),
        forall|k: int| j <= k < s.len() ==> !le(#[trigger] s[k], x),
    ensures
        insert_ranked(s, x, le) == s.insert(j, x),
    decreases s.len(),
{
    if j == s.len() {
        assert(s.insert(j, x) =~= s.push(x));
    } else {
        let t = s.drop_last();
        assert forall|k: int| j <= k < t.len() implies !le(#[trigger] t[k], x) by {
            assert(t[k] == s[k]);
        }
        lemma_insert_at(t, x, le, j);
        assert(!le(s[s.len() - 1], x));
        assert(s.insert(j, x) =~= t.insert(j, x).push(s.last()));
    }
}

/// Sorts the elements, keeping those of equal rank in their order.
pub fn sort_ranked<T: Ranked>(v: Vec<T>) -> (r: Vec<T>)
    ensures
        text::views(r@) == stable_sort(text::views(v@), T::ranks()),
{
    let mut out: Vec<T> = Vec::new();
    let ghost all = text::views(v@);
    assert(text::views(out@) =~= stable_sort(all.take(0), T::ranks()));
    for x in it: v
        invariant
            it.seq() == v@,
            all == text::views(v@),
            text::views(out@) == stable_sort(all.take(it.index() as int), T::ranks()),
    {
        let ghost i = it.index() as int;
        let ghost before = text::views(out@);
        let mut j: usize = out.len();
        while j > 0 && !out[j - 1].at_most(&x)
            invariant
                j <= out.len(),
                before == text::views(out@),
                forall|k: int| j <= k < out.len() ==> !T::ranks()(#[trigger] before[k], x@),
            decreases j,
        {
            j = j - 1;
        }
        proof {
            if j > 0 {
                assert(before[j - 1] == out@[j - 1]@);
            }
            lemma_insert_at(before, x@, T::ranks(), j as int);
            assert(text::views(out@.insert(j as int, x)) =~= before.insert(j as int, x@));
            assert(all.take(i + 1).drop_last() =~= all.take(i));
            assert(all.take(i + 1).last() == x@);
        }
        out.insert(j, x);
    }
    assert(all.take(v@.len() as int) =~= all);
    out
}

/// Inserting keeps the order.
proof fn lemma_insert_ascending<V>(s: Seq<V>, x: V, le: spec_fn(V, V) -> bool)
    requires
        is_ranking(le),
        ascending(s, le),
    ensures
        ascending(insert_ranked(s, x, le), le),
        forall|b: V|
            le(x, b) && #[trigger] bounded(s, b, le) ==> bounded(insert_ranked(s, x, le), b, le),
        insert_ranked(s, x, le).len() == s.len() + 1,
    decreases s.len(),
{
    let r = insert_ranked(s, x, le);
    if s.len() == 0 || le(s.last(), x) {
        assert forall|i: int, j: int| 0 <= i < j < r.len() implies le(
            #[trigger] r[i],
            #[trigger] r[j],
        ) by {
            if j == s.len() && i < s.len() - 1 {
                assert(le(s[i], s[s.len() - 1]));
                assert(le(s[s.len() - 1], x));
            }
        }
    } else {
        let t = s.drop_last();
        assert(ascending(t, le)) by {
            assert forall|i: int, j: int| 0 <= i < j < t.len() implies le(
                #[trigger] t[i],
                #[trigger] t[j],
            ) by {
                assert(le(s[i], s[j]));
            }
        }
        lemma_insert_ascending(t, x, le);
        let u = insert_ranked(t, x, le);
        assert(le(x, s.last()));
        assert(bounded(t, s.last(), le)) by {
            assert forall|i: int| 0 <= i < t.len() implies le(#[trigger] t[i], s.last()) by {
                assert(le(s[i], s[s.len() - 1]));
            }
        }
        assert forall|i: int, j: int| 0 <= i < j < r.len() implies le(
            #[trigger] r[i],
            #[trigger] r[j],
        ) by {
            if j < u.len() {
                assert(le(u[i], u[j]));
            } else {
                assert(le(u[i], s.last()));
            }
        }
        assert forall|b: V| le(x, b) && #[trigger] bounded(s, b, le) implies bounded(r, b, le) by {
            assert(bounded(t, b, le)) by {
                assert forall|i: int| 0 <= i < t.len() implies le(#[trigger] t[i], b) by {
                    assert(le(s[i], b));
                }
            }
            assert forall|i: int| 0 <= i < r.len() implies le(#[trigger] r[i], b) by {
                if i < u.len() {
                    assert(le(u[i], b));
                } else {
                    assert(le(s[s.len() - 1], b));
                }
            }
        }
    }
}

/// A sorted sequence ascends.
pub proof fn law_sort_ascending<V>(s: Seq<V>, le: spec_fn(V, V) -> bool)
    requires
        is_ranking(le),
    ensures
        ascending(stable_sort(s, le), le),
        stable_sort(s, le).len() == s.len(),
    decreases s.len(),
{
    if s.len() > 0 {
        law_sort_ascending(s.drop_last(), le);
        lemma_insert_ascending(stable_sort(s.drop_last(), le), s.last(), le);
    }
}

/// Inserting adds one element.
proof fn lemma_insert_permutes<V>(s: Seq<V>, x: V, le: spec_fn(V, V) -> bool)
    ensures
        insert_ranked(s, x, le).to_multiset() == s.to_multiset().insert(x),
    decreases s.len(),
{
    broadcast use vstd::seq_lib::group_to_multiset_ensures;

    if s.len() == 0 || le(s.last(), x) {
    } else {
        lemma_insert_permutes(s.drop_last(), x, le);
        assert(s =~= s.drop_last().push(s.last()));
        assert(s.to_multiset() =~= s.drop_last().to_multiset().insert(s.last()));
        assert(insert_ranked(s, x, le).to_multiset() =~= s.to_multiset().insert(x));
    }
}

/// Sorting keeps every element, as often as it occurs.
pub proof fn law_sort_permutes<V>(s: Seq<V>, le: spec_fn(V, V) -> bool)
    ensures
        stable_sort(s, le).to_multiset() == s.to_multiset(),
    decreases s.len(),
{
    broadcast use vstd::seq_lib::group_to_multiset_ensures;

    if s.len() > 0 {
        law_sort_permutes(s.drop_last(), le);
        lemma_insert_permutes(stable_sort(s.drop_last(), le), s.last(), le);
        assert(s =~= s.drop_last().push(s.last()));
    } else {
        assert(s =~= Seq::<V>::empty());
    }
}

/// The elements that rank as `k` does.
pub open spec fn of_rank<V>(s: Seq<V>, k: V, le: spec_fn(V, V) -> bool) -> Seq<V> {
    s.filter(|e: V| le(e, k) && le(k, e))
}

/// Whether one more element ranks as `k` does.
proof fn lemma_of_rank_push<V>(s: Seq<V>, x: V, k: V, le: spec_fn(V, V) -> bool)
    ensures
        of_rank(s.push(x), k, le) == if le(x, k) && le(k, x) {
            of_rank(s, k, le).push(x)
        } else {
            of_rank(s, k, le)
        },
{
    reveal(Seq::filter);
    assert(s.push(x).drop_last() =~= s);
}

/// Inserting behind the equals keeps the elements of one rank in order.
proof fn lemma_insert_stable<V>(s: Seq<V>, x: V, le: spec_fn(V, V) -> bool, k: V)
    requires
        is_ranking(le),
    ensures
        of_rank(insert_ranked(s, x, le), k, le) == of_rank(s.push(x), k, le),
    decreases s.len(),
{
    if s.len() > 0 && !le(s.last(), x) {
        let t = s.drop_last();
        let last = s.last();
        assert(s =~= t.push(last));
        lemma_insert_stable(t, x, le, k);
        lemma_of_rank_push(insert_ranked(t, x, le), last, k, le);
        lemma_of_rank_push(t, x, k, le);
        lemma_of_rank_push(t, last, k, le);
        lemma_of_rank_push(s, x, k, le);
        // The last element ranks above x, so at most one of the two ranks as k does.
        if le(last, k) && le(k, x) {
            assert(le(last, x));
        }
    }
}

/// Sorting keeps the elements of one rank in the order in which they came.
pub proof fn law_sort_stable<V>(s: Seq<V>, le: spec_fn(V, V) -> bool, k: V)
    requires
        is_ranking(le),
    ensures
        of_rank(stable_sort(s, le), k, le) == of_rank(s, k, le),
    decreases s.len(),
{
    if s.len() > 0 {
        let t = s.drop_last();
        assert(s =~= t.push(s.last()));
        law_sort_stable(t, le, k);
        let u = stable_sort(t, le);
        lemma_insert_stable(u, s.last(), le, k);
        lemma_of_rank_push(u, s.last(), k, le);
        lemma_of_rank_push(t, s.last(), k, le);
    } else {
        assert(s =~= Seq::<V>::empty());
    }
}

} // verus!
