//! A stable sort by any order that a type brings along.

use vstd::prelude::*;

verus! {

/// The models of a sequence of values.
pub open spec fn views<T: View>(v: Seq<T>) -> Seq<T::V> {
    Seq::new(v.len(), |i: int| v[i]@)
}

pub proof fn lemma_views_push<T: View>(v: Seq<T>, x: T)
    ensures
        views(v.push(x)) == views(v).push(x@),
{
    assert(views(v.push(x)) =~= views(v).push(x@));
}

/// A type whose values can be put in order.
pub trait Ranked: View + Sized {
    /// The order: whether the first value may stand before the second.
    spec fn order() -> spec_fn(Self::V, Self::V) -> bool;

    /// Whether `self` may stand before `other`.
    fn not_after(&self, other: &Self) -> (r: bool)
        ensures
            r == Self::order()(self@, other@),
    ;
}

/// Where `x` goes in `s`: behind the last element that may stand before it.
pub open spec fn slot<V>(s: Seq<V>, x: V, le: spec_fn(V, V) -> bool) -> int
    decreases s.len(),
{
    if s.len() == 0 {
        0
    } else if le(s.last(), x) {
        s.len() as int
    } else {
        slot(s.drop_last(), x, le)
    }
}

/// `s` with `x` in its place.
pub open spec fn place<V>(s: Seq<V>, x: V, le: spec_fn(V, V) -> bool) -> Seq<V> {
    s.insert(slot(s, x, le), x)
}

/// The elements of `s`, each put in its place in turn.
pub open spec fn sorted<V>(s: Seq<V>, le: spec_fn(V, V) -> bool) -> Seq<V>
    decreases s.len(),
{
    if s.len() == 0 {
        s
    } else {
        place(sorted(s.drop_last(), le), s.last(), le)
    }
}

/// Whether `le` compares any two elements and chains.
pub open spec fn is_ranking<V>(le: spec_fn(V, V) -> bool) -> bool {
    &&& forall|a: V, b: V| #[trigger] le(a, b) || le(b, a)
    &&& forall|a: V, b: V, c: V| #[trigger] le(a, b) && #[trigger] le(b, c) ==> le(a, c)
}

/// Whether each element may stand before every later one.
pub open spec fn in_order<V>(s: Seq<V>, le: spec_fn(V, V) -> bool) -> bool {
    forall|i: int, j: int| 0 <= i < j < s.len() ==> le(#[trigger] s[i], #[trigger] s[j])
}

pub proof fn lemma_slot<V>(s: Seq<V>, x: V, le: spec_fn(V, V) -> bool)
    ensures
        0 <= slot(s, x, le) <= s.len(),
        forall|i: int| slot(s, x, le) <= i < s.len() ==> !le(#[trigger] s[i], x),
        slot(s, x, le) > 0 ==> le(s[slot(s, x, le) - 1], x),
    decreases s.len(),
{
    if s.len() > 0 && !le(s.last(), x) {
        lemma_slot(s.drop_last(), x, le);
        assert forall|i: int| slot(s, x, le) <= i < s.len() implies !le(#[trigger] s[i], x) by {
            if i < s.len() - 1 {
                assert(s[i] == s.drop_last()[i]);
            }
        }
    }
}

/// Sorting keeps the number of elements.
pub proof fn lemma_sorted_len<V>(s: Seq<V>, le: spec_fn(V, V) -> bool)
    ensures
        sorted(s, le).len() == s.len(),
    decreases s.len(),
{
    if s.len() > 0 {
        lemma_sorted_len(s.drop_last(), le);
        lemma_slot(sorted(s.drop_last(), le), s.last(), le);
    }
}

/// Sorting keeps each element as often as it is there.
pub proof fn law_sorted_is_permutation<V>(s: Seq<V>, le: spec_fn(V, V) -> bool)
    ensures
        sorted(s, le).to_multiset() == s.to_multiset(),
    decreases s.len(),
{
    broadcast use vstd::seq_lib::group_to_multiset_ensures;

    if s.len() > 0 {
        let rest = sorted(s.drop_last(), le);
        law_sorted_is_permutation(s.drop_last(), le);
        lemma_slot(rest, s.last(), le);
        assert(s =~= s.drop_last().push(s.last()));
        assert(sorted(s, le).to_multiset() =~= rest.to_multiset().insert(s.last()));
        assert(s.to_multiset() =~= s.drop_last().to_multiset().insert(s.last()));
    }
}

/// What holds of every element holds of every element once sorted.
pub proof fn lemma_sorted_all<V>(s: Seq<V>, le: spec_fn(V, V) -> bool, p: spec_fn(V) -> bool)
    requires
        forall|i: int| 0 <= i < s.len() ==> p(#[trigger] s[i]),
    ensures
        forall|i: int| 0 <= i < sorted(s, le).len() ==> p(#[trigger] sorted(s, le)[i]),
    decreases s.len(),
{
    if s.len() > 0 {
        let rest = sorted(s.drop_last(), le);
        assert forall|i: int| 0 <= i < s.drop_last().len() implies p(
            #[trigger] s.drop_last()[i],
        ) by {
            assert(s.drop_last()[i] == s[i]);
        }
        lemma_sorted_all(s.drop_last(), le, p);
        lemma_slot(rest, s.last(), le);
        let k = slot(rest, s.last(), le);
        assert(p(s[s.len() - 1]));
        assert forall|i: int| 0 <= i < sorted(s, le).len() implies p(
            #[trigger] sorted(s, le)[i],
        ) by {
            if i < k {
                assert(sorted(s, le)[i] == rest[i]);
            } else if i > k {
                assert(sorted(s, le)[i] == rest[i - 1]);
            }
        }
    }
}

/// Sorting by a ranking puts the elements in order.
pub proof fn law_sorted_is_in_order<V>(s: Seq<V>, le: spec_fn(V, V) -> bool)
    requires
        is_ranking(le),
    ensures
        in_order(sorted(s, le), le),
    decreases s.len(),
{
    if s.len() > 0 {
        let rest = sorted(s.drop_last(), le);
        let x = s.last();
        let k = slot(rest, x, le);
        law_sorted_is_in_order(s.drop_last(), le);
        lemma_slot(rest, x, le);
        let r = sorted(s, le);
        assert forall|i: int, j: int| 0 <= i < j < r.len() implies le(
            #[trigger] r[i],
            #[trigger] r[j],
        ) by {
            if j < k {
                assert(r[i] == rest[i] && r[j] == rest[j]);
            } else if j == k {
                assert(r[i] == rest[i] && r[j] == x);
                assert(le(rest[k - 1], x));
                if i < k - 1 {
                    assert(le(rest[i], rest[k - 1]));
                }
            } else if i < k {
                assert(r[i] == rest[i] && r[j] == rest[j - 1]);
            } else if i == k {
                assert(r[i] == x && r[j] == rest[j - 1]);
                assert(!le(rest[j - 1], x));
                assert(le(x, rest[j - 1]));
            } else {
                assert(r[i] == rest[i - 1] && r[j] == rest[j - 1]);
            }
        }
    }
}

/// Elements in order are left as they are.
pub proof fn law_sorting_keeps_order<V>(s: Seq<V>, le: spec_fn(V, V) -> bool)
    requires
        in_order(s, le),
    ensures
        sorted(s, le) == s,
    decreases s.len(),
{
    if s.len() > 0 {
        let front = s.drop_last();
        assert forall|i: int, j: int| 0 <= i < j < front.len() implies le(
            #[trigger] front[i],
            #[trigger] front[j],
        ) by {
            assert(front[i] == s[i] && front[j] == s[j]);
        }
        law_sorting_keeps_order(front, le);
        if front.len() > 0 {
            assert(le(s[s.len() - 2], s[s.len() - 1]));
        }
        assert(sorted(s, le) =~= s);
    }
}

/// Sorting by a ranking keeps the order among elements that rank alike.
pub proof fn law_sorted_is_stable<V>(s: Seq<V>, le: spec_fn(V, V) -> bool, y: V)
    requires
        is_ranking(le),
    ensures
        sorted(s, le).filter(|z: V| le(y, z) && le(z, y)) == s.filter(
            |z: V| le(y, z) && le(z, y),
        ),
    decreases s.len(),
{
    let alike = |z: V| le(y, z) && le(z, y);
    if s.len() > 0 {
        let rest = sorted(s.drop_last(), le);
        let x = s.last();
        let k = slot(rest, x, le);
        law_sorted_is_stable(s.drop_last(), le, y);
        lemma_slot(rest, x, le);
        let front = rest.take(k);
        let back = rest.skip(k);
        assert(sorted(s, le) =~= front + seq![x] + back);
        assert(rest =~= front + back);
        assert(s =~= s.drop_last() + seq![x]);
        Seq::filter_distributes_over_add(front + seq![x], back, alike);
        Seq::filter_distributes_over_add(front, seq![x], alike);
        Seq::filter_distributes_over_add(front, back, alike);
        Seq::filter_distributes_over_add(s.drop_last(), seq![x], alike);
        reveal_with_fuel(Seq::filter, 2);
        assert(seq![x].drop_last() =~= Seq::<V>::empty());
        if alike(x) {
            assert forall|i: int| 0 <= i < back.len() implies !alike(#[trigger] back[i]) by {
                assert(back[i] == rest[k + i]);
            }
            lemma_filter_none(back, alike);
            assert(sorted(s, le).filter(alike) =~= s.filter(alike));
        } else {
            assert(seq![x].filter(alike) =~= Seq::<V>::empty());
            assert(sorted(s, le).filter(alike) =~= s.filter(alike));
        }
    } else {
        assert(sorted(s, le) == s);
    }
}

proof fn lemma_filter_none<V>(s: Seq<V>, p: spec_fn(V) -> bool)
    requires
        forall|i: int| 0 <= i < s.len() ==> !p(#[trigger] s[i]),
    ensures
        s.filter(p) == Seq::<V>::empty(),
    decreases s.len(),
{
    reveal(Seq::filter);
    if s.len() > 0 {
        assert(!p(s[s.len() - 1]));
        assert forall|i: int| 0 <= i < s.drop_last().len() implies !p(
            #[trigger] s.drop_last()[i],
        ) by {
            assert(s.drop_last()[i] == s[i]);
        }
        lemma_filter_none(s.drop_last(), p);
    }
}

/// Sorts `v`, keeping the order of elements that rank alike.
pub fn stable_sort<T: Ranked>(v: Vec<T>) -> (r: Vec<T>)
    ensures
        views(r@) == sorted(views(v@), T::order()),
{
    let ghost all = views(v@);
    let ghost le = T::order();
    let mut rest = v;
    let mut r: Vec<T> = Vec::new();
    assert(all.take(0) =~= Seq::<T::V>::empty());
    assert(views(r@) =~= Seq::<T::V>::empty());
    while rest.len() > 0
        invariant
            le == T::order(),
            rest@.len() <= all.len(),
            views(rest@) == all.skip(all.len() - rest@.len()),
            views(r@) == sorted(all.take(all.len() - rest@.len()), le),
        decreases rest@.len(),
    {
        let ghost n = all.len() - rest@.len();
        let ghost was = rest@;
        let x = rest.remove(0);
        proof {
            assert forall|i: int| 0 <= i < rest@.len() implies views(rest@)[i] == all.skip(
                n + 1,
            )[i] by {
                assert(views(was)[i + 1] == all.skip(n)[i + 1]);
            }
            assert(views(rest@) =~= all.skip(n + 1));
            assert(views(was)[0] == all.skip(n)[0]);
            assert(x@ == all.skip(n)[0]);
            assert(all.take(n + 1).drop_last() =~= all.take(n));
            assert(all.take(n + 1).last() == x@);
        }
        let ghost before = views(r@);
        let mut k: usize = r.len();
        assert(before.take(k as int) =~= before);
        while k > 0 && !r[k - 1].not_after(&x)
            invariant
                k <= r@.len(),
                le == T::order(),
                before == views(r@),
                slot(before, x@, le) == slot(before.take(k as int), x@, le),
            decreases k,
        {
            assert(before.take(k as int).drop_last() =~= before.take(k - 1));
            assert(before.take(k as int).last() == r@[k - 1]@);
            k = k - 1;
        }
        proof {
            if k > 0 {
                assert(before.take(k as int).last() == r@[k - 1]@);
            }
            assert(slot(before, x@, le) == k);
        }
        r.insert(k, x);
        assert(views(r@) =~= before.insert(k as int, x@));
    }
    assert(all.take(all.len() as int) =~= all);
    r
}

/// Filtering decides on the first element and then on the others.
pub proof fn lemma_filter_first<A>(s: Seq<A>, p: spec_fn(A) -> bool)
    requires
        s.len() > 0,
    ensures
        s.filter(p) == (if p(s[0]) {
            seq![s[0]]
        } else {
            Seq::<A>::empty()
        }) + s.drop_first().filter(p),
{
    let one = seq![s[0]];
    assert(s =~= one + s.drop_first());
    Seq::<A>::filter_distributes_over_add(one, s.drop_first(), p);
    reveal(Seq::filter);
    assert(one.drop_last() =~= Seq::<A>::empty());
    assert(one.drop_last().filter(p) =~= Seq::<A>::empty());
    assert(one.filter(p) =~= if p(s[0]) {
        one
    } else {
        Seq::<A>::empty()
    });
}

/// Filtering decides on the last element by itself.
pub proof fn lemma_filter_last<A>(s: Seq<A>, x: A, p: spec_fn(A) -> bool)
    ensures
        s.push(x).filter(p) == if p(x) {
            s.filter(p).push(x)
        } else {
            s.filter(p)
        },
{
    reveal(Seq::filter);
    assert(s.push(x).drop_last() =~= s);
}

/// Filtering nothing leaves nothing.
pub proof fn lemma_filter_empty<A>(p: spec_fn(A) -> bool)
    ensures
        Seq::<A>::empty().filter(p) == Seq::<A>::empty(),
{
    reveal(Seq::filter);
}

} // verus!
