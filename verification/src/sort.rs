//! A stable insertion sort with a functional specification over element
//! views: the view sequence of the result is pinned exactly, not just up to
//! permutation.

use vstd::multiset::Multiset;
use vstd::prelude::*;
use vstd::seq_lib::lemma_multiset_commutative;

verus! {

/// Position at which a stable insertion places `x` into `s`: after every
/// leading element that is `leq` `x`.
pub open spec fn insert_pos_by<T>(s: Seq<T>, x: T, leq: spec_fn(T, T) -> bool) -> int
    decreases s.len(),
{
    if s.len() == 0 {
        0
    } else if leq(s[0], x) {
        1 + insert_pos_by(s.drop_first(), x, leq)
    } else {
        0
    }
}

/// `s` with `x` inserted at its stable insertion position.
pub open spec fn insert_sorted_by<T>(s: Seq<T>, x: T, leq: spec_fn(T, T) -> bool) -> Seq<T> {
    let j = insert_pos_by(s, x, leq);
    s.subrange(0, j) + seq![x] + s.subrange(j, s.len() as int)
}

/// The stable insertion sort of `s` by `leq`. Equal-ranking elements keep
/// their input order.
pub open spec fn sort_by_stable<T>(s: Seq<T>, leq: spec_fn(T, T) -> bool) -> Seq<T>
    decreases s.len(),
{
    if s.len() == 0 {
        Seq::empty()
    } else {
        insert_sorted_by(sort_by_stable(s.drop_last(), leq), s.last(), leq)
    }
}

/// All pairs of a sequence are ordered by `leq`.
pub open spec fn sorted_by_le<T>(s: Seq<T>, leq: spec_fn(T, T) -> bool) -> bool {
    forall|i: int, j: int| #![trigger s[i], s[j]] 0 <= i < j < s.len() ==> leq(s[i], s[j])
}

pub proof fn lemma_insert_pos_by_props<T>(s: Seq<T>, x: T, leq: spec_fn(T, T) -> bool)
    ensures
        0 <= insert_pos_by(s, x, leq) <= s.len(),
        forall|k: int| 0 <= k < insert_pos_by(s, x, leq) ==> leq(#[trigger] s[k], x),
        insert_pos_by(s, x, leq) < s.len() ==> !leq(s[insert_pos_by(s, x, leq)], x),
    decreases s.len(),
{
    if s.len() > 0 && leq(s[0], x) {
        lemma_insert_pos_by_props(s.drop_first(), x, leq);
        assert forall|k: int| 0 <= k < insert_pos_by(s, x, leq) implies leq(#[trigger] s[k], x) by {
            if k > 0 {
                assert(leq(s.drop_first()[k - 1], x));
            }
        }
        if insert_pos_by(s, x, leq) < s.len() {
            assert(s.drop_first()[insert_pos_by(s, x, leq) - 1] == s[insert_pos_by(s, x, leq)]);
        }
    }
}

/// When the first `j` elements are `leq` `x` and the `j`-th is not, the
/// stable insertion position is exactly `j`.
pub proof fn lemma_insert_pos_by_at<T>(s: Seq<T>, x: T, leq: spec_fn(T, T) -> bool, j: int)
    requires
        0 <= j <= s.len(),
        forall|k: int| 0 <= k < j ==> leq(#[trigger] s[k], x),
        j < s.len() ==> !leq(s[j], x),
    ensures
        insert_pos_by(s, x, leq) == j,
    decreases s.len(),
{
    if s.len() > 0 && leq(s[0], x) {
        assert(j > 0);
        let t = s.drop_first();
        assert(forall|k: int| 0 <= k < j - 1 ==> leq(#[trigger] t[k], x));
        lemma_insert_pos_by_at(t, x, leq, j - 1);
    }
}

proof fn lemma_insert_sorted_by_props<T>(s: Seq<T>, x: T, leq: spec_fn(T, T) -> bool)
    requires
        sorted_by_le(s, leq),
        forall|a: T, b: T| #[trigger] leq(a, b) || leq(b, a),
        forall|a: T, b: T, c: T| #![trigger leq(a, b), leq(b, c)] leq(a, b) && leq(b, c) ==> leq(a, c),
    ensures
        sorted_by_le(insert_sorted_by(s, x, leq), leq),
        insert_sorted_by(s, x, leq).to_multiset() == s.to_multiset().insert(x),
        insert_sorted_by(s, x, leq).len() == s.len() + 1,
{
    lemma_insert_pos_by_props(s, x, leq);
    let j = insert_pos_by(s, x, leq);
    let r = insert_sorted_by(s, x, leq);
    assert forall|a: int, b: int| #![trigger r[a], r[b]] 0 <= a < b < r.len() implies leq(
        r[a],
        r[b],
    ) by {
        if a < j && b < j {
            assert(r[a] == s[a] && r[b] == s[b]);
        } else if a < j && b == j {
            assert(r[a] == s[a] && r[b] == x);
        } else if a < j && b > j {
            assert(r[a] == s[a] && r[b] == s[b - 1]);
            if b - 1 == a {
                assert(leq(s[a], x) && !leq(s[b - 1], x) ==> false);
            }
        } else if a == j && b > j {
            assert(r[a] == x && r[b] == s[b - 1]);
            assert(!leq(s[j], x));
            assert(leq(x, s[j]));
            if b - 1 > j {
                assert(leq(s[j], s[b - 1]));
            } else {
                assert(leq(x, s[b - 1]));
            }
        } else if a > j && b > j {
            assert(r[a] == s[a - 1] && r[b] == s[b - 1]);
        }
    }
    assert(s.subrange(0, j) + s.subrange(j, s.len() as int) =~= s);
    lemma_multiset_commutative(s.subrange(0, j) + seq![x], s.subrange(j, s.len() as int));
    lemma_multiset_commutative(s.subrange(0, j), seq![x]);
    lemma_multiset_commutative(s.subrange(0, j), s.subrange(j, s.len() as int));
    assert(seq![x].to_multiset() =~= Multiset::empty().insert(x)) by {
        broadcast use vstd::seq_lib::group_to_multiset_ensures;

        assert(Seq::<T>::empty().push(x) =~= seq![x]);
        assert(Seq::<T>::empty().to_multiset().len() == 0);
        assert(Seq::<T>::empty().to_multiset() =~= Multiset::<T>::empty());
    }
    assert(r.to_multiset() =~= s.to_multiset().insert(x));
}

/// For a total and transitive relation, the stable sort of any sequence is
/// sorted, is a permutation of the input, and has the same length.
pub proof fn lemma_sort_by_stable_ensures<T>(s: Seq<T>, leq: spec_fn(T, T) -> bool)
    requires
        forall|a: T, b: T| #[trigger] leq(a, b) || leq(b, a),
        forall|a: T, b: T, c: T| #![trigger leq(a, b), leq(b, c)] leq(a, b) && leq(b, c) ==> leq(a, c),
    ensures
        sorted_by_le(sort_by_stable(s, leq), leq),
        sort_by_stable(s, leq).to_multiset() == s.to_multiset(),
        sort_by_stable(s, leq).len() == s.len(),
    decreases s.len(),
{
    broadcast use vstd::seq_lib::group_to_multiset_ensures;

    if s.len() > 0 {
        lemma_sort_by_stable_ensures(s.drop_last(), leq);
        lemma_insert_sorted_by_props(sort_by_stable(s.drop_last(), leq), s.last(), leq);
        assert(s.drop_last().push(s.last()) =~= s);
    }
}

/// A row type a vector of which can be sorted: the order is a spec relation
/// on views, decided by `leq_exec`, total and transitive.
pub trait SortOrder: View + Sized {
    spec fn leq(a: Self::V, b: Self::V) -> bool;

    fn leq_exec(&self, other: &Self) -> (r: bool)
        ensures
            r == Self::leq(self@, other@),
    ;

    proof fn lemma_leq_total(a: Self::V, b: Self::V)
        ensures
            Self::leq(a, b) || Self::leq(b, a),
    ;

    proof fn lemma_leq_trans(a: Self::V, b: Self::V, c: Self::V)
        requires
            Self::leq(a, b),
            Self::leq(b, c),
        ensures
            Self::leq(a, c),
    ;
}

/// The sequence of views of a vector's elements.
pub open spec fn views_of<T: View>(s: Seq<T>) -> Seq<T::V> {
    s.map_values(|t: T| t@)
}

/// Sorts a vector stably by the element order; the views of the result are
/// exactly the stable sort of the views of the input.
pub fn sort_vec<T: SortOrder>(v: Vec<T>) -> (r: Vec<T>)
    ensures
        views_of(r@) == sort_by_stable(views_of(v@), |a: T::V, b: T::V| T::leq(a, b)),
        r@.to_multiset() == v@.to_multiset(),
{
    let ghost leq = |a: T::V, b: T::V| T::leq(a, b);
    let ghost orig: Seq<T> = v@;
    let mut rest = v;
    let mut out: Vec<T> = Vec::new();
    let ghost mut done: int = 0;
    proof {
        broadcast use vstd::seq_lib::group_to_multiset_ensures;

        assert(orig.subrange(0, 0) =~= Seq::<T>::empty());
        assert(views_of(out@) =~= Seq::<T::V>::empty());
        assert(views_of(orig.subrange(0, 0)) =~= Seq::<T::V>::empty());
        assert(out@.to_multiset() =~= orig.subrange(0, 0).to_multiset()) by {
            assert(out@.to_multiset().len() == 0);
            assert(orig.subrange(0, 0).to_multiset().len() == 0);
        }
    }
    while rest.len() > 0
        invariant
            leq == (|a: T::V, b: T::V| T::leq(a, b)),
            0 <= done <= orig.len(),
            rest@ =~= orig.subrange(done, orig.len() as int),
            views_of(out@) == sort_by_stable(views_of(orig.subrange(0, done)), leq),
            out@.to_multiset() == orig.subrange(0, done).to_multiset(),
        decreases rest@.len(),
    {
        broadcast use vstd::seq_lib::group_to_multiset_ensures;

        let x = rest.remove(0);
        proof {
            assert(x == orig[done]);
            assert(rest@ =~= orig.subrange(done + 1, orig.len() as int));
        }
        let mut j: usize = 0;
        while j < out.len()
            invariant
                j <= out@.len(),
                forall|k: int| 0 <= k < j ==> T::leq(#[trigger] out@[k]@, x@),
            ensures
                j <= out@.len(),
                forall|k: int| 0 <= k < j ==> T::leq(#[trigger] out@[k]@, x@),
                j < out@.len() ==> !T::leq(out@[j as int]@, x@),
            decreases out@.len() - j,
        {
            if !out[j].leq_exec(&x) {
                break;
            }
            j = j + 1;
        }
        proof {
            assert forall|k: int| 0 <= k < j implies leq(#[trigger] views_of(out@)[k], x@) by {
                assert(views_of(out@)[k] == out@[k]@);
            }
            if (j as int) < out@.len() {
                assert(views_of(out@)[j as int] == out@[j as int]@);
            }
            lemma_insert_pos_by_at(views_of(out@), x@, leq, j as int);
        }
        let ghost pre = out@;
        out.insert(j, x);
        proof {
            assert(views_of(out@) =~= insert_sorted_by(views_of(pre), x@, leq));
            assert(views_of(orig.subrange(0, done + 1)).drop_last() =~= views_of(
                orig.subrange(0, done),
            ));
            assert(views_of(orig.subrange(0, done + 1)).last() == orig[done]@);
            assert(out@.to_multiset() =~= pre.to_multiset().insert(x)) by {
                assert(pre.subrange(0, j as int) + pre.subrange(j as int, pre.len() as int) =~= pre);
                assert(out@ =~= pre.subrange(0, j as int) + seq![x] + pre.subrange(
                    j as int,
                    pre.len() as int,
                ));
                lemma_multiset_commutative(
                    pre.subrange(0, j as int) + seq![x],
                    pre.subrange(j as int, pre.len() as int),
                );
                lemma_multiset_commutative(pre.subrange(0, j as int), seq![x]);
                lemma_multiset_commutative(
                    pre.subrange(0, j as int),
                    pre.subrange(j as int, pre.len() as int),
                );
                assert(seq![x].to_multiset() =~= Multiset::empty().insert(x)) by {
                    assert(Seq::<T>::empty().push(x) =~= seq![x]);
                    assert(Seq::<T>::empty().to_multiset().len() == 0);
                    assert(Seq::<T>::empty().to_multiset() =~= Multiset::<T>::empty());
                }
            }
            assert(orig.subrange(0, done + 1).drop_last() =~= orig.subrange(0, done));
            assert(orig.subrange(0, done + 1).to_multiset() =~= orig.subrange(
                0,
                done,
            ).to_multiset().insert(x)) by {
                assert(orig.subrange(0, done + 1) =~= orig.subrange(0, done).push(x));
            }
            done = done + 1;
        }
    }
    proof {
        assert(orig.subrange(0, orig.len() as int) =~= orig);
    }
    out
}

} // verus!
