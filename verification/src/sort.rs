//! A stable merge sort.
use vstd::prelude::*;

verus! {

/// Values with a strict weak order.
pub trait Ranked: Sized {
    /// Whether this value goes strictly before `other`.
    spec fn ranks_before(self, other: Self) -> bool;

    /// No two values go before each other.
    proof fn ranks_asymmetric(a: Self, b: Self)
        ensures
            !(a.ranks_before(b) && b.ranks_before(a)),
    ;

    /// If `a` does not go before `b`, nor `b` before `c`, then `a` does not go before `c`.
    proof fn ranks_weakly(a: Self, b: Self, c: Self)
        requires
            !a.ranks_before(b),
            !b.ranks_before(c),
        ensures
            !a.ranks_before(c),
    ;
}

/// Values whose order can be tested.
pub trait Sortable: Ranked {
    /// Whether this value goes strictly before `other`.
    fn goes_before(&self, other: &Self) -> (before: bool)
        ensures
            before == self.ranks_before(*other),
    ;
}

/// Whether no value goes before one that stands on its left.
pub open spec fn is_sorted<T: Ranked>(s: Seq<T>) -> bool {
    forall|i: int, j: int| 0 <= i < j < s.len() ==> !(#[trigger] s[j]).ranks_before(#[trigger] s[i])
}

/// `s` with `x` inserted on the right of every value that `x` does not go before.
pub open spec fn insert_ranked<T: Ranked>(s: Seq<T>, x: T) -> Seq<T>
    decreases s.len(),
{
    if s.len() == 0 || !x.ranks_before(s.last()) {
        s.push(x)
    } else {
        insert_ranked(s.drop_last(), x).push(s.last())
    }
}

/// The values of `s` in increasing order. Values that do not go before each other keep their
/// order.
pub open spec fn sorted<T: Ranked>(s: Seq<T>) -> Seq<T>
    decreases s.len(),
{
    if s.len() == 0 {
        s
    } else {
        insert_ranked(sorted(s.drop_last()), s.last())
    }
}

/// The values of two sorted sequences in increasing order, those of `a` first among equals.
spec fn merged<T: Ranked>(a: Seq<T>, b: Seq<T>) -> Seq<T>
    decreases a.len() + b.len(),
{
    if b.len() == 0 {
        a
    } else if a.len() == 0 {
        b
    } else if b.last().ranks_before(a.last()) {
        merged(a.drop_last(), b).push(a.last())
    } else {
        merged(a, b.drop_last()).push(b.last())
    }
}

/// Inserting into a sorted sequence keeps it sorted, and adds one value.
pub proof fn lemma_insert_sorted<T: Ranked>(s: Seq<T>, x: T)
    requires
        is_sorted(s),
    ensures
        is_sorted(insert_ranked(s, x)),
        insert_ranked(s, x).len() == s.len() + 1,
        insert_ranked(s, x).to_multiset() == s.to_multiset().insert(x),
        insert_ranked(s, x).last() == x || (s.len() > 0 && insert_ranked(s, x).last() == s.last()),
    decreases s.len(),
{
    broadcast use vstd::seq_lib::group_to_multiset_ensures;

    if s.len() == 0 || !x.ranks_before(s.last()) {
        let r = s.push(x);
        assert forall|i: int, j: int| 0 <= i < j < r.len() implies !(#[trigger] r[j]).ranks_before(
            #[trigger] r[i],
        ) by {
            if j == s.len() {
                if i < s.len() - 1 {
                    assert(!s[s.len() - 1].ranks_before(s[i]));
                    T::ranks_weakly(x, s.last(), s[i]);
                }
            }
        }
    } else {
        let front = s.drop_last();
        assert(is_sorted(front));
        lemma_insert_sorted(front, x);
        let inner = insert_ranked(front, x);
        let r = inner.push(s.last());
        assert forall|i: int, j: int| 0 <= i < j < r.len() implies !(#[trigger] r[j]).ranks_before(
            #[trigger] r[i],
        ) by {
            if j == inner.len() {
                assert(inner.to_multiset().contains(inner[i])) by {
                    assert(inner.contains(inner[i]));
                }
                if inner[i] == x {
                    T::ranks_asymmetric(x, s.last());
                } else {
                    assert(front.to_multiset().contains(inner[i]));
                    assert(front.contains(inner[i]));
                    let k = choose|k: int| 0 <= k < front.len() && front[k] == inner[i];
                    assert(!s[s.len() - 1].ranks_before(s[k]));
                }
            }
        }
        assert(s =~= front.push(s.last()));
        assert(r.to_multiset() =~= s.to_multiset().insert(x));
    }
}

/// Sorting keeps the values, and puts them in order.
pub proof fn lemma_sorted<T: Ranked>(s: Seq<T>)
    ensures
        is_sorted(sorted(s)),
        sorted(s).len() == s.len(),
        sorted(s).to_multiset() == s.to_multiset(),
    decreases s.len(),
{
    broadcast use vstd::seq_lib::group_to_multiset_ensures;

    if s.len() > 0 {
        lemma_sorted(s.drop_last());
        lemma_insert_sorted(sorted(s.drop_last()), s.last());
        assert(s =~= s.drop_last().push(s.last()));
    }
}

/// Inserting into the right operand of a merge is inserting into the merge.
proof fn lemma_insert_merged<T: Ranked>(a: Seq<T>, b: Seq<T>, x: T)
    requires
        is_sorted(a),
        is_sorted(b),
    ensures
        merged(a, insert_ranked(b, x)) == insert_ranked(merged(a, b), x),
    decreases a.len() + b.len(),
{
    let ib = insert_ranked(b, x);
    lemma_insert_sorted(b, x);
    if a.len() == 0 {
        assert(merged(a, b) =~= b);
        assert(merged(a, ib) =~= ib);
    } else if b.len() == 0 {
        assert(ib =~= b.push(x));
        assert(ib.drop_last() =~= b);
        assert(ib.last() == x);
        if x.ranks_before(a.last()) {
            assert(is_sorted(a.drop_last()));
            lemma_insert_merged(a.drop_last(), b, x);
            assert(merged(a.drop_last(), b) == a.drop_last());
        }
    } else if !x.ranks_before(b.last()) {
        assert(ib == b.push(x));
        assert(ib.drop_last() =~= b);
        assert(ib.last() == x);
        if x.ranks_before(a.last()) {
            // `b` ends before `a` does, so that `a` ends both merges.
            if !b.last().ranks_before(a.last()) {
                T::ranks_weakly(x, b.last(), a.last());
            }
            assert(is_sorted(a.drop_last()));
            lemma_insert_merged(a.drop_last(), b, x);
            assert(merged(a, b).drop_last() =~= merged(a.drop_last(), b));
        } else {
            let m = merged(a, b);
            assert(m.len() > 0);
            assert(m.last() == a.last() || m.last() == b.last());
        }
    } else {
        // `x` goes before the last value of `b`.
        let front = b.drop_last();
        assert(is_sorted(front));
        assert(ib == insert_ranked(front, x).push(b.last()));
        assert(ib.last() == b.last());
        assert(ib.drop_last() =~= insert_ranked(front, x));
        if b.last().ranks_before(a.last()) {
            assert(is_sorted(a.drop_last()));
            lemma_insert_merged(a.drop_last(), b, x);
            let m = merged(a, b);
            assert(m.drop_last() =~= merged(a.drop_last(), b));
            assert(m.last() == a.last());
            if !x.ranks_before(a.last()) {
                // Contradicts `x` before `b.last()` before `a.last()`.
                if b.last().ranks_before(x) {
                    T::ranks_asymmetric(b.last(), x);
                }
                T::ranks_asymmetric(b.last(), a.last());
                T::ranks_asymmetric(x, b.last());
                lemma_before_transitive(x, b.last(), a.last());
            }
        } else {
            lemma_insert_merged(a, front, x);
            let m = merged(a, b);
            assert(m.drop_last() =~= merged(a, front));
            assert(m.last() == b.last());
        }
    }
}

proof fn lemma_before_transitive<T: Ranked>(a: T, b: T, c: T)
    requires
        a.ranks_before(b),
        b.ranks_before(c),
    ensures
        a.ranks_before(c),
{
    // If `a` were not before `c`, then as `c` is not before `b`, `a` would not be before `b`.
    T::ranks_asymmetric(b, c);
    if !a.ranks_before(c) {
        T::ranks_weakly(a, c, b);
    }
}

/// Merging the sorted halves sorts the whole.
proof fn lemma_merge_halves<T: Ranked>(a: Seq<T>, b: Seq<T>)
    ensures
        merged(sorted(a), sorted(b)) == sorted(a + b),
    decreases b.len(),
{
    if b.len() == 0 {
        assert(a + b =~= a);
    } else {
        lemma_merge_halves(a, b.drop_last());
        lemma_sorted(a);
        lemma_sorted(b.drop_last());
        lemma_insert_merged(sorted(a), sorted(b.drop_last()), b.last());
        assert((a + b).drop_last() =~= a + b.drop_last());
        assert((a + b).last() == b.last());
    }
}

/// Merges two sorted vectors.
fn merge<T: Sortable>(a: Vec<T>, b: Vec<T>) -> (result: Vec<T>)
    ensures
        result@ == merged(a@, b@),
{
    let ghost target = merged(a@, b@);
    let mut a = a;
    let mut b = b;
    let mut reversed: Vec<T> = Vec::new();
    while a.len() > 0 && b.len() > 0
        invariant
            target == merged(a@, b@) + reversed@.reverse(),
        decreases a.len() + b.len(),
    {
        let ghost a0 = a@;
        let ghost b0 = b@;
        let ghost tail = reversed@;
        let from_a = b[b.len() - 1].goes_before(&a[a.len() - 1]);
        let popped = if from_a {
            a.pop()
        } else {
            b.pop()
        };
        if let Some(value) = popped {
            proof {
                assert(a0.drop_last() =~= a0.subrange(0, a0.len() - 1));
                assert(b0.drop_last() =~= b0.subrange(0, b0.len() - 1));
                assert(tail.push(value).reverse() =~= seq![value] + tail.reverse());
                assert(merged(a0, b0) == merged(a@, b@).push(value));
                assert(merged(a@, b@).push(value) + tail.reverse() =~= merged(a@, b@) + (
                seq![value] + tail.reverse()));
            }
            reversed.push(value);
        }
    }
    let mut result = if a.len() > 0 {
        a
    } else {
        b
    };
    proof {
        assert(result@ =~= merged(a@, b@));
    }
    while reversed.len() > 0
        invariant
            target == result@ + reversed@.reverse(),
        decreases reversed.len(),
    {
        let ghost tail = reversed@;
        let ghost front = result@;
        if let Some(value) = reversed.pop() {
            result.push(value);
            proof {
                assert(tail.reverse() =~= seq![value] + reversed@.reverse());
                assert(front + tail.reverse() =~= result@ + reversed@.reverse());
            }
        }
    }
    proof {
        assert(result@ + reversed@.reverse() =~= result@);
    }
    result
}

/// Sorts in increasing order. Values that do not go before each other keep their order.
pub fn merge_sort<T: Sortable>(values: Vec<T>) -> (result: Vec<T>)
    ensures
        result@ == sorted(values@),
    decreases values.len(),
{
    let ghost all = values@;
    let mut left = values;
    if left.len() <= 1 {
        proof {
            if all.len() == 1 {
                assert(sorted(all.drop_last()) =~= Seq::empty());
                assert(sorted(all) =~= all);
            }
        }
        return left;
    }
    let middle: usize = left.len() / 2;
    let right = left.split_off(middle);
    proof {
        assert(all =~= left@ + right@);
        lemma_merge_halves(left@, right@);
    }
    merge(merge_sort(left), merge_sort(right))
}

/// A map that keeps the order commutes with insertion.
proof fn lemma_insert_map<A: Ranked, B: Ranked>(s: Seq<A>, x: A, f: spec_fn(A) -> B)
    requires
        forall|a: A, b: A| #[trigger] a.ranks_before(b) == f(a).ranks_before(f(b)),
    ensures
        insert_ranked(s.map_values(f), f(x)) == insert_ranked(s, x).map_values(f),
    decreases s.len(),
{
    let mapped = s.map_values(f);
    if s.len() == 0 || !x.ranks_before(s.last()) {
        assert(mapped.push(f(x)) =~= s.push(x).map_values(f));
    } else {
        lemma_insert_map(s.drop_last(), x, f);
        assert(mapped.drop_last() =~= s.drop_last().map_values(f));
        assert(insert_ranked(s, x).map_values(f) =~= insert_ranked(
            s.drop_last(),
            x,
        ).map_values(f).push(f(s.last())));
    }
}

/// A map that keeps the order commutes with sorting.
pub proof fn lemma_sorted_map<A: Ranked, B: Ranked>(s: Seq<A>, f: spec_fn(A) -> B)
    requires
        forall|a: A, b: A| #[trigger] a.ranks_before(b) == f(a).ranks_before(f(b)),
    ensures
        sorted(s.map_values(f)) == sorted(s).map_values(f),
    decreases s.len(),
{
    if s.len() == 0 {
        assert(sorted(s).map_values(f) =~= s.map_values(f));
    } else {
        lemma_sorted_map(s.drop_last(), f);
        lemma_insert_map(sorted(s.drop_last()), s.last(), f);
        assert(s.map_values(f).drop_last() =~= s.drop_last().map_values(f));
    }
}

/// Where values that do not go before each other are equal, sorting depends only on which values
/// there are, and not on the order in which they come.
pub proof fn lemma_sorted_unique<T: Ranked>(s: Seq<T>, t: Seq<T>)
    requires
        s.to_multiset() == t.to_multiset(),
        forall|a: T, b: T| #[trigger] a.ranks_before(b) || b.ranks_before(a) || a == b,
    ensures
        sorted(s) == sorted(t),
{
    lemma_sorted(s);
    lemma_sorted(t);
    let leq = |a: T, b: T| !b.ranks_before(a);
    assert(vstd::relations::total_ordering(leq)) by {
        assert forall|a: T, b: T, c: T| #[trigger] leq(a, b) && #[trigger] leq(b, c) implies leq(a, c) by {
            T::ranks_weakly(c, b, a);
        }
        assert forall|a: T| #[trigger] leq(a, a) by {
            T::ranks_asymmetric(a, a);
        }
        assert forall|a: T, b: T| #[trigger] leq(a, b) || #[trigger] leq(b, a) by {
            T::ranks_asymmetric(a, b);
        }
    }
    let x = sorted(s);
    let y = sorted(t);
    assert(vstd::relations::sorted_by(x, leq));
    assert(vstd::relations::sorted_by(y, leq));
    vstd::seq_lib::lemma_sorted_unique(x, y, leq);
}

/// The values that are neither before nor after a given one.
pub open spec fn ranked_like<T: Ranked>(x: T) -> spec_fn(T) -> bool {
    |y: T| !x.ranks_before(y) && !y.ranks_before(x)
}

proof fn lemma_insert_keeps_ties<T: Ranked>(s: Seq<T>, x: T, y: T)
    requires
        is_sorted(s),
    ensures
        insert_ranked(s, x).filter(ranked_like(y)) == s.push(x).filter(ranked_like(y)),
    decreases s.len(),
{
    reveal(Seq::filter);
    let like = ranked_like(y);
    if s.len() > 0 && x.ranks_before(s.last()) {
        let front = s.drop_last();
        assert(is_sorted(front));
        lemma_insert_keeps_ties(front, x, y);
        let inserted = insert_ranked(s, x);
        assert(inserted.drop_last() =~= insert_ranked(front, x));
        assert(inserted.last() == s.last());
        assert(front.push(x).drop_last() =~= front);
        assert(s.push(x).drop_last() =~= s);
        if like(x) && like(s.last()) {
            // A value before another one is not tied with what the latter is tied with.
            T::ranks_weakly(x, y, s.last());
        }
        let kept = front.filter(like);
        assert(front.push(x).last() == x && s.push(x).last() == x);
        assert(front.push(x).filter(like) == if like(x) {
            kept.push(x)
        } else {
            kept
        });
        assert(s.filter(like) == if like(s.last()) {
            kept.push(s.last())
        } else {
            kept
        });
        assert(s.push(x).filter(like) == if like(x) {
            s.filter(like).push(x)
        } else {
            s.filter(like)
        });
        assert(inserted.filter(like) == if like(s.last()) {
            insert_ranked(front, x).filter(like).push(s.last())
        } else {
            insert_ranked(front, x).filter(like)
        });
    }
}

/// Sorting permutes the values, so that none goes before one on its left, and values that do not go
/// before each other keep their order.
pub proof fn law_sort_is_stable<T: Ranked>(s: Seq<T>, y: T)
    ensures
        sorted(s).to_multiset() == s.to_multiset(),
        forall|i: int, j: int|
            0 <= i < j < sorted(s).len() ==> !(#[trigger] sorted(s)[j]).ranks_before(
                #[trigger] sorted(s)[i],
            ),
        sorted(s).filter(|x: T| !y.ranks_before(x) && !x.ranks_before(y)) == s.filter(
            |x: T| !y.ranks_before(x) && !x.ranks_before(y),
        ),
    decreases s.len(),
{
    reveal(Seq::filter);
    lemma_sorted(s);
    let like = |x: T| !y.ranks_before(x) && !x.ranks_before(y);
    assert(like =~= ranked_like(y));
    if s.len() > 0 {
        let front = s.drop_last();
        law_sort_is_stable(front, y);
        lemma_sorted(front);
        lemma_insert_keeps_ties(sorted(front), s.last(), y);
        assert(sorted(front).push(s.last()).drop_last() =~= sorted(front));
    }
}

} // verus!
