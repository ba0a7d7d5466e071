//! A stable sort by rank.

use vstd::prelude::*;

verus! {

/// Things that stand in a list by rank. Several may share one rank.
pub trait Ranked: Sized {
    /// Whether `self` has the strictly smaller rank.
    spec fn ranks_before(&self, other: &Self) -> bool;

    /// Ranks are ordered: of two things at most one comes before the other,
    /// and what does not come before something that does not come before a
    /// third does not come before the third.
    proof fn rank_laws(a: Self, b: Self, c: Self)
        ensures
            !(a.ranks_before(&b) && b.ranks_before(&a)),
            !a.ranks_before(&b) && !b.ranks_before(&c) ==> !a.ranks_before(&c),
    ;

    fn before(&self, other: &Self) -> (r: bool)
        ensures
            r == self.ranks_before(other),
    ;
}

/// `list` with `x` put behind everything that does not rank after it.
pub open spec fn inserted<T: Ranked>(list: Seq<T>, x: T) -> Seq<T>
    decreases list.len(),
{
    if list.len() > 0 && x.ranks_before(&list.last()) {
        inserted(list.drop_last(), x).push(list.last())
    } else {
        list.push(x)
    }
}

/// `list` in the order of rank; what shares a rank stays in the order given.
pub open spec fn by_rank<T: Ranked>(list: Seq<T>) -> Seq<T>
    decreases list.len(),
{
    if list.len() == 0 {
        list
    } else {
        inserted(by_rank(list.drop_last()), list.last())
    }
}

/// Nothing ranks before what stands in front of it.
pub open spec fn is_ordered<T: Ranked>(list: Seq<T>) -> bool {
    forall|i: int, j: int| 0 <= i < j < list.len() ==> !list[j].ranks_before(&list[i])
}

/// Whether two things share a rank.
pub open spec fn same_rank<T: Ranked>(a: T, b: T) -> bool {
    !a.ranks_before(&b) && !b.ranks_before(&a)
}

proof fn lemma_inserted<T: Ranked>(list: Seq<T>, x: T)
    requires
        is_ordered(list),
    ensures
        is_ordered(inserted(list, x)),
        inserted(list, x).to_multiset() == list.to_multiset().insert(x),
        forall|y: T| inserted(list, x).contains(y) ==> list.contains(y) || y == x,
    decreases list.len(),
{
    broadcast use vstd::seq_lib::group_to_multiset_ensures;

    if list.len() > 0 && x.ranks_before(&list.last()) {
        let front = list.drop_last();
        let last = list.last();
        lemma_inserted(front, x);
        let mid = inserted(front, x);
        assert(list == front.push(last));
        assert forall|i: int, j: int| 0 <= i < j < mid.push(last).len() implies !mid.push(
            last,
        )[j].ranks_before(&mid.push(last)[i]) by {
            if j == mid.len() {
                assert(mid.contains(mid[i]));
                if mid[i] == x {
                    T::rank_laws(x, last, x);
                } else {
                    assert(front.contains(mid[i]));
                    let k = choose|k: int| 0 <= k < front.len() && front[k] == mid[i];
                    assert(list[k] == mid[i] && list[list.len() - 1] == last);
                }
            }
        }
        assert forall|y: T| mid.push(last).contains(y) implies list.contains(y) || y == x by {
            let k = choose|k: int| 0 <= k < mid.push(last).len() && mid.push(last)[k] == y;
            if k < mid.len() {
                assert(mid.contains(y));
                if y != x {
                    assert(front.contains(y));
                    let m = choose|m: int| 0 <= m < front.len() && front[m] == y;
                    assert(list[m] == y);
                }
            } else {
                assert(list[list.len() - 1] == y);
            }
        }
        assert(inserted(list, x).to_multiset() =~= list.to_multiset().insert(x));
    } else {
        let out = list.push(x);
        assert forall|i: int, j: int| 0 <= i < j < out.len() implies !out[j].ranks_before(
            &out[i],
        ) by {
            if j == list.len() && i < list.len() - 1 {
                T::rank_laws(x, list.last(), list[i]);
                assert(!list[list.len() - 1].ranks_before(&list[i]));
            }
        }
        assert forall|y: T| out.contains(y) implies list.contains(y) || y == x by {
            let k = choose|k: int| 0 <= k < out.len() && out[k] == y;
            if k < list.len() {
                assert(list[k] == y);
            }
        }
        assert(out.to_multiset() =~= list.to_multiset().insert(x));
    }
}

/// Sorting leaves the same things, in the order of their rank.
pub proof fn sorting_orders<T: Ranked>(list: Seq<T>)
    ensures
        is_ordered(by_rank(list)),
        by_rank(list).to_multiset() == list.to_multiset(),
        by_rank(list).len() == list.len(),
    decreases list.len(),
{
    broadcast use vstd::seq_lib::group_to_multiset_ensures;

    if list.len() > 0 {
        sorting_orders(list.drop_last());
        lemma_inserted(by_rank(list.drop_last()), list.last());
        assert(list == list.drop_last().push(list.last()));
    }
    by_rank(list).to_multiset_ensures();
    list.to_multiset_ensures();
}

/// The things that share the rank of `r`.
pub open spec fn of_rank<T: Ranked>(r: T) -> spec_fn(T) -> bool {
    |y: T| same_rank(y, r)
}

proof fn lemma_push_filter<T>(list: Seq<T>, x: T, keep: spec_fn(T) -> bool)
    ensures
        list.push(x).filter(keep) == (if keep(x) {
            list.filter(keep).push(x)
        } else {
            list.filter(keep)
        }),
{
    reveal(Seq::filter);
    assert(list.push(x).drop_last() =~= list);
}

proof fn lemma_inserted_filter<T: Ranked>(list: Seq<T>, x: T, r: T)
    ensures
        inserted(list, x).filter(of_rank(r)) == list.push(x).filter(of_rank(r)),
    decreases list.len(),
{
    let keep = of_rank(r);
    if list.len() > 0 && x.ranks_before(&list.last()) {
        let front = list.drop_last();
        let last = list.last();
        lemma_inserted_filter(front, x, r);
        lemma_push_filter(inserted(front, x), last, keep);
        lemma_push_filter(list, x, keep);
        lemma_push_filter(front, x, keep);
        lemma_push_filter(front, last, keep);
        assert(list =~= front.push(last));
        // `x` and `last` differ in rank, so at most one of them is kept.
        if keep(x) && keep(last) {
            T::rank_laws(x, r, last);
        }
    }
}

/// Sorting is stable: among those of one rank the order stays.
pub proof fn sorting_is_stable<T: Ranked>(list: Seq<T>, r: T)
    ensures
        by_rank(list).filter(of_rank(r)) == list.filter(of_rank(r)),
    decreases list.len(),
{
    if list.len() > 0 {
        let front = list.drop_last();
        let x = list.last();
        sorting_is_stable(front, r);
        lemma_inserted_filter(by_rank(front), x, r);
        lemma_push_filter(by_rank(front), x, of_rank(r));
        lemma_push_filter(front, x, of_rank(r));
        assert(list =~= front.push(x));
    }
}

proof fn lemma_insert_position<T: Ranked>(list: Seq<T>, x: T, k: int)
    requires
        0 <= k <= list.len(),
        forall|j: int| k <= j < list.len() ==> x.ranks_before(&list[j]),
        k > 0 ==> !x.ranks_before(&list[k - 1]),
    ensures
        inserted(list, x) == list.insert(k, x),
    decreases list.len(),
{
    if k < list.len() {
        assert(x.ranks_before(&list[list.len() - 1]));
        lemma_insert_position(list.drop_last(), x, k);
        assert(list.insert(k, x) =~= list.drop_last().insert(k, x).push(list.last()));
    } else {
        assert(list.insert(k, x) =~= list.push(x));
    }
}

/// Sorts by rank.
pub fn sort_by_rank<T: Ranked>(list: Vec<T>) -> (r: Vec<T>)
    ensures
        r@ == by_rank(list@),
{
    let mut rest: Vec<T> = list;
    let mut out: Vec<T> = Vec::new();
    let ghost all = list@;
    let ghost mut done: int = 0;
    assert(all.take(0) =~= Seq::empty());
    while rest.len() > 0
        invariant
            0 <= done <= all.len(),
            rest@ == all.skip(done),
            out@ == by_rank(all.take(done)),
        decreases rest@.len(),
    {
        let x: T = rest.remove(0);
        let mut k: usize = out.len();
        while k > 0 && x.before(&out[k - 1])
            invariant
                k <= out@.len(),
                forall|j: int| k <= j < out@.len() ==> x.ranks_before(&#[trigger] out@[j]),
            decreases k,
        {
            k = k - 1;
        }
        proof {
            lemma_insert_position(out@, x, k as int);
            assert(all.take(done + 1).drop_last() =~= all.take(done));
            assert(rest@ =~= all.skip(done + 1));
            done = done + 1;
        }
        out.insert(k, x);
    }
    assert(all.take(done) =~= all);
    out
}

} // verus!
