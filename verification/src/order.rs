//! Stable sorting by an integer rank.

use vstd::prelude::*;

verus! {

/// Something that is ranked by an integer.
pub trait Ranked {
    /// What the value is ranked by.
    spec fn rank(&self) -> int;
}

/// Something that can be sorted by its rank.
pub trait Sortable: Ranked {
    /// Whether `self` ranks after `other`.
    fn ranks_after(&self, other: &Self) -> (r: bool)
        ensures
            r == (self.rank() > other.rank()),
    ;
}

/// Whether the ranks never fall from left to right.
pub open spec fn ascending<T: Ranked>(s: Seq<T>) -> bool {
    forall|i: int, j: int|
        0 <= i < j < s.len() ==> (#[trigger] s[i]).rank() <= (#[trigger] s[j]).rank()
}

/// The test whether an item has the given rank.
pub open spec fn rank_is<T: Ranked>(rank: int) -> spec_fn(T) -> bool {
    |x: T| x.rank() == rank
}

/// The items of `s` with the given rank, in the order in which they stand.
pub open spec fn with_rank<T: Ranked>(s: Seq<T>, rank: int) -> Seq<T> {
    s.filter(rank_is(rank))
}

/// Whether `sorted` holds the items of `s` in ascending order, items of equal
/// rank in the order in which they stood in `s`.
///
/// There is exactly one such sequence (`law_stable_sort_is_unique`).
pub open spec fn stably_sorted<T: Ranked>(s: Seq<T>, sorted: Seq<T>) -> bool {
    &&& ascending(sorted)
    &&& sorted.len() == s.len()
    &&& forall|rank: int| #[trigger] with_rank(sorted, rank) == with_rank(s, rank)
}

/// The items of `s` in ascending order, items of equal rank in the order in which
/// they stand in `s`.
pub open spec fn sorted<T: Ranked>(s: Seq<T>) -> Seq<T> {
    choose|r: Seq<T>| stably_sorted(s, r)
}

proof fn lemma_filter_one<T>(x: T, f: spec_fn(T) -> bool)
    ensures
        seq![x].filter(f) == (if f(x) {
            seq![x]
        } else {
            Seq::<T>::empty()
        }),
{
    reveal_with_fuel(Seq::filter, 2);
    assert(seq![x].drop_last() =~= Seq::<T>::empty());
    assert(seq![x].filter(f) =~= (if f(x) {
        seq![x]
    } else {
        Seq::<T>::empty()
    }));
}

/// Moving an item to the left past items of other ranks leaves the order within
/// each rank alone.
proof fn lemma_move_left<T: Ranked>(a: Seq<T>, b: Seq<T>, x: T, c: Seq<T>, rank: int)
    requires
        forall|i: int| 0 <= i < b.len() ==> (#[trigger] b[i]).rank() != x.rank(),
    ensures
        with_rank(a + b + seq![x] + c, rank) == with_rank(a + seq![x] + b + c, rank),
{
    let f = rank_is::<T>(rank);
    Seq::filter_distributes_over_add(a, b, f);
    Seq::filter_distributes_over_add(a + b, seq![x], f);
    Seq::filter_distributes_over_add(a + b + seq![x], c, f);
    Seq::filter_distributes_over_add(a, seq![x], f);
    Seq::filter_distributes_over_add(a + seq![x], b, f);
    Seq::filter_distributes_over_add(a + seq![x] + b, c, f);
    lemma_filter_one(x, f);
    if x.rank() == rank {
        b.lemma_all_neg_filter_empty(f);
        assert(a.filter(f) + b.filter(f) + seq![x].filter(f) =~= a.filter(f) + seq![x].filter(f)
            + b.filter(f));
    } else {
        assert(a.filter(f) + b.filter(f) + seq![x].filter(f) =~= a.filter(f) + seq![x].filter(f)
            + b.filter(f));
    }
}

/// Sorts `v` by rank. Items of equal rank keep their order.
pub fn stable_sort<T: Sortable>(v: &mut Vec<T>)
    ensures
        stably_sorted(old(v)@, final(v)@),
        final(v)@ == sorted(old(v)@),
{
    let n: usize = v.len();
    let ghost was = v@;
    let mut i: usize = 0;
    while i < n
        invariant
            0 <= i <= n,
            n == v@.len(),
            n == was.len(),
            ascending(v@.take(i as int)),
            forall|rank: int| #[trigger] with_rank(v@, rank) == with_rank(was, rank),
        decreases n - i,
    {
        let mut k: usize = 0;
        while k < i && !v[k].ranks_after(&v[i])
            invariant
                0 <= k <= i < n,
                n == v@.len(),
                forall|j: int| 0 <= j < k ==> (#[trigger] v@[j]).rank() <= v@[i as int].rank(),
            decreases i - k,
        {
            k += 1;
        }
        let ghost cur = v@;
        let item: T = v.remove(i);
        v.insert(k, item);
        proof {
            let a = cur.take(k as int);
            let b = cur.subrange(k as int, i as int);
            let c = cur.skip(i as int + 1);
            assert(cur =~= a + b + seq![item] + c);
            assert(v@ =~= a + seq![item] + b + c);
            assert forall|j: int| 0 <= j < b.len() implies (#[trigger] b[j]).rank()
                > item.rank() by {
                assert(cur.take(i as int)[k as int] == cur[k as int]);
                assert(cur.take(i as int)[k + j] == b[j]);
            }
            assert forall|rank: int| #[trigger] with_rank(v@, rank) == with_rank(was, rank) by {
                lemma_move_left(a, b, item, c, rank);
                assert(with_rank(cur, rank) == with_rank(was, rank));
            }
            let next = v@.take(i as int + 1);
            assert forall|p: int, q: int| 0 <= p < q < next.len() implies (#[trigger] next[p]).rank()
                <= (#[trigger] next[q]).rank() by {
                let old_p = if p < k {
                    p
                } else {
                    p - 1
                };
                let old_q = if q < k {
                    q
                } else {
                    q - 1
                };
                if p != k {
                    assert(next[p] == cur.take(i as int)[old_p]);
                }
                if q != k {
                    assert(next[q] == cur.take(i as int)[old_q]);
                }
                if p == k {
                    assert(next[q] == b[q - k - 1]);
                }
            }
        }
        i += 1;
    }
    assert(v@.take(n as int) =~= v@);
    proof {
        assert(stably_sorted(was, v@));
        law_stable_sort_is_unique(was, v@, sorted(was));
    }
}

proof fn lemma_last_of_rank<T: Ranked>(s: Seq<T>)
    requires
        s.len() > 0,
    ensures
        with_rank(s, s.last().rank()).len() > 0,
        with_rank(s, s.last().rank()).last() == s.last(),
        forall|rank: int| #[trigger]
            with_rank(s, rank) == (if rank == s.last().rank() {
                with_rank(s.drop_last(), rank).push(s.last())
            } else {
                with_rank(s.drop_last(), rank)
            }),
{
    reveal_with_fuel(Seq::filter, 1);
}

proof fn lemma_rank_bound<T: Ranked>(s: Seq<T>, rank: int)
    requires
        ascending(s),
        with_rank(s, rank).len() > 0,
    ensures
        s.len() > 0,
        s.last().rank() >= rank,
{
    let f = rank_is::<T>(rank);
    let x = s.filter(f)[0];
    s.lemma_filter_pred(f, 0);
    assert(s.filter(f).contains(x));
    s.lemma_filter_contains_rev(f, x);
    let i = choose|i: int| 0 <= i < s.len() && s[i] == x;
    assert(s[i].rank() <= s[s.len() - 1].rank());
}

/// A sequence has only one stable sort.
pub proof fn law_stable_sort_is_unique<T: Ranked>(s: Seq<T>, a: Seq<T>, b: Seq<T>)
    requires
        stably_sorted(s, a),
        stably_sorted(s, b),
    ensures
        a == b,
    decreases a.len(),
{
    if a.len() == 0 {
        assert(a =~= b);
    } else {
        let (ra, rb) = (a.last().rank(), b.last().rank());
        lemma_last_of_rank(a);
        lemma_last_of_rank(b);
        assert(with_rank(a, ra) == with_rank(s, ra));
        assert(with_rank(b, ra) == with_rank(s, ra));
        assert(with_rank(a, rb) == with_rank(s, rb));
        assert(with_rank(b, rb) == with_rank(s, rb));
        lemma_rank_bound(b, ra);
        lemma_rank_bound(a, rb);
        assert(ra == rb);
        assert(a.last() == b.last());
        let (a0, b0) = (a.drop_last(), b.drop_last());
        assert forall|rank: int| #[trigger] with_rank(b0, rank) == with_rank(a0, rank) by {
            assert(with_rank(a, rank) == with_rank(s, rank));
            assert(with_rank(b, rank) == with_rank(s, rank));
            if rank == ra {
                assert(with_rank(a0, rank) =~= with_rank(a, rank).drop_last());
                assert(with_rank(b0, rank) =~= with_rank(b, rank).drop_last());
            }
        }
        law_stable_sort_is_unique(a0, a0, b0);
        assert(a =~= a0.push(a.last()));
        assert(b =~= b0.push(b.last()));
    }
}

proof fn lemma_place_for<T: Ranked>(s: Seq<T>, rank: int) -> (k: int)
    requires
        ascending(s),
    ensures
        0 <= k <= s.len(),
        forall|i: int| 0 <= i < k ==> (#[trigger] s[i]).rank() <= rank,
        forall|i: int| k <= i < s.len() ==> (#[trigger] s[i]).rank() > rank,
    decreases s.len(),
{
    if s.len() == 0 {
        0
    } else if s.last().rank() <= rank {
        s.len() as int
    } else {
        let front = s.drop_last();
        assert forall|i: int, j: int| 0 <= i < j < front.len() implies (#[trigger] front[i]).rank()
            <= (#[trigger] front[j]).rank() by {
            assert(front[i] == s[i] && front[j] == s[j]);
        }
        let k = lemma_place_for(front, rank);
        assert forall|i: int| 0 <= i < k implies (#[trigger] s[i]).rank() <= rank by {
            assert(s[i] == front[i]);
        }
        assert forall|i: int| k <= i < s.len() implies (#[trigger] s[i]).rank() > rank by {
            if i < front.len() {
                assert(s[i] == front[i]);
            }
        }
        k
    }
}

/// Every sequence has a stable sort.
pub proof fn law_stable_sort_exists<T: Ranked>(s: Seq<T>)
    ensures
        stably_sorted(s, sorted(s)),
    decreases s.len(),
{
    if s.len() == 0 {
        assert(stably_sorted(s, s));
    } else {
        let front = s.drop_last();
        let x = s.last();
        law_stable_sort_exists(front);
        let r = sorted(front);
        let k = lemma_place_for(r, x.rank());
        let a = r.take(k);
        let b = r.skip(k);
        let none = Seq::<T>::empty();
        let next = a + seq![x] + b;
        assert(r =~= a + b);
        assert forall|rank: int| #[trigger] with_rank(next, rank) == with_rank(s, rank) by {
            lemma_move_left(a, b, x, none, rank);
            assert(a + b + seq![x] + none =~= r.push(x));
            assert(a + seq![x] + b + none =~= next);
            assert(front.push(x) =~= s);
            r.lemma_filter_push(x, rank_is(rank));
            front.lemma_filter_push(x, rank_is(rank));
            assert(with_rank(r, rank) == with_rank(front, rank));
        }
        assert forall|i: int, j: int| 0 <= i < j < next.len() implies (#[trigger] next[i]).rank()
            <= (#[trigger] next[j]).rank() by {
            let p = if i <= k {
                i
            } else {
                i - 1
            };
            let q = if j <= k {
                j
            } else {
                j - 1
            };
            assert(i != k ==> next[i] == r[p]);
            assert(j != k ==> next[j] == r[q]);
        }
        assert(stably_sorted(s, next));
    }
}

/// Sorting neither adds nor loses an item.
pub proof fn law_stable_sort_keeps_items<T: Ranked>(s: Seq<T>, sorted: Seq<T>)
    requires
        stably_sorted(s, sorted),
    ensures
        sorted.to_multiset() == s.to_multiset(),
{
    lemma_same_ranks_same_items(sorted, s);
}

proof fn lemma_same_ranks_same_items<T: Ranked>(a: Seq<T>, b: Seq<T>)
    requires
        forall|rank: int| #[trigger] with_rank(a, rank) == with_rank(b, rank),
    ensures
        a.to_multiset() == b.to_multiset(),
        a.len() == b.len(),
{
    assert forall|x: T| #[trigger] a.to_multiset().count(x) == b.to_multiset().count(x) by {
        lemma_count_within_rank(a, x);
        lemma_count_within_rank(b, x);
        assert(with_rank(a, x.rank()) == with_rank(b, x.rank()));
    }
    assert(a.to_multiset() =~= b.to_multiset());
    a.to_multiset_ensures();
    b.to_multiset_ensures();
}

proof fn lemma_count_within_rank<T: Ranked>(s: Seq<T>, x: T)
    ensures
        s.to_multiset().count(x) == with_rank(s, x.rank()).to_multiset().count(x),
    decreases s.len(),
{
    broadcast use vstd::seq_lib::to_multiset_build;

    reveal_with_fuel(Seq::filter, 1);
    if s.len() > 0 {
        lemma_count_within_rank(s.drop_last(), x);
        assert(s =~= s.drop_last().push(s.last()));
    }
}

proof fn lemma_rank_of_filtered<T: Ranked>(
    s: Seq<T>,
    p: spec_fn(T) -> bool,
    ok: spec_fn(int) -> bool,
    rank: int,
)
    requires
        forall|i: int| 0 <= i < s.len() ==> p(#[trigger] s[i]) == ok(s[i].rank()),
    ensures
        with_rank(s.filter(p), rank) == (if ok(rank) {
            with_rank(s, rank)
        } else {
            Seq::empty()
        }),
    decreases s.len(),
{
    reveal_with_fuel(Seq::filter, 1);
    if s.len() > 0 {
        let front = s.drop_last();
        assert forall|i: int| 0 <= i < front.len() implies p(#[trigger] front[i]) == ok(
            front[i].rank(),
        ) by {
            assert(front[i] == s[i]);
        }
        lemma_rank_of_filtered(front, p, ok, rank);
        assert(p(s[s.len() - 1]) == ok(s[s.len() - 1].rank()));
        if p(s.last()) {
            front.filter(p).lemma_filter_push(s.last(), rank_is(rank));
        }
    }
}

proof fn lemma_filter_ascends<T: Ranked>(s: Seq<T>, p: spec_fn(T) -> bool)
    requires
        ascending(s),
    ensures
        ascending(s.filter(p)),
    decreases s.len(),
{
    reveal_with_fuel(Seq::filter, 1);
    if s.len() > 0 {
        let front = s.drop_last();
        assert forall|i: int, j: int| 0 <= i < j < front.len() implies (#[trigger] front[i]).rank()
            <= (#[trigger] front[j]).rank() by {
            assert(front[i] == s[i] && front[j] == s[j]);
        }
        lemma_filter_ascends(front, p);
        let kept = front.filter(p);
        assert forall|i: int| 0 <= i < kept.len() implies (#[trigger] kept[i]).rank()
            <= s.last().rank() by {
            assert(kept.contains(kept[i]));
            front.lemma_filter_contains_rev(p, kept[i]);
            let k = choose|k: int| 0 <= k < front.len() && front[k] == kept[i];
            assert(s[k].rank() <= s[s.len() - 1].rank());
        }
    }
}

/// Picking items by their ranks, before or after sorting, comes to the same.
pub proof fn law_sorting_keeps_choices<T: Ranked>(
    s: Seq<T>,
    sorted: Seq<T>,
    p: spec_fn(T) -> bool,
    ok: spec_fn(int) -> bool,
)
    requires
        stably_sorted(s, sorted),
        forall|x: T| p(x) == #[trigger] ok(x.rank()),
    ensures
        stably_sorted(s.filter(p), sorted.filter(p)),
{
    lemma_filter_ascends(sorted, p);
    assert forall|rank: int| #[trigger]
        with_rank(sorted.filter(p), rank) == with_rank(s.filter(p), rank) by {
        assert forall|i: int| 0 <= i < s.len() implies p(#[trigger] s[i]) == ok(s[i].rank()) by {}
        assert forall|i: int| 0 <= i < sorted.len() implies p(#[trigger] sorted[i]) == ok(
            sorted[i].rank(),
        ) by {}
        lemma_rank_of_filtered(s, p, ok, rank);
        lemma_rank_of_filtered(sorted, p, ok, rank);
        assert(with_rank(sorted, rank) == with_rank(s, rank));
    }
    lemma_same_ranks_same_items(sorted.filter(p), s.filter(p));
}

proof fn lemma_rank_of_mapped<A: Ranked, B: Ranked>(
    s: Seq<A>,
    f: spec_fn(A) -> B,
    shift: int,
    rank: int,
)
    requires
        forall|i: int| 0 <= i < s.len() ==> f(#[trigger] s[i]).rank() == s[i].rank() + shift,
    ensures
        with_rank(s.map_values(f), rank) == with_rank(s, rank - shift).map_values(f),
    decreases s.len(),
{
    reveal_with_fuel(Seq::filter, 1);
    if s.len() > 0 {
        let front = s.drop_last();
        assert forall|i: int| 0 <= i < front.len() implies f(#[trigger] front[i]).rank()
            == front[i].rank() + shift by {
            assert(front[i] == s[i]);
        }
        lemma_rank_of_mapped(front, f, shift, rank);
        assert(s.map_values(f).drop_last() =~= front.map_values(f));
        assert(f(s[s.len() - 1]).rank() == s[s.len() - 1].rank() + shift);
        let own = with_rank(front, rank - shift);
        assert(own.push(s.last()).map_values(f) =~= own.map_values(f).push(f(s.last())));
    } else {
        assert(with_rank(s.map_values(f), rank) =~= with_rank(s, rank - shift).map_values(f));
    }
}

/// Mapping items in a way that keeps the distances of their ranks, before or after
/// sorting, comes to the same.
pub proof fn law_sorting_keeps_images<A: Ranked, B: Ranked>(
    s: Seq<A>,
    sorted: Seq<A>,
    f: spec_fn(A) -> B,
    shift: int,
)
    requires
        stably_sorted(s, sorted),
        forall|i: int| 0 <= i < s.len() ==> f(#[trigger] s[i]).rank() == s[i].rank() + shift,
    ensures
        stably_sorted(s.map_values(f), sorted.map_values(f)),
{
    lemma_same_ranks_same_items(sorted, s);
    s.to_multiset_ensures();
    sorted.to_multiset_ensures();
    assert forall|i: int| 0 <= i < sorted.len() implies f(#[trigger] sorted[i]).rank()
        == sorted[i].rank() + shift by {
        assert(sorted.contains(sorted[i]));
        assert(sorted.to_multiset().count(sorted[i]) > 0);
        assert(s.to_multiset().count(sorted[i]) > 0);
        assert(s.contains(sorted[i]));
        let k = choose|k: int| 0 <= k < s.len() && s[k] == sorted[i];
        assert(f(s[k]).rank() == s[k].rank() + shift);
    }
    assert forall|rank: int| #[trigger]
        with_rank(sorted.map_values(f), rank) == with_rank(s.map_values(f), rank) by {
        lemma_rank_of_mapped(s, f, shift, rank);
        lemma_rank_of_mapped(sorted, f, shift, rank);
        assert(with_rank(sorted, rank - shift) == with_rank(s, rank - shift));
    }
    let images = sorted.map_values(f);
    assert forall|i: int, j: int| 0 <= i < j < images.len() implies (#[trigger] images[i]).rank()
        <= (#[trigger] images[j]).rank() by {
        assert(sorted[i].rank() <= sorted[j].rank());
        assert(images[i] == f(sorted[i]) && images[j] == f(sorted[j]));
    }
}

} // verus!
