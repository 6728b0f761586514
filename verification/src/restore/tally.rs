//! Counting windows by class.

use vstd::prelude::*;

verus! {

/// How often `class` occurs in `classes`.
pub open spec fn count_of(classes: Seq<Seq<char>>, class: Seq<char>) -> nat
    decreases classes.len(),
{
    if classes.len() == 0 {
        0
    } else {
        count_of(classes.drop_last(), class) + (if classes.last() == class {
            1nat
        } else {
            0nat
        })
    }
}

/// A class occurs no more often than there are windows, and at least once where
/// it occurs.
pub(crate) proof fn lemma_count_bounds(classes: Seq<Seq<char>>, class: Seq<char>)
    ensures
        count_of(classes, class) <= classes.len(),
        count_of(classes, class) > 0 <==> classes.contains(class),
    decreases classes.len(),
{
    if classes.len() > 0 {
        let front = classes.drop_last();
        lemma_count_bounds(front, class);
        if front.contains(class) {
            let i = choose|i: int| 0 <= i < front.len() && front[i] == class;
            assert(classes[i] == class);
        }
        if classes.contains(class) && classes.last() != class {
            let i = choose|i: int| 0 <= i < classes.len() && classes[i] == class;
            assert(front[i] == class);
        }
        if classes.last() == class {
            assert(classes[classes.len() - 1] == class);
        }
    }
}

/// Counting in two sequences, one after the other.
pub(crate) proof fn lemma_count_concat(a: Seq<Seq<char>>, b: Seq<Seq<char>>, class: Seq<char>)
    ensures
        count_of(a + b, class) == count_of(a, class) + count_of(b, class),
    decreases b.len(),
{
    if b.len() == 0 {
        assert(a + b =~= a);
    } else {
        assert((a + b).drop_last() =~= a + b.drop_last());
        lemma_count_concat(a, b.drop_last(), class);
    }
}

/// What stands earlier has at most as many of a class.
pub(crate) proof fn lemma_count_grows(classes: Seq<Seq<char>>, i: int, j: int, class: Seq<char>)
    requires
        0 <= i <= j <= classes.len(),
    ensures
        count_of(classes.take(i), class) <= count_of(classes.take(j), class),
{
    assert(classes.take(j) =~= classes.take(i) + classes.subrange(i, j));
    lemma_count_concat(classes.take(i), classes.subrange(i, j), class);
}

/// Taking in one more.
pub(crate) proof fn lemma_count_step(classes: Seq<Seq<char>>, i: int, class: Seq<char>)
    requires
        0 <= i < classes.len(),
    ensures
        count_of(classes.take(i + 1), class) == count_of(classes.take(i), class) + (if classes[i]
            == class {
            1nat
        } else {
            0nat
        }),
{
    assert(classes.take(i + 1).drop_last() =~= classes.take(i));
}

/// Whether of every class there are as many in `have` as in `need`.
pub open spec fn enough(need: Seq<Seq<char>>, have: Seq<Seq<char>>) -> bool {
    forall|c: Seq<char>| #[trigger] count_of(need, c) <= count_of(have, c)
}

proof fn lemma_count_one(x: Seq<char>, class: Seq<char>)
    ensures
        count_of(seq![x], class) == (if x == class {
            1int
        } else {
            0int
        }),
{
    assert(seq![x].drop_last() =~= Seq::<Seq<char>>::empty());
    assert(count_of(Seq::<Seq<char>>::empty(), class) == 0);
    assert(seq![x].last() == x);
}

/// Taking one out.
pub(crate) proof fn lemma_count_remove(classes: Seq<Seq<char>>, k: int, class: Seq<char>)
    requires
        0 <= k < classes.len(),
    ensures
        count_of(classes, class) == count_of(classes.remove(k), class) + (if classes[k] == class {
            1int
        } else {
            0int
        }),
{
    let a = classes.take(k);
    let b = classes.skip(k + 1);
    assert(classes =~= a + (seq![classes[k]] + b));
    assert(classes.remove(k) =~= a + b);
    lemma_count_concat(a, seq![classes[k]] + b, class);
    lemma_count_concat(seq![classes[k]], b, class);
    lemma_count_concat(a, b, class);
    lemma_count_one(classes[k], class);
}

/// Where there is enough of everything, what is needed first is there, and
/// without it there is enough for the rest.
pub(crate) proof fn lemma_enough_step(need: Seq<Seq<char>>, have: Seq<Seq<char>>)
    requires
        enough(need, have),
        need.len() > 0,
    ensures
        have.contains(need[0]),
        forall|k: int|
            0 <= k < have.len() && have[k] == need[0] ==> enough(
                need.skip(1),
                #[trigger] have.remove(k),
            ),
{
    assert(need.contains(need[0]));
    lemma_count_bounds(need, need[0]);
    assert(count_of(need, need[0]) <= count_of(have, need[0]));
    lemma_count_bounds(have, need[0]);
    assert forall|k: int| 0 <= k < have.len() && have[k] == need[0] implies enough(
        need.skip(1),
        #[trigger] have.remove(k),
    ) by {
        assert(need.remove(0) =~= need.skip(1));
        assert forall|c: Seq<char>| #[trigger] count_of(need.skip(1), c) <= count_of(
            have.remove(k),
            c,
        ) by {
            lemma_count_remove(need, 0, c);
            lemma_count_remove(have, k, c);
            assert(count_of(need, c) <= count_of(have, c));
        }
    }
}

/// The last one of a class before `i` has all but one of them before it.
pub(crate) proof fn lemma_last_before(classes: Seq<Seq<char>>, i: int, class: Seq<char>) -> (j: int)
    requires
        0 <= i <= classes.len(),
        count_of(classes.take(i), class) > 0,
    ensures
        0 <= j < i,
        classes[j] == class,
        count_of(classes.take(j), class) == count_of(classes.take(i), class) - 1,
    decreases i,
{
    if i == 0 {
        0
    } else {
        lemma_count_step(classes, i - 1, class);
        if classes[i - 1] == class {
            i - 1
        } else {
            lemma_last_before(classes, i - 1, class)
        }
    }
}

/// One window more counts for its own class, and for no other.
pub proof fn law_each_window_counts_once(classes: Seq<Seq<char>>, class: Seq<char>, other: Seq<char>)
    ensures
        count_of(Seq::empty(), class) == 0,
        count_of(classes.push(class), class) == count_of(classes, class) + 1,
        other != class ==> count_of(classes.push(class), other) == count_of(classes, other),
{
    assert(classes.push(class).drop_last() =~= classes);
}

} // verus!
