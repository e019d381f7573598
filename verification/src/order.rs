//! Stable orders of lists.
use vstd::prelude::*;

use crate::text::{compare_texts, lemma_precedes_total, lemma_precedes_transitive, precedes, Side};

verus! {

/// Things that stand in an order, in which different ones may tie.
pub trait Ranked: Sized {
    /// Whether `self` comes before `other` or ties with it.
    spec fn no_later(&self, other: &Self) -> bool;

    /// Whether `self` comes before `other` or ties with it.
    fn is_no_later(&self, other: &Self) -> (result: bool)
        ensures
            result == self.no_later(other),
    ;

    /// Any two can be compared.
    proof fn lemma_total(&self, other: &Self)
        ensures
            self.no_later(other) || other.no_later(self),
    ;

    /// The order is transitive.
    proof fn lemma_transitive(&self, middle: &Self, other: &Self)
        requires
            self.no_later(middle),
            middle.no_later(other),
        ensures
            self.no_later(other),
    ;
}

impl Ranked for String {
    open spec fn no_later(&self, other: &Self) -> bool {
        !precedes(other@, self@)
    }

    fn is_no_later(&self, other: &Self) -> (result: bool) {
        match compare_texts(other, self) {
            Side::Before => false,
            _ => true,
        }
    }

    proof fn lemma_total(&self, other: &Self) {
        lemma_precedes_total(self@, other@);
    }

    proof fn lemma_transitive(&self, middle: &Self, other: &Self) {
        if precedes(other@, self@) {
            lemma_precedes_total(self@, middle@);
            if self@ == middle@ {
            } else {
                lemma_precedes_transitive(other@, self@, middle@);
            }
        }
    }
}

/// Whether two positions stand in order: the item at the first comes before
/// the one at the second, or they tie and the first position is the smaller.
pub open spec fn in_order<T: Ranked>(items: Seq<T>, first: usize, second: usize) -> bool {
    &&& items[first as int].no_later(&items[second as int])
    &&& items[second as int].no_later(&items[first as int]) ==> first < second
}

/// Whether `order` lists each of the positions below `count` once.
pub open spec fn lists_all(order: Seq<usize>, count: int) -> bool {
    &&& order.len() == count
    &&& order.no_duplicates()
    &&& forall|i: int| 0 <= i < order.len() ==> (#[trigger] order[i]) < count
}

/// Whether `order` lists the positions in the order of the items, with ties in
/// the order in which they came.
pub open spec fn stably_sorted<T: Ranked>(items: Seq<T>, order: Seq<usize>) -> bool {
    forall|i: int, j: int|
        #![trigger order[i], order[j]]
        0 <= i < j < order.len() ==> in_order(items, order[i], order[j])
}

/// The positions of the items in their order, with ties in the order in which
/// they came.
pub fn stable_order<T: Ranked>(items: &Vec<T>) -> (order: Vec<usize>)
    ensures
        lists_all(order@, items@.len() as int),
        stably_sorted(items@, order@),
{
    let mut order: Vec<usize> = Vec::new();
    let mut next: usize = 0;
    while next < items.len()
        invariant
            next <= items.len(),
            lists_all(order@, next as int),
            stably_sorted(items@, order@),
        decreases items.len() - next,
    {
        let ghost before = order@;
        let mut at: usize = order.len();
        while at > 0 && !items[order[at - 1]].is_no_later(&items[next])
            invariant
                at <= order.len(),
                next < items.len(),
                order@ == before,
                lists_all(before, next as int),
                forall|k: int|
                    #![trigger before[k]]
                    at <= k < before.len() ==> !items@[before[k] as int].no_later(
                        &items@[next as int],
                    ),
            decreases at,
        {
            at -= 1;
        }
        proof {
            lemma_inserted(items@, before, at as int, next);
        }
        order.insert(at, next);
        next += 1;
    }
    order
}

proof fn lemma_inserted<T: Ranked>(items: Seq<T>, before: Seq<usize>, at: int, next: usize)
    requires
        next < items.len(),
        0 <= at <= before.len(),
        lists_all(before, next as int),
        stably_sorted(items, before),
        at > 0 ==> items[before[at - 1] as int].no_later(&items[next as int]),
        forall|k: int|
            #![trigger before[k]]
            at <= k < before.len() ==> !items[before[k] as int].no_later(&items[next as int]),
    ensures
        lists_all(before.insert(at, next), next + 1),
        stably_sorted(items, before.insert(at, next)),
{
    let after = before.insert(at, next);
    assert forall|i: int, j: int| 0 <= i < after.len() && 0 <= j < after.len() && i != j implies
        after[i] != after[j] by {
        let x = if i < at { i } else { i - 1 };
        let y = if j < at { j } else { j - 1 };
        if i != at && j != at {
            assert(before[x] != before[y]);
        } else if i == at {
            assert(before[y] < next);
        } else {
            assert(before[x] < next);
        }
    }
    assert forall|i: int| 0 <= i < after.len() implies (#[trigger] after[i]) < next + 1 by {
        if i != at {
            let x = if i < at { i } else { i - 1 };
            assert(before[x] < next);
        }
    }
    assert forall|i: int, j: int|
        #![trigger after[i], after[j]]
        0 <= i < j < after.len() implies in_order(items, after[i], after[j]) by {
        let x = if i < at { i } else { i - 1 };
        let y = if j < at { j } else { j - 1 };
        if i != at && j != at {
            assert(in_order(items, before[x], before[y]));
        } else if j == at {
            assert(before[x] < next);
            let last = before[at - 1];
            if x < at - 1 {
                assert(in_order(items, before[x], before[at - 1]));
                items[before[x] as int].lemma_transitive(
                    &items[last as int],
                    &items[next as int],
                );
            }
        } else {
            let later = before[y];
            assert(!items[later as int].no_later(&items[next as int]));
            items[next as int].lemma_total(&items[later as int]);
        }
    }
}

} // verus!
