//! Lists of items, and lists of positions that arrange them.
//!
//! An order is a list of positions of a list of items. To arrange the items
//! by an order is to take the item at each position that the order lists.

use vstd::multiset::*;
use vstd::prelude::*;
use vstd::seq_lib::*;

verus! {

/// Whether `run` lists the position `p`.
pub open spec fn lists(run: Seq<usize>, p: int) -> bool {
    exists|k: int| 0 <= k < run.len() && run[k] == p
}

/// The items at the positions that `order` lists, in that order.
pub open spec fn arranged<T>(items: Seq<T>, order: Seq<usize>) -> Seq<T> {
    Seq::new(order.len(), |k: int| items[order[k] as int])
}

/// The depths of the items of a list.
pub open spec fn depths_by<T>(items: Seq<T>, depth: spec_fn(T) -> i64) -> Seq<i64> {
    Seq::new(items.len(), |k: int| depth(items[k]))
}

/// Whether no item of `items` lies deeper than an earlier one.
pub open spec fn is_back_to_front<T>(items: Seq<T>, depth: spec_fn(T) -> i64) -> bool {
    forall|a: int, b: int| 0 <= a < b < items.len() ==> depth(items[a]) >= depth(items[b])
}

/// Whether two items of `items` that lie equally deep are the same item.
pub open spec fn has_no_ties<T>(items: Seq<T>, depth: spec_fn(T) -> i64) -> bool {
    forall|i: int, j: int|
        0 <= i < items.len() && 0 <= j < items.len() && depth(items[i]) == depth(items[j])
            ==> items[i] == items[j]
}

/// Whether `order` lists the positions of the items that `keep` keeps, each
/// once, and no other position.
pub open spec fn lists_the_kept<T>(
    items: Seq<T>,
    order: Seq<usize>,
    keep: spec_fn(T) -> bool,
) -> bool {
    &&& order.no_duplicates()
    &&& forall|k: int|
        0 <= k < order.len() ==> (#[trigger] order[k]) < items.len() && keep(
            items[order[k] as int],
        )
    &&& forall|p: int| 0 <= p < items.len() && keep(items[p]) ==> #[trigger] lists(order, p)
}

/// Arranging items by a list of the positions that a test keeps gives the
/// items that the test keeps, each as often as it was there.
pub proof fn lemma_arranged_keeps_chosen<T>(
    items: Seq<T>,
    order: Seq<usize>,
    keep: spec_fn(T) -> bool,
)
    requires
        lists_the_kept(items, order, keep),
    ensures
        arranged(items, order).to_multiset() == items.filter(keep).to_multiset(),
    decreases items.len(),
{
    broadcast use group_multiset_axioms;

    reveal(Seq::filter);
    let all = arranged(items, order);
    if items.len() == 0 {
        if order.len() > 0 {
            assert(order[0] < items.len());
        }
        assert(all =~= items.filter(keep));
    } else {
        let last = items.len() - 1;
        let front = items.drop_last();
        if keep(items[last]) {
            assert(lists(order, last));
            let k = choose|k: int| 0 <= k < order.len() && order[k] == last;
            let fewer = order.remove(k);
            assert(lists_the_kept(front, fewer, keep)) by {
                assert forall|m: int| 0 <= m < fewer.len() implies (#[trigger] fewer[m])
                    < front.len() && keep(front[fewer[m] as int]) by {
                    let n = if m < k {
                        m
                    } else {
                        m + 1
                    };
                    assert(fewer[m] == order[n]);
                    assert(order[n] < items.len());
                    assert(order[n] != order[k]);
                }
                assert forall|p: int| 0 <= p < front.len() && keep(
                    front[p],
                ) implies #[trigger] lists(fewer, p) by {
                    assert(keep(items[p]));
                    assert(lists(order, p));
                    let n = choose|n: int| 0 <= n < order.len() && order[n] == p;
                    let m = if n < k {
                        n
                    } else {
                        n - 1
                    };
                    assert(fewer[m] == p);
                }
                assert forall|a: int, b: int|
                    0 <= a < fewer.len() && 0 <= b < fewer.len() && a != b implies fewer[a]
                    != fewer[b] by {
                    let a2 = if a < k {
                        a
                    } else {
                        a + 1
                    };
                    let b2 = if b < k {
                        b
                    } else {
                        b + 1
                    };
                    assert(fewer[a] == order[a2]);
                    assert(fewer[b] == order[b2]);
                }
            }
            lemma_arranged_keeps_chosen(front, fewer, keep);
            assert(arranged(front, fewer) =~= all.remove(k)) by {
                assert forall|m: int| 0 <= m < fewer.len() implies arranged(front, fewer)[m]
                    == all.remove(k)[m] by {
                    let n = if m < k {
                        m
                    } else {
                        m + 1
                    };
                    assert(fewer[m] == order[n]);
                    assert(fewer[m] < front.len());
                }
            }
            to_multiset_remove(all, k);
            assert(all[k] == items[last]);
            assert(all.contains(all[k]));
            to_multiset_contains(all, all[k]);
            to_multiset_build(front.filter(keep), items[last]);
            assert(all.to_multiset() =~= all.to_multiset().remove(all[k]).insert(all[k]));
        } else {
            assert(lists_the_kept(front, order, keep)) by {
                assert forall|m: int| 0 <= m < order.len() implies (#[trigger] order[m])
                    < front.len() && keep(front[order[m] as int]) by {
                    assert(order[m] < items.len() && keep(items[order[m] as int]));
                }
                assert forall|p: int| 0 <= p < front.len() && keep(
                    front[p],
                ) implies #[trigger] lists(order, p) by {
                    assert(keep(items[p]));
                }
            }
            lemma_arranged_keeps_chosen(front, order, keep);
            assert(arranged(front, order) =~= all);
        }
    }
}

/// How often an item is among those that a test keeps: as often as in the
/// whole list where the test keeps it, and never where it does not.
pub proof fn lemma_count_of_kept<T>(items: Seq<T>, keep: spec_fn(T) -> bool, item: T)
    ensures
        items.filter(keep).to_multiset().count(item) == if keep(item) {
            items.to_multiset().count(item)
        } else {
            0
        },
    decreases items.len(),
{
    broadcast use group_multiset_axioms;

    reveal(Seq::filter);
    if items.len() == 0 {
        assert(items.to_multiset().len() == 0) by {
            to_multiset_len(items);
        }
    } else {
        let front = items.drop_last();
        lemma_count_of_kept(front, keep, item);
        assert(items =~= front.push(items.last()));
        to_multiset_build(front, items.last());
        if keep(items.last()) {
            to_multiset_build(front.filter(keep), items.last());
        }
    }
}

/// Two lists that hold the same items equally often hold the same kept items
/// equally often.
pub proof fn lemma_same_items_same_kept<T>(first: Seq<T>, second: Seq<T>, keep: spec_fn(T) -> bool)
    requires
        first.to_multiset() == second.to_multiset(),
    ensures
        first.filter(keep).to_multiset() == second.filter(keep).to_multiset(),
{
    assert forall|item: T|
        first.filter(keep).to_multiset().count(item) == second.filter(keep).to_multiset().count(
            item,
        ) by {
        lemma_count_of_kept(first, keep, item);
        lemma_count_of_kept(second, keep, item);
    }
    assert(first.filter(keep).to_multiset() =~= second.filter(keep).to_multiset());
}

/// Two lists that hold the same items equally often, both back to front and
/// the first without ties, are the same list.
pub proof fn lemma_back_to_front_agree<T>(
    first: Seq<T>,
    second: Seq<T>,
    depth: spec_fn(T) -> i64,
)
    requires
        first.to_multiset() == second.to_multiset(),
        is_back_to_front(first, depth),
        is_back_to_front(second, depth),
        has_no_ties(first, depth),
    ensures
        first == second,
    decreases first.len(),
{
    broadcast use group_multiset_axioms;

    to_multiset_len(first);
    to_multiset_len(second);
    if first.len() == 0 {
        assert(first =~= second);
    } else {
        let x = first[0];
        let y = second[0];
        assert(first.contains(x));
        assert(second.contains(y));
        to_multiset_contains(first, x);
        to_multiset_contains(second, x);
        to_multiset_contains(first, y);
        to_multiset_contains(second, y);
        let j = choose|j: int| 0 <= j < second.len() && second[j] == x;
        let i = choose|i: int| 0 <= i < first.len() && first[i] == y;
        assert(depth(second[0]) >= depth(second[j]));
        assert(depth(first[0]) >= depth(first[i]));
        assert(first[i] == first[0]);
        assert(x == y);
        let rest1 = first.remove(0);
        let rest2 = second.remove(0);
        to_multiset_remove(first, 0);
        to_multiset_remove(second, 0);
        assert(is_back_to_front(rest1, depth)) by {
            assert forall|a: int, b: int| 0 <= a < b < rest1.len() implies depth(rest1[a])
                >= depth(rest1[b]) by {
                assert(rest1[a] == first[a + 1]);
                assert(rest1[b] == first[b + 1]);
            }
        }
        assert(is_back_to_front(rest2, depth)) by {
            assert forall|a: int, b: int| 0 <= a < b < rest2.len() implies depth(rest2[a])
                >= depth(rest2[b]) by {
                assert(rest2[a] == second[a + 1]);
                assert(rest2[b] == second[b + 1]);
            }
        }
        assert(has_no_ties(rest1, depth)) by {
            assert forall|a: int, b: int|
                0 <= a < rest1.len() && 0 <= b < rest1.len() && depth(rest1[a]) == depth(
                    rest1[b],
                ) implies rest1[a] == rest1[b] by {
                assert(rest1[a] == first[a + 1]);
                assert(rest1[b] == first[b + 1]);
            }
        }
        lemma_back_to_front_agree(rest1, rest2, depth);
        assert(first =~= seq![x] + rest1);
        assert(second =~= seq![y] + rest2);
    }
}

} // verus!
