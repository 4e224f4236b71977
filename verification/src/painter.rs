//! The painter's order: back to front by depth.
//!
//! A depth is an integer that counts in units of the smallest difference that
//! tells two faces apart. Faces of equal depth are ties, and ties keep the
//! order in which they were given.

use crate::arrange::{
    arranged, depths_by, has_no_ties, is_back_to_front, lemma_arranged_keeps_chosen,
    lemma_back_to_front_agree, lists,
};
use vstd::prelude::*;

verus! {

/// Whether the face at position `i` is drawn before the face at position
/// `j`: it lies deeper, or it lies as deep and was given earlier.
pub open spec fn draws_before(depths: Seq<i64>, i: int, j: int) -> bool {
    depths[i] > depths[j] || (depths[i] == depths[j] && i < j)
}

/// Whether every position in `run` is drawn before every later one.
pub open spec fn is_ordered(depths: Seq<i64>, run: Seq<usize>) -> bool {
    forall|a: int, b: int|
        0 <= a < b < run.len() ==> draws_before(depths, run[a] as int, run[b] as int)
}

/// Whether `run` lists the positions `lo..hi` of `depths`, each once, from
/// the deepest face to the nearest, ties in the order of their positions.
pub open spec fn is_sorted_run(depths: Seq<i64>, lo: int, hi: int, run: Seq<usize>) -> bool {
    &&& run.len() == hi - lo
    &&& forall|k: int| 0 <= k < run.len() ==> lo <= #[trigger] run[k] < hi
    &&& forall|p: int| lo <= p < hi ==> #[trigger] lists(run, p)
    &&& is_ordered(depths, run)
}

/// Whether `order` is the painter's order of `depths`: every position once,
/// from the deepest face to the nearest, ties in the order of their
/// positions.
pub open spec fn is_depth_order(depths: Seq<i64>, order: Seq<usize>) -> bool {
    is_sorted_run(depths, 0, depths.len() as int, order)
}

proof fn lemma_push_keeps<T>(s: Seq<T>, last: T, x: T)
    requires
        s.contains(x),
    ensures
        s.push(last).contains(x),
{
    let k = choose|k: int| 0 <= k < s.len() && s[k] == x;
    assert(s.push(last)[k] == x);
}

proof fn lemma_push_holds<T>(s: Seq<T>, last: T)
    ensures
        s.push(last).contains(last),
{
    assert(s.push(last)[s.len() as int] == last);
}

/// Merges two ordered runs, the positions of the first all below those of
/// the second, into one ordered run.
fn merge(depths: &Vec<i64>, left: &Vec<usize>, right: &Vec<usize>) -> (out: Vec<usize>)
    requires
        is_ordered(depths@, left@),
        is_ordered(depths@, right@),
        forall|a: int| 0 <= a < left.len() ==> (#[trigger] left[a]) < depths.len(),
        forall|b: int| 0 <= b < right.len() ==> (#[trigger] right[b]) < depths.len(),
        forall|a: int, b: int|
            0 <= a < left.len() && 0 <= b < right.len() ==> (#[trigger] left[a]) < (
            #[trigger] right[b]),
        left.len() + right.len() <= usize::MAX,
    ensures
        out.len() == left.len() + right.len(),
        is_ordered(depths@, out@),
        forall|k: int|
            0 <= k < out.len() ==> left@.contains(#[trigger] out[k]) || right@.contains(out[k]),
        forall|a: int| 0 <= a < left.len() ==> out@.contains(#[trigger] left[a]),
        forall|b: int| 0 <= b < right.len() ==> out@.contains(#[trigger] right[b]),
{
    let mut out: Vec<usize> = Vec::new();
    let mut i: usize = 0;
    let mut j: usize = 0;
    while i < left.len() || j < right.len()
        invariant
            i <= left.len(),
            j <= right.len(),
            out.len() == i + j,
            is_ordered(depths@, left@),
            is_ordered(depths@, right@),
            forall|a: int| 0 <= a < left.len() ==> (#[trigger] left[a]) < depths.len(),
            forall|b: int| 0 <= b < right.len() ==> (#[trigger] right[b]) < depths.len(),
            forall|a: int, b: int|
                0 <= a < left.len() && 0 <= b < right.len() ==> (#[trigger] left[a]) < (
                #[trigger] right[b]),
            is_ordered(depths@, out@),
            forall|k: int|
                0 <= k < out.len() ==> left@.contains(#[trigger] out[k]) || right@.contains(
                    out[k],
                ),
            forall|a: int| 0 <= a < i ==> out@.contains(#[trigger] left[a]),
            forall|b: int| 0 <= b < j ==> out@.contains(#[trigger] right[b]),
            forall|k: int, a: int|
                0 <= k < out.len() && i <= a < left.len() ==> draws_before(
                    depths@,
                    #[trigger] out[k] as int,
                    #[trigger] left[a] as int,
                ),
            forall|k: int, b: int|
                0 <= k < out.len() && j <= b < right.len() ==> draws_before(
                    depths@,
                    #[trigger] out[k] as int,
                    #[trigger] right[b] as int,
                ),
        decreases left.len() - i + right.len() - j,
    {
        let from_left: bool = if i == left.len() {
            false
        } else if j == right.len() {
            true
        } else {
            depths[left[i]] >= depths[right[j]]
        };
        let ghost before = out@;
        if from_left {
            let taken: usize = left[i];
            out.push(taken);
            proof {
                assert(left@.contains(taken)) by {
                    assert(left@[i as int] == taken);
                }
                assert forall|a: int| 0 <= a < i + 1 implies out@.contains(
                    #[trigger] left[a],
                ) by {
                    if a < i {
                        lemma_push_keeps(before, taken, left[a]);
                    } else {
                        lemma_push_holds(before, taken);
                    }
                }
                assert forall|b: int| 0 <= b < j implies out@.contains(#[trigger] right[b]) by {
                    lemma_push_keeps(before, taken, right[b]);
                }
                assert forall|k: int, b: int|
                    0 <= k < out.len() && j <= b < right.len() implies draws_before(
                    depths@,
                    #[trigger] out[k] as int,
                    #[trigger] right[b] as int,
                ) by {
                    if k == before.len() {
                        assert(left[i as int] < right[b]);
                        if b > j {
                            assert(draws_before(depths@, right[j as int] as int, right[b] as int));
                        }
                    }
                }
            }
            i = i + 1;
        } else {
            let taken: usize = right[j];
            out.push(taken);
            proof {
                assert(right@.contains(taken)) by {
                    assert(right@[j as int] == taken);
                }
                assert forall|a: int| 0 <= a < i implies out@.contains(#[trigger] left[a]) by {
                    lemma_push_keeps(before, taken, left[a]);
                }
                assert forall|b: int| 0 <= b < j + 1 implies out@.contains(
                    #[trigger] right[b],
                ) by {
                    if b < j {
                        lemma_push_keeps(before, taken, right[b]);
                    } else {
                        lemma_push_holds(before, taken);
                    }
                }
                assert forall|k: int, a: int|
                    0 <= k < out.len() && i <= a < left.len() implies draws_before(
                    depths@,
                    #[trigger] out[k] as int,
                    #[trigger] left[a] as int,
                ) by {
                    if k == before.len() {
                        if a > i {
                            assert(draws_before(depths@, left[i as int] as int, left[a] as int));
                        }
                    }
                }
            }
            j = j + 1;
        }
    }
    out
}

/// The painter's order of the positions `lo..hi`.
fn sort_range(depths: &Vec<i64>, lo: usize, hi: usize) -> (run: Vec<usize>)
    requires
        lo <= hi <= depths.len(),
    ensures
        is_sorted_run(depths@, lo as int, hi as int, run@),
    decreases hi - lo,
{
    if hi - lo == 0 {
        Vec::new()
    } else if hi - lo == 1 {
        let mut run: Vec<usize> = Vec::new();
        run.push(lo);
        proof {
            assert(run@[0] == lo);
        }
        run
    } else {
        let mid: usize = lo + (hi - lo) / 2;
        let left = sort_range(depths, lo, mid);
        let right = sort_range(depths, mid, hi);
        let run = merge(depths, &left, &right);
        proof {
            assert forall|k: int| 0 <= k < run.len() implies lo <= #[trigger] run[k] < hi by {
                if left@.contains(run[k]) {
                    let a = choose|a: int| 0 <= a < left.len() && left[a] == run[k];
                    assert(lo <= left[a] < mid);
                } else {
                    let b = choose|b: int| 0 <= b < right.len() && right[b] == run[k];
                    assert(mid <= right[b] < hi);
                }
            }
            assert forall|p: int| lo <= p < hi implies #[trigger] lists(run@, p) by {
                if p < mid {
                    assert(lists(left@, p));
                    let a = choose|a: int| 0 <= a < left.len() && left[a] == p;
                    assert(run@.contains(left[a]));
                } else {
                    assert(lists(right@, p));
                    let b = choose|b: int| 0 <= b < right.len() && right[b] == p;
                    assert(run@.contains(right[b]));
                }
            }
        }
        run
    }
}

/// Orders faces back to front by their depths.
///
/// The result lists every position of `depths` once. A deeper face comes
/// before a nearer one, and faces of equal depth come in the order in which
/// they were given.
pub fn depth_order(depths: &Vec<i64>) -> (order: Vec<usize>)
    ensures
        is_depth_order(depths@, order@),
{
    sort_range(depths, 0, depths.len())
}

/// Drawing before is a strict total order on the positions of a list: no
/// position is drawn before itself, of two positions exactly one is drawn
/// before the other, and the relation is transitive.
pub proof fn lemma_draws_before_is_total_order(depths: Seq<i64>, i: int, j: int, k: int)
    ensures
        !draws_before(depths, i, i),
        i != j ==> (draws_before(depths, i, j) <==> !draws_before(depths, j, i)),
        draws_before(depths, i, j) && draws_before(depths, j, k) ==> draws_before(depths, i, k),
{
}

/// A list of depths has one painter's order and no other.
pub proof fn lemma_depth_order_is_unique(depths: Seq<i64>, first: Seq<usize>, second: Seq<usize>)
    requires
        is_depth_order(depths, first),
        is_depth_order(depths, second),
    ensures
        first == second,
{
    assert forall|p: usize| first.contains(p) <==> second.contains(p) by {
        if first.contains(p) {
            let k = choose|k: int| 0 <= k < first.len() && first[k] == p;
            assert(first[k] < depths.len());
            assert(lists(second, p as int));
        }
        if second.contains(p) {
            let k = choose|k: int| 0 <= k < second.len() && second[k] == p;
            assert(second[k] < depths.len());
            assert(lists(first, p as int));
        }
    }
    lemma_ordered_runs_agree(depths, first, second);
}

/// Two ordered runs over the same positions are the same run.
pub proof fn lemma_ordered_runs_agree(depths: Seq<i64>, first: Seq<usize>, second: Seq<usize>)
    requires
        is_ordered(depths, first),
        is_ordered(depths, second),
        forall|p: usize| first.contains(p) <==> second.contains(p),
    ensures
        first == second,
    decreases first.len(),
{
    if first.len() == 0 {
        if second.len() > 0 {
            assert(second.contains(second[0]));
        }
        assert(first =~= second);
    } else {
        let head = first[0];
        assert(first.contains(head));
        let k = choose|k: int| 0 <= k < second.len() && second[k] == head;
        assert(second.contains(second[0]));
        let m = choose|m: int| 0 <= m < first.len() && first[m] == second[0];
        if k > 0 {
            assert(draws_before(depths, second[0] as int, second[k] as int));
            if m > 0 {
                assert(draws_before(depths, first[0] as int, first[m] as int));
            }
        }
        assert(second[0] == head);
        let rest1 = first.drop_first();
        let rest2 = second.drop_first();
        assert forall|p: usize| rest1.contains(p) <==> rest2.contains(p) by {
            if rest1.contains(p) {
                let a = choose|a: int| 0 <= a < rest1.len() && rest1[a] == p;
                assert(first[a + 1] == p);
                assert(draws_before(depths, first[0] as int, first[a + 1] as int));
                assert(first.contains(p));
                let b = choose|b: int| 0 <= b < second.len() && second[b] == p;
                assert(b > 0);
                assert(rest2[b - 1] == p);
            }
            if rest2.contains(p) {
                let b = choose|b: int| 0 <= b < rest2.len() && rest2[b] == p;
                assert(second[b + 1] == p);
                assert(draws_before(depths, second[0] as int, second[b + 1] as int));
                assert(second.contains(p));
                let a = choose|a: int| 0 <= a < first.len() && first[a] == p;
                assert(a > 0);
                assert(rest1[a - 1] == p);
            }
        }
        assert(is_ordered(depths, rest1)) by {
            assert forall|a: int, b: int| 0 <= a < b < rest1.len() implies draws_before(
                depths,
                rest1[a] as int,
                rest1[b] as int,
            ) by {
                assert(draws_before(depths, first[a + 1] as int, first[b + 1] as int));
            }
        }
        assert(is_ordered(depths, rest2)) by {
            assert forall|a: int, b: int| 0 <= a < b < rest2.len() implies draws_before(
                depths,
                rest2[a] as int,
                rest2[b] as int,
            ) by {
                assert(draws_before(depths, second[a + 1] as int, second[b + 1] as int));
            }
        }
        lemma_ordered_runs_agree(depths, rest1, rest2);
        assert(first =~= seq![head] + rest1);
        assert(second =~= seq![head] + rest2);
    }
}

/// The painter's order arranges a list back to front and keeps its items,
/// each as often as it was there.
pub proof fn lemma_depth_order_arranges<T>(
    items: Seq<T>,
    depth: spec_fn(T) -> i64,
    order: Seq<usize>,
)
    requires
        is_depth_order(depths_by(items, depth), order),
    ensures
        arranged(items, order).to_multiset() == items.to_multiset(),
        is_back_to_front(arranged(items, order), depth),
{
    let depths = depths_by(items, depth);
    let all = |item: T| true;
    assert(order.no_duplicates()) by {
        assert forall|a: int, b: int|
            0 <= a < order.len() && 0 <= b < order.len() && a != b implies order[a]
            != order[b] by {
            if a < b {
                assert(draws_before(depths, order[a] as int, order[b] as int));
            } else {
                assert(draws_before(depths, order[b] as int, order[a] as int));
            }
        }
    }
    lemma_arranged_keeps_chosen(items, order, all);
    lemma_filter_all(items, all);
    assert forall|a: int, b: int| 0 <= a < b < order.len() implies depth(
        arranged(items, order)[a],
    ) >= depth(arranged(items, order)[b]) by {
        assert(draws_before(depths, order[a] as int, order[b] as int));
    }
}

/// Filtering by a test that every item passes leaves a list as it is.
proof fn lemma_filter_all<T>(items: Seq<T>, all: spec_fn(T) -> bool)
    requires
        forall|item: T| #[trigger] all(item),
    ensures
        items.filter(all) == items,
    decreases items.len(),
{
    reveal(Seq::filter);
    if items.len() > 0 {
        lemma_filter_all(items.drop_last(), all);
        assert(items =~= items.drop_last().push(items.last()));
    }
}

/// The painter's order does not depend on the order in which the faces are
/// given: of two lists that hold the same items equally often, without two
/// different items of one depth, the painter's orders arrange both into the
/// same list.
pub proof fn lemma_depth_order_of_permutation<T>(
    items: Seq<T>,
    shuffled: Seq<T>,
    depth: spec_fn(T) -> i64,
    order: Seq<usize>,
    shuffled_order: Seq<usize>,
)
    requires
        items.to_multiset() == shuffled.to_multiset(),
        has_no_ties(items, depth),
        is_depth_order(depths_by(items, depth), order),
        is_depth_order(depths_by(shuffled, depth), shuffled_order),
    ensures
        arranged(items, order) == arranged(shuffled, shuffled_order),
{
    let first = arranged(items, order);
    let second = arranged(shuffled, shuffled_order);
    lemma_depth_order_arranges(items, depth, order);
    lemma_depth_order_arranges(shuffled, depth, shuffled_order);
    assert(has_no_ties(first, depth));
    lemma_back_to_front_agree(first, second, depth);
}

} // verus!
