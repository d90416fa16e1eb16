//! Bubble sort, proved sorted and a permutation of its input.
//!
//! The loop runs until a pass makes no swap, so its termination is not
//! structural: each swap of an out-of-order adjacent pair removes
//! exactly one inversion, and the number of inversions bounds the work
//! that is left.

use vstd::prelude::*;
use vstd::seq_lib::to_multiset_update;

verus! {

/// How many elements of `s` are smaller than `x`.
pub open spec fn count_gt(x: i32, s: Seq<i32>) -> nat
    decreases s.len(),
{
    if s.len() == 0 {
        0
    } else {
        (if x > s[0] {
            1nat
        } else {
            0nat
        }) + count_gt(x, s.drop_first())
    }
}

/// The number of out-of-order pairs in `s`.
pub open spec fn inversions(s: Seq<i32>) -> nat
    decreases s.len(),
{
    if s.len() == 0 {
        0
    } else {
        count_gt(s[0], s.drop_first()) + inversions(s.drop_first())
    }
}

/// `s` with the elements at `i` and `i + 1` exchanged.
pub open spec fn swap_adjacent(s: Seq<i32>, i: int) -> Seq<i32> {
    s.update(i, s[i + 1]).update(i + 1, s[i])
}

/// Nondecreasing order.
pub open spec fn sorted(s: Seq<i32>) -> bool {
    forall|i: int, j: int| 0 <= i < j < s.len() ==> s[i] <= s[j]
}

/// Swapping two adjacent elements never changes how many elements are
/// smaller than a fixed `x`.
proof fn lemma_count_gt_swap(x: i32, s: Seq<i32>, i: int)
    requires
        0 <= i,
        i + 1 < s.len(),
    ensures
        count_gt(x, swap_adjacent(s, i)) == count_gt(x, s),
    decreases i,
{
    let t = swap_adjacent(s, i);
    if i == 0 {
        let rest = s.drop_first().drop_first();
        assert(t.drop_first().drop_first() =~= rest);
        assert(t[0] == s[1] && t.drop_first()[0] == s[0]);
        assert(count_gt(x, t) == (if x > s[1] {
            1nat
        } else {
            0nat
        }) + count_gt(x, t.drop_first()));
        assert(count_gt(x, t.drop_first()) == (if x > s[0] {
            1nat
        } else {
            0nat
        }) + count_gt(x, rest));
        assert(count_gt(x, s) == (if x > s[0] {
            1nat
        } else {
            0nat
        }) + count_gt(x, s.drop_first()));
        assert(count_gt(x, s.drop_first()) == (if x > s[1] {
            1nat
        } else {
            0nat
        }) + count_gt(x, rest));
    } else {
        assert(t.drop_first() =~= swap_adjacent(s.drop_first(), i - 1));
        lemma_count_gt_swap(x, s.drop_first(), i - 1);
        assert(t[0] == s[0]);
    }
}

/// Swapping an out-of-order adjacent pair removes exactly one inversion.
proof fn lemma_swap_removes_inversion(s: Seq<i32>, i: int)
    requires
        0 <= i,
        i + 1 < s.len(),
        s[i] > s[i + 1],
    ensures
        inversions(swap_adjacent(s, i)) + 1 == inversions(s),
    decreases i,
{
    let t = swap_adjacent(s, i);
    if i == 0 {
        let rest = s.drop_first().drop_first();
        assert(t.drop_first().drop_first() =~= rest);
        assert(s.drop_first()[0] == s[1] && t.drop_first()[0] == s[0]);
        assert(count_gt(s[0], s.drop_first()) == 1 + count_gt(s[0], rest));
        assert(count_gt(s[1], t.drop_first()) == count_gt(s[1], rest));
        assert(inversions(s.drop_first()) == count_gt(s[1], rest) + inversions(rest));
        assert(inversions(t.drop_first()) == count_gt(s[0], rest) + inversions(rest));
    } else {
        assert(t.drop_first() =~= swap_adjacent(s.drop_first(), i - 1));
        lemma_count_gt_swap(s[0], s.drop_first(), i - 1);
        lemma_swap_removes_inversion(s.drop_first(), i - 1);
        assert(t[0] == s[0]);
    }
}

/// A sequence whose adjacent pairs are in order is sorted end to end.
proof fn lemma_adjacent_implies_sorted(s: Seq<i32>)
    requires
        forall|k: int| 0 <= k < s.len() - 1 ==> #[trigger] s[k] <= s[k + 1],
    ensures
        sorted(s),
{
    assert forall|i: int, j: int| 0 <= i < j < s.len() implies s[i] <= s[j] by {
        lemma_run_ordered(s, i, j);
    }
}

/// Chains adjacent order from `i` up to `j`.
proof fn lemma_run_ordered(s: Seq<i32>, i: int, j: int)
    requires
        forall|k: int| 0 <= k < s.len() - 1 ==> #[trigger] s[k] <= s[k + 1],
        0 <= i <= j < s.len(),
    ensures
        s[i] <= s[j],
    decreases j - i,
{
    if i < j {
        lemma_run_ordered(s, i, j - 1);
        assert(s[j - 1] <= s[j]);
    }
}

/// Sorts the vector in place by repeated passes of adjacent swaps,
/// stopping after the first pass that is already in order.  The result
/// is sorted and holds exactly the elements it started with.
pub fn bubble_sort(arr: &mut Vec<i32>)
    requires
        old(arr).len() >= 1,
    ensures
        final(arr).len() == old(arr).len(),
        sorted(final(arr)@),
        final(arr)@.to_multiset() == old(arr)@.to_multiset(),
{
    let mut swapped = true;
    while swapped
        invariant
            arr.len() == old(arr).len() >= 1,
            arr@.to_multiset() == old(arr)@.to_multiset(),
            !swapped ==> sorted(arr@),
        decreases inversions(arr@) + (if swapped {
            1int
        } else {
            0int
        }),
    {
        swapped = false;
        let ghost pass_start = arr@;
        let mut i: usize = 0;
        let end = arr.len() - 1;
        while i < end
            invariant
                end + 1 == arr.len() == old(arr).len(),
                i <= end,
                arr@.to_multiset() == old(arr)@.to_multiset(),
                inversions(arr@) <= inversions(pass_start),
                swapped ==> inversions(arr@) < inversions(pass_start),
                !swapped ==> arr@ == pass_start,
                !swapped ==> forall|k: int| 0 <= k < i ==> #[trigger] arr@[k] <= arr@[k + 1],
            decreases end - i,
        {
            let left = arr[i];
            let right = arr[i + 1];
            if left > right {
                let ghost before = arr@;
                arr.set(i, right);
                arr.set(i + 1, left);
                proof {
                    broadcast use to_multiset_update;
                    broadcast use vstd::seq_lib::group_to_multiset_ensures;

                    assert(arr@ == swap_adjacent(before, i as int));
                    lemma_swap_removes_inversion(before, i as int);
                    assert(before.update(i as int, right)[i as int + 1] == right);
                    assert(before.contains(left) && before.contains(right));
                    assert(arr@.to_multiset() =~= before.to_multiset());
                }
                swapped = true;
            }
            i = i + 1;
        }
        proof {
            if !swapped {
                lemma_adjacent_implies_sorted(arr@);
            }
        }
    }
}

} // verus!
