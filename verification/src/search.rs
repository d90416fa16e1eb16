//! Searching a vector for a value.

use vstd::prelude::*;

verus! {

/// Scans the vector front to back for `target` and returns the index
/// of its first occurrence, or nothing when no element matches.
pub fn linear_search(arr: Vec<i32>, target: i32) -> (r: Option<usize>)
    ensures
        match r {
            Some(i) => i < arr.len() && arr@[i as int] == target && forall|j: int|
                0 <= j < i ==> arr@[j] != target,
            None => forall|j: int| 0 <= j < arr@.len() ==> arr@[j] != target,
        },
{
    let mut i: usize = 0;
    while i < arr.len()
        invariant
            i <= arr@.len(),
            forall|j: int| 0 <= j < i ==> arr@[j] != target,
        decreases arr@.len() - i,
    {
        if arr[i] == target {
            return Some(i);
        }
        i = i + 1;
    }
    None
}

} // verus!
