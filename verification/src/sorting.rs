//! Sorting elapsed times.

use vstd::prelude::*;
use vstd::relations::*;
use vstd::seq_lib::*;

verus! {

/// The order in which elapsed times are sorted.
pub open spec fn ascending() -> spec_fn(u128, u128) -> bool {
    |a: u128, b: u128| a <= b
}

/// `times` arranged in ascending order.
pub open spec fn sorted_times(times: Seq<u128>) -> Seq<u128> {
    times.sort_by(ascending())
}

/// `ascending` is a total order, which is what makes sorting well defined.
pub proof fn lemma_ascending_is_total()
    ensures
        total_ordering(ascending()),
{
}

/// The sorted form of `times` is in ascending order and holds the same
/// elements as `times`, each as often.
pub proof fn lemma_sorted_times(times: Seq<u128>)
    ensures
        sorted_by(sorted_times(times), ascending()),
        sorted_times(times).to_multiset() == times.to_multiset(),
        sorted_times(times).len() == times.len(),
{
    times.lemma_sort_by_ensures(ascending());
    to_multiset_len(times);
    to_multiset_len(sorted_times(times));
}

/// A sequence in ascending order that holds the same elements as `times`
/// is the sorted form of `times`.
pub proof fn lemma_sorted_times_unique(times: Seq<u128>, arranged: Seq<u128>)
    requires
        sorted_by(arranged, ascending()),
        arranged.to_multiset() == times.to_multiset(),
    ensures
        arranged == sorted_times(times),
{
    times.lemma_sort_by_ensures(ascending());
    lemma_sorted_unique(arranged, sorted_times(times), ascending());
}

/// Merges two ascending runs into one.
fn merge(left: &Vec<u128>, right: &Vec<u128>) -> (merged: Vec<u128>)
    requires
        sorted_by(left@, ascending()),
        sorted_by(right@, ascending()),
        left.len() + right.len() <= usize::MAX,
    ensures
        sorted_by(merged@, ascending()),
        merged@.to_multiset() == left@.to_multiset().add(right@.to_multiset()),
{
    let mut merged: Vec<u128> = Vec::new();
    let mut i: usize = 0;
    let mut j: usize = 0;
    proof {
        lemma_multiset_commutative(left@.take(0), right@.take(0));
        assert(left@.take(0) + right@.take(0) =~= merged@);
    }
    while i < left.len() || j < right.len()
        invariant
            i <= left.len(),
            j <= right.len(),
            merged.len() == i + j,
            sorted_by(left@, ascending()),
            sorted_by(right@, ascending()),
            sorted_by(merged@, ascending()),
            merged@.to_multiset() == left@.take(i as int).to_multiset().add(
                right@.take(j as int).to_multiset(),
            ),
            forall|k: int| 0 <= k < merged.len() && i < left.len() ==> merged[k] <= left[i as int],
            forall|k: int| 0 <= k < merged.len() && j < right.len() ==> merged[k] <= right[j as int],
        decreases left.len() - i + right.len() - j,
    {
        let from_left: bool = j >= right.len() || (i < left.len() && left[i] <= right[j]);
        if from_left {
            let next: u128 = left[i];
            proof {
                assert(left@.take(i + 1) =~= left@.take(i as int).push(next));
                to_multiset_build(left@.take(i as int), next);
                to_multiset_build(merged@, next);
                if i + 1 < left.len() {
                    assert(ascending()(left@[i as int], left@[i + 1]));
                }
            }
            merged.push(next);
            i = i + 1;
        } else {
            let next: u128 = right[j];
            proof {
                assert(right@.take(j + 1) =~= right@.take(j as int).push(next));
                to_multiset_build(right@.take(j as int), next);
                to_multiset_build(merged@, next);
                if j + 1 < right.len() {
                    assert(ascending()(right@[j as int], right@[j + 1]));
                }
            }
            merged.push(next);
            j = j + 1;
        }
    }
    proof {
        assert(left@.take(i as int) =~= left@);
        assert(right@.take(j as int) =~= right@);
    }
    merged
}

/// Sorts the part of `times` between `from` and `to` by merging its sorted halves.
fn sort_range(times: &Vec<u128>, from: usize, to: usize) -> (arranged: Vec<u128>)
    requires
        from <= to <= times.len(),
    ensures
        sorted_by(arranged@, ascending()),
        arranged@.to_multiset() == times@.subrange(from as int, to as int).to_multiset(),
    decreases to - from,
{
    if to - from <= 1 {
        let mut arranged: Vec<u128> = Vec::new();
        if from < to {
            arranged.push(times[from]);
        }
        assert(arranged@ =~= times@.subrange(from as int, to as int));
        arranged
    } else {
        let middle: usize = from + (to - from) / 2;
        let left = sort_range(times, from, middle);
        let right = sort_range(times, middle, to);
        proof {
            let lower = times@.subrange(from as int, middle as int);
            let upper = times@.subrange(middle as int, to as int);
            assert(times@.subrange(from as int, to as int) =~= lower + upper);
            lemma_multiset_commutative(lower, upper);
            to_multiset_len(lower);
            to_multiset_len(upper);
            to_multiset_len(left@);
            to_multiset_len(right@);
        }
        merge(&left, &right)
    }
}

/// Returns the elapsed times in ascending order.
pub fn sort_times(times: &Vec<u128>) -> (arranged: Vec<u128>)
    ensures
        arranged@ == sorted_times(times@),
{
    let arranged = sort_range(times, 0, times.len());
    proof {
        assert(times@.subrange(0, times.len() as int) =~= times@);
        lemma_sorted_times_unique(times@, arranged@);
    }
    arranged
}

} // verus!
