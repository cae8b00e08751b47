//! Summary statistics over the outcomes of a run.
//!
//! An outcome is `Ok(elapsed_ms)` for a request that completed and
//! `Err(reason)` for one that did not. Only the elapsed times of the
//! completed requests enter the numbers.

use crate::number::{decimal_text, to_decimal};
use crate::sorting::{ascending, lemma_sorted_times_unique, sort_times, sorted_times};
use vstd::prelude::*;
use vstd::seq_lib::*;
use vstd::string::*;

verus! {

/// The summary of a run with at least one completed request.
#[derive(Debug, Clone, Copy, PartialEq, Eq, Structural)]
pub struct Stats {
    pub avg_time: u128,
    pub median_time: u128,
    pub min_time: u128,
    pub max_time: u128,
    pub success_count: usize,
}

/// Why no summary could be made.
#[derive(Debug, Clone, Copy, PartialEq, Eq, Structural)]
pub enum StatsError {
    /// No request completed, so there is nothing to summarise.
    NoData,
}

/// The element in the middle of the sorted times. With an even count this
/// is the upper of the two middle elements; the two are never averaged.
pub open spec fn median_of(times: Seq<u128>) -> u128
    recommends
        times.len() > 0,
{
    sorted_times(times)[times.len() as int / 2]
}

/// The median of `times`: the element at index `len / 2` once the times
/// are sorted in ascending order.
pub fn median(times: Vec<u128>) -> (middle: u128)
    requires
        times.len() > 0,
    ensures
        middle == median_of(times@),
{
    let arranged = sort_times(&times);
    proof {
        times@.lemma_sort_by_ensures(ascending());
        to_multiset_len(times@);
        to_multiset_len(arranged@);
    }
    arranged[times.len() / 2]
}

/// The elapsed times of the completed requests, in the order of the outcomes.
pub open spec fn successes(outcomes: Seq<Result<u128, String>>) -> Seq<u128>
    decreases outcomes.len(),
{
    if outcomes.len() == 0 {
        Seq::empty()
    } else {
        let earlier = successes(outcomes.drop_last());
        match outcomes.last() {
            Ok(elapsed) => earlier.push(elapsed),
            Err(_) => earlier,
        }
    }
}

/// The reasons of the failed requests, in the order of the outcomes.
pub open spec fn failures(outcomes: Seq<Result<u128, String>>) -> Seq<String>
    decreases outcomes.len(),
{
    if outcomes.len() == 0 {
        Seq::empty()
    } else {
        let earlier = failures(outcomes.drop_last());
        match outcomes.last() {
            Ok(_) => earlier,
            Err(reason) => earlier.push(reason),
        }
    }
}

/// The sum of the elapsed times, as a mathematical integer.
pub open spec fn total(times: Seq<u128>) -> int
    decreases times.len(),
{
    if times.len() == 0 {
        0
    } else {
        total(times.drop_last()) + times.last()
    }
}

/// `least` occurs in `times` and nothing in `times` is below it.
pub open spec fn is_minimum(times: Seq<u128>, least: u128) -> bool {
    &&& times.contains(least)
    &&& forall|i: int| 0 <= i < times.len() ==> least <= times[i]
}

/// `greatest` occurs in `times` and nothing in `times` is above it.
pub open spec fn is_maximum(times: Seq<u128>, greatest: u128) -> bool {
    &&& times.contains(greatest)
    &&& forall|i: int| 0 <= i < times.len() ==> times[i] <= greatest
}

impl Stats {
    /// `self` is the summary of the elapsed times `times`: the count, the
    /// sum divided by the count and rounded down, the least and the
    /// greatest time, and the median.
    pub open spec fn summarizes(self, times: Seq<u128>) -> bool {
        &&& times.len() > 0
        &&& self.success_count == times.len()
        &&& self.avg_time == total(times) / (times.len() as int)
        &&& is_minimum(times, self.min_time)
        &&& is_maximum(times, self.max_time)
        &&& self.median_time == median_of(times)
    }

    /// The median and the average lie between the least and the greatest time.
    pub open spec fn is_ordered(self) -> bool {
        &&& self.min_time <= self.median_time <= self.max_time
        &&& self.min_time <= self.avg_time <= self.max_time
    }
}

/// `summary` is what a run with these outcomes comes to: the summary of
/// its elapsed times, or `NoData` where no request completed.
pub open spec fn is_summary_of(
    summary: Result<Stats, StatsError>,
    outcomes: Seq<Result<u128, String>>,
) -> bool {
    match summary {
        Ok(stats) => stats.summarizes(successes(outcomes)),
        Err(StatsError::NoData) => successes(outcomes).len() == 0,
    }
}

/// Adding one more time to the end adds it to the total.
proof fn lemma_total_take_next(times: Seq<u128>, i: int)
    requires
        0 <= i < times.len(),
    ensures
        total(times.take(i + 1)) == total(times.take(i)) + times[i],
{
    assert(times.take(i + 1).drop_last() =~= times.take(i));
}

/// The total lies between the count times any lower bound of the elements
/// and the count times any upper bound.
proof fn lemma_total_bounds(times: Seq<u128>, low: int, high: int)
    requires
        forall|i: int| #![trigger times[i]] 0 <= i < times.len() ==> low <= times[i] && times[i] <= high,
    ensures
        times.len() * low <= total(times) <= times.len() * high,
    decreases times.len(),
{
    if times.len() > 0 {
        let earlier = times.drop_last();
        lemma_total_bounds(earlier, low, high);
        let n = earlier.len() as int;
        assert((n + 1) * low == n * low + low) by (nonlinear_arith);
        assert((n + 1) * high == n * high + high) by (nonlinear_arith);
    }
}

/// The sum of `times` divided by their count, rounded down. The sum itself
/// may exceed any machine integer, so the quotients and the remainders of
/// the single times are added up instead.
pub fn average(times: &Vec<u128>) -> (avg: u128)
    requires
        times.len() > 0,
    ensures
        avg == total(times@) / (times.len() as int),
{
    let count: u128 = times.len() as u128;
    let mut quotients: u128 = 0;
    let mut remainders: u128 = 0;
    let mut i: usize = 0;
    while i < times.len()
        invariant
            i <= times.len(),
            count == times.len(),
            count > 0,
            total(times@.take(i as int)) == quotients * count + remainders,
            total(times@.take(i as int)) <= i * u128::MAX,
            remainders <= i * (count - 1),
        decreases times.len() - i,
    {
        let time: u128 = times[i];
        proof {
            let c = count as int;
            let q = quotients as int;
            let r = remainders as int;
            let t = time as int;
            let n = i as int;
            lemma_total_take_next(times@, n);
            vstd::arithmetic::div_mod::lemma_fundamental_div_mod(t, c);
            assert((q + t / c) * c + (r + t % c) == q * c + r + (c * (t / c) + t % c))
                by (nonlinear_arith);
            assert((n + 1) * u128::MAX == n * u128::MAX + u128::MAX) by (nonlinear_arith);
            assert((n + 1) * (c - 1) == n * (c - 1) + (c - 1)) by (nonlinear_arith);
            assert(q + t / c <= u128::MAX) by (nonlinear_arith)
                requires
                    (q + t / c) * c + (r + t % c) <= (n + 1) * u128::MAX,
                    0 <= r + t % c,
                    n + 1 <= c,
                    0 < c,
            ;
            assert((n + 1) * (c - 1) <= u128::MAX) by (nonlinear_arith)
                requires
                    0 <= n,
                    n + 1 <= c,
                    c <= 0xffff_ffff_ffff_ffff,
            ;
        }
        quotients = quotients + time / count;
        remainders = remainders + time % count;
        i = i + 1;
    }
    proof {
        let c = count as int;
        assert(times@.take(i as int) =~= times@);
        vstd::arithmetic::div_mod::lemma_hoist_over_denominator(
            remainders as int,
            quotients as int,
            c as nat,
        );
        assert(total(times@) / c <= u128::MAX) by (nonlinear_arith)
            requires
                total(times@) <= c * u128::MAX,
                0 < c,
        ;
    }
    quotients + remainders / count
}

/// The least of `times`.
pub fn minimum(times: &Vec<u128>) -> (least: u128)
    requires
        times.len() > 0,
    ensures
        is_minimum(times@, least),
{
    let mut at: usize = 0;
    let mut i: usize = 1;
    while i < times.len()
        invariant
            at < i <= times.len(),
            forall|k: int| 0 <= k < i ==> times[at as int] <= times[k],
        decreases times.len() - i,
    {
        if times[i] < times[at] {
            at = i;
        }
        i = i + 1;
    }
    assert(times@[at as int] == times[at as int]);
    times[at]
}

/// The greatest of `times`.
pub fn maximum(times: &Vec<u128>) -> (greatest: u128)
    requires
        times.len() > 0,
    ensures
        is_maximum(times@, greatest),
{
    let mut at: usize = 0;
    let mut i: usize = 1;
    while i < times.len()
        invariant
            at < i <= times.len(),
            forall|k: int| 0 <= k < i ==> times[k] <= times[at as int],
        decreases times.len() - i,
    {
        if times[i] > times[at] {
            at = i;
        }
        i = i + 1;
    }
    assert(times@[at as int] == times[at as int]);
    times[at]
}

/// Picks the elapsed times of the completed requests out of the outcomes.
pub fn elapsed_times(results: &Vec<Result<u128, String>>) -> (times: Vec<u128>)
    ensures
        times@ == successes(results@),
{
    let mut times: Vec<u128> = Vec::new();
    let mut i: usize = 0;
    while i < results.len()
        invariant
            i <= results.len(),
            times@ == successes(results@.take(i as int)),
        decreases results.len() - i,
    {
        proof {
            assert(results@.take(i + 1).drop_last() =~= results@.take(i as int));
        }
        match &results[i] {
            Ok(elapsed) => {
                times.push(*elapsed);
            },
            Err(_) => {},
        }
        i = i + 1;
    }
    proof {
        assert(results@.take(i as int) =~= results@);
    }
    times
}

/// Picks the reasons of the failed requests out of the outcomes, for the
/// caller to report; they take no part in the statistics.
pub fn failure_reasons(results: &Vec<Result<u128, String>>) -> (reasons: Vec<String>)
    ensures
        reasons@ == failures(results@),
{
    let mut reasons: Vec<String> = Vec::new();
    let mut i: usize = 0;
    while i < results.len()
        invariant
            i <= results.len(),
            reasons@ == failures(results@.take(i as int)),
        decreases results.len() - i,
    {
        proof {
            assert(results@.take(i + 1).drop_last() =~= results@.take(i as int));
        }
        match &results[i] {
            Ok(_) => {},
            Err(reason) => {
                reasons.push(reason.clone());
            },
        }
        i = i + 1;
    }
    proof {
        assert(results@.take(i as int) =~= results@);
    }
    reasons
}

/// Summarises the outcomes of a run. Failed requests are left out of every
/// number. A run in which no request completed has no summary.
pub fn calc_stats(results: Vec<Result<u128, String>>) -> (summary: Result<Stats, StatsError>)
    ensures
        is_summary_of(summary, results@),
        summary matches Ok(stats) ==> stats.is_ordered(),
{
    let times = elapsed_times(&results);
    if times.len() == 0 {
        return Err(StatsError::NoData);
    }
    let success_count: usize = times.len();
    let avg_time: u128 = average(&times);
    let min_time: u128 = minimum(&times);
    let max_time: u128 = maximum(&times);
    let median_time: u128 = median(times);
    let stats = Stats { avg_time, median_time, min_time, max_time, success_count };
    proof {
        lemma_summary_is_ordered(stats, successes(results@));
    }
    Ok(stats)
}

/// Every outcome is either a success or a failure: the elapsed times and
/// the reasons together are as many as the outcomes.
pub proof fn lemma_outcomes_are_counted(outcomes: Seq<Result<u128, String>>)
    ensures
        successes(outcomes).len() + failures(outcomes).len() == outcomes.len(),
    decreases outcomes.len(),
{
    if outcomes.len() > 0 {
        lemma_outcomes_are_counted(outcomes.drop_last());
    }
}

/// The median of `times` is one of them.
proof fn lemma_median_is_member(times: Seq<u128>)
    requires
        times.len() > 0,
    ensures
        times.contains(median_of(times)),
{
    let arranged = sorted_times(times);
    times.lemma_sort_by_ensures(ascending());
    to_multiset_len(times);
    to_multiset_len(arranged);
    assert(arranged.contains(arranged[times.len() as int / 2]));
}

/// In every summary the median and the average lie between the least and
/// the greatest time.
pub proof fn lemma_summary_is_ordered(stats: Stats, times: Seq<u128>)
    requires
        stats.summarizes(times),
    ensures
        stats.is_ordered(),
{
    let count = times.len() as int;
    let low = stats.min_time as int;
    let high = stats.max_time as int;
    lemma_median_is_member(times);
    let at = choose|i: int| 0 <= i < times.len() && times[i] == median_of(times);
    assert(low <= times[at] <= high);
    lemma_total_bounds(times, low, high);
    assert(low <= total(times) / count <= high) by (nonlinear_arith)
        requires
            count * low <= total(times) <= count * high,
            0 < count,
    ;
}

/// The elapsed times of two runs whose outcomes differ only in order
/// differ only in order too.
proof fn lemma_successes_of_permutation(
    first: Seq<Result<u128, String>>,
    second: Seq<Result<u128, String>>,
)
    requires
        first.to_multiset() == second.to_multiset(),
    ensures
        successes(first).to_multiset() == successes(second).to_multiset(),
{
    assert forall|elapsed: u128|
        successes(first).to_multiset().count(elapsed) == successes(second).to_multiset().count(
            elapsed,
        ) by {
        lemma_successes_count(first, elapsed);
        lemma_successes_count(second, elapsed);
    }
    assert(successes(first).to_multiset() =~= successes(second).to_multiset());
}

/// An elapsed time occurs among the successes as often as its `Ok` occurs
/// among the outcomes.
proof fn lemma_successes_count(outcomes: Seq<Result<u128, String>>, elapsed: u128)
    ensures
        successes(outcomes).to_multiset().count(elapsed) == outcomes.to_multiset().count(
            Ok(elapsed),
        ),
    decreases outcomes.len(),
{
    broadcast use vstd::multiset::group_multiset_axioms;

    if outcomes.len() == 0 {
        assert(outcomes.to_multiset().len() == 0) by {
            to_multiset_len(outcomes);
        }
        assert(successes(outcomes).to_multiset().len() == 0) by {
            to_multiset_len(successes(outcomes));
        }
    } else {
        let earlier = outcomes.drop_last();
        lemma_successes_count(earlier, elapsed);
        assert(earlier.push(outcomes.last()) =~= outcomes);
        to_multiset_build(earlier, outcomes.last());
        match outcomes.last() {
            Ok(other) => {
                to_multiset_build(successes(earlier), other);
            },
            Err(_) => {},
        }
    }
}

/// The total does not depend on the order of the times.
proof fn lemma_total_of_permutation(first: Seq<u128>, second: Seq<u128>)
    requires
        first.to_multiset() == second.to_multiset(),
    ensures
        total(first) == total(second),
{
    let plus = |sum: int, time: u128| sum + time;
    lemma_total_is_fold(first, plus);
    lemma_total_is_fold(second, plus);
    lemma_fold_left_permutation(first, second, plus, 0int);
}

/// The total is the left fold of addition over the times.
proof fn lemma_total_is_fold(times: Seq<u128>, plus: spec_fn(int, u128) -> int)
    requires
        forall|sum: int, time: u128| #[trigger] plus(sum, time) == sum + time,
    ensures
        total(times) == times.fold_left(0int, plus),
    decreases times.len(),
{
    if times.len() > 0 {
        lemma_total_is_fold(times.drop_last(), plus);
    }
}

/// The summary does not depend on the order of the outcomes: two runs with
/// the same outcomes, in whatever order, have the same summary.
pub proof fn lemma_summary_ignores_order(
    first: Seq<Result<u128, String>>,
    second: Seq<Result<u128, String>>,
    summary_of_first: Result<Stats, StatsError>,
    summary_of_second: Result<Stats, StatsError>,
)
    requires
        first.to_multiset() == second.to_multiset(),
        is_summary_of(summary_of_first, first),
        is_summary_of(summary_of_second, second),
    ensures
        summary_of_first == summary_of_second,
{
    let a = successes(first);
    let b = successes(second);
    lemma_successes_of_permutation(first, second);
    to_multiset_len(a);
    to_multiset_len(b);
    if a.len() > 0 {
        let x = summary_of_first->Ok_0;
        let y = summary_of_second->Ok_0;
        lemma_total_of_permutation(a, b);
        to_multiset_contains(a, x.min_time);
        to_multiset_contains(b, x.min_time);
        to_multiset_contains(a, y.min_time);
        to_multiset_contains(b, y.min_time);
        to_multiset_contains(a, x.max_time);
        to_multiset_contains(b, x.max_time);
        to_multiset_contains(a, y.max_time);
        to_multiset_contains(b, y.max_time);
        let i = choose|i: int| 0 <= i < b.len() && b[i] == x.min_time;
        let j = choose|j: int| 0 <= j < a.len() && a[j] == y.min_time;
        assert(y.min_time <= b[i] && x.min_time <= a[j]);
        let k = choose|k: int| 0 <= k < b.len() && b[k] == x.max_time;
        let l = choose|l: int| 0 <= l < a.len() && a[l] == y.max_time;
        assert(b[k] <= y.max_time && a[l] <= x.max_time);
        a.lemma_sort_by_ensures(ascending());
        lemma_sorted_times_unique(b, sorted_times(a));
        assert(x == y);
    } else {
        // `NoData` is the only error there is.
        assert(summary_of_first->Err_0 == StatsError::NoData);
        assert(summary_of_second->Err_0 == StatsError::NoData);
    }
}

/// The report of a summary: an empty line, then one line each for the
/// count, the average, the median, the least and the greatest time.
pub open spec fn report_text(stats: Stats) -> Seq<char> {
    "\nSuccessfully completed "@ + decimal_text(stats.success_count as nat)
        + " requests\nAvg response time: "@ + decimal_text(stats.avg_time as nat)
        + "ms\nMedian response time: "@ + decimal_text(stats.median_time as nat)
        + "ms\nMin response time: "@ + decimal_text(stats.min_time as nat)
        + "ms\nMax response time: "@ + decimal_text(stats.max_time as nat) + "ms\n"@
}

/// What to tell the user when no request completed.
pub open spec fn no_data_text() -> Seq<char> {
    "No successful requests to summarize"@
}

impl Stats {
    /// Writes the report of this summary.
    pub fn report(&self) -> (text: String)
        ensures
            text@ == report_text(*self),
    {
        let count = to_decimal(self.success_count as u128);
        let avg = to_decimal(self.avg_time);
        let median = to_decimal(self.median_time);
        let min = to_decimal(self.min_time);
        let max = to_decimal(self.max_time);
        String::from_str("\nSuccessfully completed ").concat(count.as_str()).concat(
            " requests\nAvg response time: ",
        ).concat(avg.as_str()).concat("ms\nMedian response time: ").concat(
            median.as_str(),
        ).concat("ms\nMin response time: ").concat(min.as_str()).concat(
            "ms\nMax response time: ",
        ).concat(max.as_str()).concat("ms\n")
    }
}

impl StatsError {
    /// Says in words why there is no summary.
    pub fn message(&self) -> (text: String)
        ensures
            text@ == no_data_text(),
    {
        match self {
            StatsError::NoData => String::from_str("No successful requests to summarize"),
        }
    }
}

} // verus!
