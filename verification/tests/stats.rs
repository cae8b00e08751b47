use medusa::sorting::sort_times;
use medusa::stats::{
    average, calc_stats, elapsed_times, failure_reasons, maximum, median, minimum, Stats,
    StatsError,
};

#[test]
fn median_sort() {
    let v = vec![2, 1, 4, 3];
    assert_eq!(median(v), 3);
}

#[test]
fn median_odd() {
    let v = vec![0, 4, 123, 5, 8];
    assert_eq!(median(v), 5);
}

#[test]
fn calc() {
    let results = vec![
        Result::Ok(3),
        Result::Err("Error".to_owned()),
        Result::Ok(5),
        Result::Ok(7),
    ];
    let stats = calc_stats(results).unwrap();
    assert_eq!(stats.avg_time, 5);
    assert_eq!(stats.max_time, 7);
    assert_eq!(stats.min_time, 3);
    assert_eq!(stats.median_time, 5);
    assert_eq!(stats.success_count, 3);
}

#[test]
fn median_of_one() {
    assert_eq!(median(vec![42]), 42);
}

#[test]
fn median_of_two_is_upper() {
    assert_eq!(median(vec![10, 20]), 20);
    assert_eq!(median(vec![20, 10]), 20);
}

#[test]
fn median_with_repeats() {
    assert_eq!(median(vec![7, 7, 7, 7]), 7);
    assert_eq!(median(vec![1, 9, 1, 9, 1]), 1);
}

#[test]
fn sort_times_orders_ascending() {
    assert_eq!(sort_times(&vec![5, 3, 9, 1, 3, 0]), vec![0, 1, 3, 3, 5, 9]);
    assert_eq!(sort_times(&Vec::new()), Vec::<u128>::new());
    assert_eq!(sort_times(&vec![8]), vec![8]);
}

#[test]
fn sort_times_agrees_with_std_sort() {
    let mut seed: u64 = 0x9e37_79b9_7f4a_7c15;
    for len in 0..40usize {
        let mut times: Vec<u128> = Vec::new();
        for _ in 0..len {
            seed = seed.wrapping_mul(6364136223846793005).wrapping_add(1442695040888963407);
            times.push(u128::from(seed >> 56));
        }
        let mut expected = times.clone();
        expected.sort();
        assert_eq!(sort_times(&times), expected);
    }
}

#[test]
fn average_rounds_down() {
    assert_eq!(average(&vec![1, 2]), 1);
    assert_eq!(average(&vec![3, 5, 7]), 5);
    assert_eq!(average(&vec![0, 0, 1]), 0);
    assert_eq!(average(&vec![10]), 10);
    assert_eq!(average(&vec![1, 1, 1, 2]), 1);
    assert_eq!(average(&vec![7, 8, 9, 10]), 8);
}

#[test]
fn average_of_huge_times_does_not_overflow() {
    assert_eq!(average(&vec![u128::MAX, u128::MAX]), u128::MAX);
    assert_eq!(average(&vec![u128::MAX, u128::MAX - 1]), u128::MAX - 1);
    assert_eq!(average(&vec![u128::MAX, 0]), u128::MAX / 2);
    assert_eq!(average(&vec![u128::MAX, 1, 1]), u128::MAX / 3);
    assert_eq!(average(&vec![u128::MAX, 1, 2]), u128::MAX / 3 + 1);
}

#[test]
fn minimum_and_maximum() {
    let times = vec![4, 2, 9, 2, 9, 5];
    assert_eq!(minimum(&times), 2);
    assert_eq!(maximum(&times), 9);
    assert_eq!(minimum(&vec![6]), 6);
    assert_eq!(maximum(&vec![6]), 6);
}

#[test]
fn outcomes_are_partitioned_in_order() {
    let results: Vec<Result<u128, String>> = vec![
        Err("first".to_owned()),
        Ok(9),
        Ok(2),
        Err("second".to_owned()),
        Ok(4),
    ];
    assert_eq!(elapsed_times(&results), vec![9, 2, 4]);
    assert_eq!(failure_reasons(&results), vec!["first".to_owned(), "second".to_owned()]);
    assert_eq!(elapsed_times(&results).len() + failure_reasons(&results).len(), results.len());
}

#[test]
fn mixed_outcomes_are_summarised() {
    let results = vec![Ok(3), Err("x".to_owned()), Ok(5), Ok(7)];
    assert_eq!(
        calc_stats(results),
        Ok(Stats { avg_time: 5, median_time: 5, min_time: 3, max_time: 7, success_count: 3 })
    );
}

#[test]
fn no_successful_outcome_is_no_data() {
    assert_eq!(calc_stats(Vec::new()), Err(StatsError::NoData));
    let failed = vec![Err("refused".to_owned()), Err("timed out".to_owned())];
    assert_eq!(calc_stats(failed), Err(StatsError::NoData));
    assert_eq!(StatsError::NoData.message(), "No successful requests to summarize");
}

#[test]
fn single_success_is_its_own_summary() {
    assert_eq!(
        calc_stats(vec![Ok(17)]),
        Ok(Stats { avg_time: 17, median_time: 17, min_time: 17, max_time: 17, success_count: 1 })
    );
}

#[test]
fn summary_is_ordered() {
    let runs: Vec<Vec<u128>> = vec![
        vec![1],
        vec![2, 1, 4, 3],
        vec![0, 4, 123, 5, 8],
        vec![100, 1, 1, 1],
        vec![u128::MAX, 0, 5],
    ];
    for times in runs {
        let results: Vec<Result<u128, String>> = times.iter().map(|t| Ok(*t)).collect();
        let stats = calc_stats(results).unwrap();
        assert!(stats.min_time <= stats.median_time && stats.median_time <= stats.max_time);
        assert!(stats.min_time <= stats.avg_time && stats.avg_time <= stats.max_time);
    }
}

#[test]
fn summary_ignores_order() {
    let a = vec![Ok(3), Err("x".to_owned()), Ok(5), Ok(7), Ok(1)];
    let b = vec![Ok(7), Ok(1), Ok(5), Err("x".to_owned()), Ok(3)];
    let c = vec![Err("x".to_owned()), Ok(1), Ok(3), Ok(5), Ok(7)];
    let first = calc_stats(a);
    assert_eq!(first, calc_stats(b));
    assert_eq!(first, calc_stats(c));
    assert_eq!(
        first,
        Ok(Stats { avg_time: 4, median_time: 5, min_time: 1, max_time: 7, success_count: 4 })
    );
}

#[test]
fn report_lists_every_number() {
    let stats =
        Stats { avg_time: 5, median_time: 6, min_time: 3, max_time: 70, success_count: 12 };
    assert_eq!(
        stats.report(),
        "\nSuccessfully completed 12 requests\nAvg response time: 5ms\nMedian response time: 6ms\nMin response time: 3ms\nMax response time: 70ms\n"
    );
}
