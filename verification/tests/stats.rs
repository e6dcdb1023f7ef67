use cube_timer::stats::average_of;
use cube_timer::stats::best_of;
use cube_timer::stats::best_present_of;
use cube_timer::stats::compute_stats;
use cube_timer::stats::mean_of;
use cube_timer::stats::LONG_WINDOW;
use cube_timer::stats::SHORT_WINDOW;

const SECOND: u64 = 1_000_000_000;

fn seconds(values: &[u64]) -> Vec<u64> {
    values.iter().map(|v| v * SECOND).collect()
}

#[test]
fn windows_are_five_and_twelve() {
    assert_eq!(SHORT_WINDOW, 5);
    assert_eq!(LONG_WINDOW, 12);
}

#[test]
fn average_of_five_drops_one_best_and_one_worst() {
    let times = seconds(&[10, 12, 9, 11, 100]);
    assert_eq!(average_of(&times, 5), Some(11 * SECOND));
}

#[test]
fn average_is_undefined_below_the_window() {
    let times = seconds(&[10, 12, 9, 11]);
    assert_eq!(average_of(&times, 5), None);
    assert_eq!(average_of(&Vec::new(), 5), None);
    assert_eq!(average_of(&seconds(&[1, 2, 3, 4, 5, 6, 7, 8, 9, 10, 11]), 12), None);
}

#[test]
fn average_is_defined_from_the_full_window_on() {
    let times = seconds(&[1, 2, 3, 4, 5, 6, 7, 8, 9, 10, 11, 12]);
    assert_eq!(average_of(&times, 12), Some(6_500_000_000));
    assert_eq!(average_of(&times, 5), Some(10 * SECOND));
}

#[test]
fn average_reads_the_most_recent_times_only() {
    let times = seconds(&[1000, 1, 10, 12, 9, 11, 100]);
    assert_eq!(average_of(&times, 5), Some(11 * SECOND));
}

#[test]
fn average_drops_a_single_occurrence_of_equal_extremes() {
    assert_eq!(average_of(&vec![1, 1, 1, 9, 9], 5), Some(3));
    assert_eq!(average_of(&vec![5, 5, 5, 5, 5], 5), Some(5));
    assert_eq!(average_of(&vec![2, 2, 8, 8, 8], 5), Some(6));
}

#[test]
fn average_rounds_down_to_a_whole_nanosecond() {
    assert_eq!(average_of(&vec![0, 1, 1, 2, 9], 5), Some(1));
    assert_eq!(average_of(&vec![0, 1, 2, 2, 9], 5), Some(1));
    assert_eq!(average_of(&vec![0, 2, 2, 2, 9], 5), Some(2));
}

#[test]
fn average_of_the_largest_times_does_not_overflow() {
    let times = vec![u64::MAX; 12];
    assert_eq!(average_of(&times, 12), Some(u64::MAX));
    assert_eq!(average_of(&times, 5), Some(u64::MAX));
}

#[test]
fn average_of_a_window_too_small_to_trim_is_undefined() {
    let times = seconds(&[1, 2, 3]);
    assert_eq!(average_of(&times, 0), None);
    assert_eq!(average_of(&times, 1), None);
    assert_eq!(average_of(&times, 2), None);
    assert_eq!(average_of(&times, 3), Some(2 * SECOND));
}

#[test]
fn compute_stats_counts_the_new_time_as_most_recent() {
    let prior = seconds(&[10, 12, 9, 11]);
    assert_eq!(compute_stats(&prior, 100 * SECOND), (Some(11 * SECOND), None));
}

#[test]
fn compute_stats_below_both_windows() {
    assert_eq!(compute_stats(&Vec::new(), SECOND), (None, None));
    assert_eq!(compute_stats(&seconds(&[1, 2, 3]), SECOND), (None, None));
}

#[test]
fn compute_stats_with_both_windows_full() {
    let prior = seconds(&[50, 1, 2, 3, 4, 5, 6, 7, 8, 9, 10, 11]);
    let (ao5, ao12) = compute_stats(&prior, 12 * SECOND);
    assert_eq!(ao5, Some(10 * SECOND));
    assert_eq!(ao12, Some(6_500_000_000));
}

#[test]
fn compute_stats_is_the_same_on_a_tail_of_the_history() {
    let all = seconds(&[7, 3, 50, 1, 2, 3, 4, 5, 6, 7, 8, 9, 10, 11]);
    let tail = all[all.len() - 11..].to_vec();
    assert_eq!(compute_stats(&all, 12 * SECOND), compute_stats(&tail, 12 * SECOND));
}

#[test]
fn best_is_the_smallest_time() {
    assert_eq!(best_of(&Vec::new()), None);
    assert_eq!(best_of(&seconds(&[10, 12, 9, 11, 100])), Some(9 * SECOND));
    assert_eq!(best_of(&vec![4]), Some(4));
}

#[test]
fn best_never_gets_worse_with_more_times() {
    let all = seconds(&[10, 12, 9, 11, 100, 8, 30]);
    let mut so_far: Vec<u64> = Vec::new();
    let mut last: Option<u64> = None;
    for t in all {
        so_far.push(t);
        let now = best_of(&so_far).unwrap();
        if let Some(before) = last {
            assert!(now <= before);
        }
        last = Some(now);
    }
    assert_eq!(last, Some(8 * SECOND));
}

#[test]
fn best_present_skips_absent_values() {
    assert_eq!(best_present_of(&Vec::new()), None);
    assert_eq!(best_present_of(&vec![None, None]), None);
    assert_eq!(best_present_of(&vec![None, Some(7), None, Some(3), Some(5)]), Some(3));
}

#[test]
fn mean_is_the_plain_mean_rounded_down() {
    assert_eq!(mean_of(&Vec::new()), None);
    assert_eq!(mean_of(&vec![1, 2]), Some(1));
    assert_eq!(mean_of(&seconds(&[10, 12, 9, 11, 100])), Some(28_400_000_000));
    assert_eq!(mean_of(&vec![u64::MAX, u64::MAX, u64::MAX]), Some(u64::MAX));
}
