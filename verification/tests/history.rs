use cube_timer::history::History;
use cube_timer::history::SolveRecord;

const S: u64 = 1_000_000_000;

fn filled(times: &[u64]) -> History {
    let mut history = History::new();
    for t in times {
        let mut record = SolveRecord::new(*t);
        record.gen_stats(&history);
        history.append(record);
    }
    history
}

#[test]
fn a_new_history_is_empty() {
    let history = History::new();
    assert_eq!(history.len(), 0);
    assert_eq!(history.get(0), None);
    assert!(history.records().is_empty());
    assert!(history.times().is_empty());
}

#[test]
fn a_new_record_has_no_averages() {
    assert_eq!(SolveRecord::new(7), SolveRecord { time: 7, ao5: None, ao12: None });
}

#[test]
fn the_first_record_has_no_averages() {
    let history = filled(&[1_234_000_000]);
    assert_eq!(history.len(), 1);
    assert_eq!(history.get(0), Some(SolveRecord { time: 1_234_000_000, ao5: None, ao12: None }));
    assert_eq!(history.get(1), None);
}

#[test]
fn gen_stats_keeps_the_time() {
    let history = filled(&[10 * S, 12 * S, 9 * S, 11 * S]);
    let mut record = SolveRecord::new(100 * S);
    record.gen_stats(&history);
    assert_eq!(record, SolveRecord { time: 100 * S, ao5: Some(11 * S), ao12: None });
}

#[test]
fn averages_appear_with_the_full_window() {
    let times: Vec<u64> = (1..=13).map(|i| i * S).collect();
    let history = filled(&times);
    for i in 0..13 {
        let record = history.get(i).unwrap();
        assert_eq!(record.time, times[i]);
        assert_eq!(record.ao5.is_some(), i + 1 >= 5);
        assert_eq!(record.ao12.is_some(), i + 1 >= 12);
    }
    assert_eq!(history.get(4).unwrap().ao5, Some(3 * S));
    assert_eq!(history.get(11).unwrap().ao12, Some(6_500_000_000));
    assert_eq!(history.get(12).unwrap().ao12, Some(7_500_000_000));
    assert_eq!(history.get(12).unwrap().ao5, Some(11 * S));
}

#[test]
fn appending_leaves_earlier_records_alone() {
    let times = [10 * S, 12 * S, 9 * S, 11 * S, 100 * S, 8 * S];
    let mut history = filled(&times);
    let before: Vec<SolveRecord> = history.records().clone();
    let mut record = SolveRecord::new(S);
    record.gen_stats(&history);
    history.append(record);
    assert_eq!(history.len(), before.len() + 1);
    assert_eq!(history.records()[..before.len()], before[..]);
    assert_eq!(history.get(before.len()), Some(record));
}

#[test]
fn times_come_back_in_order() {
    let times = [10 * S, 12 * S, 9 * S, 11 * S, 100 * S];
    let history = filled(&times);
    assert_eq!(history.times(), times.to_vec());
    assert_eq!(history.recent_times(2), vec![11 * S, 100 * S]);
    assert_eq!(history.recent_times(0), Vec::<u64>::new());
    assert_eq!(history.recent_times(9), times.to_vec());
}

#[test]
fn personal_bests_over_the_history() {
    let history = filled(&[10 * S, 12 * S, 9 * S, 11 * S, 100 * S, 8 * S, 10 * S]);
    assert_eq!(history.best_single(), Some(8 * S));
    assert_eq!(history.get(4).unwrap().ao5, Some(11 * S));
    assert_eq!(history.get(5).unwrap().ao5, Some(10_666_666_666));
    assert_eq!(history.get(6).unwrap().ao5, Some(10 * S));
    assert_eq!(history.best_ao5(), Some(10 * S));
    assert_eq!(history.best_ao12(), None);
}

#[test]
fn personal_bests_of_an_empty_history() {
    let history = History::new();
    assert_eq!(history.best_single(), None);
    assert_eq!(history.best_ao5(), None);
    assert_eq!(history.best_ao12(), None);
    assert_eq!(history.ao100(), None);
    assert_eq!(history.ao1k(), None);
    assert_eq!(history.rolling_average(), None);
}

#[test]
fn personal_bests_never_get_worse() {
    let times = [10 * S, 12 * S, 9 * S, 11 * S, 100 * S, 8 * S, 30 * S, 7 * S, 7 * S, 40 * S, 6 * S, 9 * S, 5 * S];
    let mut history = History::new();
    let mut single: Option<u64> = None;
    let mut ao5: Option<u64> = None;
    let mut ao12: Option<u64> = None;
    for t in times {
        let mut record = SolveRecord::new(t);
        record.gen_stats(&history);
        history.append(record);
        for (old, new) in [(single, history.best_single()), (ao5, history.best_ao5()), (ao12, history.best_ao12())] {
            if let Some(o) = old {
                assert!(new.unwrap() <= o);
            }
        }
        single = history.best_single();
        ao5 = history.best_ao5();
        ao12 = history.best_ao12();
    }
    assert_eq!(single, Some(5 * S));
    assert!(ao5.is_some());
    assert!(ao12.is_some());
}

#[test]
fn best_ao12_is_the_smallest_of_those_present() {
    let mut times: Vec<u64> = (1..=12).map(|i| i * S).collect();
    times.push(S);
    let history = filled(&times);
    assert_eq!(history.get(11).unwrap().ao12, Some(6_500_000_000));
    assert_eq!(history.get(12).unwrap().ao12, Some(6_500_000_000));
    assert_eq!(history.best_ao12(), Some(6_500_000_000));
}

#[test]
fn average_of_a_hundred_needs_a_hundred_solves() {
    let times: Vec<u64> = (1..=99).map(|i| i * S).collect();
    let mut history = filled(&times);
    assert_eq!(history.ao100(), None);
    let mut record = SolveRecord::new(100 * S);
    record.gen_stats(&history);
    history.append(record);
    assert_eq!(history.ao100(), Some(50_500_000_000));
    assert_eq!(history.ao1k(), None);
}

#[test]
fn average_of_a_thousand_reads_the_last_thousand() {
    let mut times: Vec<u64> = vec![999_999 * S];
    times.extend((1..=1000).map(|i| i * S));
    let history = filled(&times);
    assert_eq!(history.len(), 1001);
    assert_eq!(history.ao1k(), Some(500_500_000_000));
    assert_eq!(history.ao100(), Some(950_500_000_000));
}

#[test]
fn average_of_recent_matches_the_record() {
    let history = filled(&[10 * S, 12 * S, 9 * S, 11 * S, 100 * S]);
    assert_eq!(history.average_of_recent(5), history.get(4).unwrap().ao5);
    assert_eq!(history.average_of_recent(5), Some(11 * S));
    assert_eq!(history.average_of_recent(6), None);
    assert_eq!(history.average_of_recent(2), None);
}

#[test]
fn rolling_average_is_the_mean_of_all() {
    let history = filled(&[10 * S, 12 * S, 9 * S, 11 * S, 100 * S]);
    assert_eq!(history.rolling_average(), Some(28_400_000_000));
}
