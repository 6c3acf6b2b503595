use mainnet_replay::execution::TransactionRun;
use mainnet_replay::replay::{Phase, Replay};
use mainnet_replay::stats::{checked_total, summarize};

fn run(elapsed: u128) -> TransactionRun {
    TransactionRun {
        elapsed,
        compute_units: elapsed as u64 * 10,
        result: Ok(()),
        logs: vec![format!("run {elapsed}")],
    }
}

#[test]
fn runs_go_from_check_over_warmup_to_samples() {
    let mut replay = Replay::start(2, 3);
    assert!(replay.verified().is_none());
    let mut phases = vec![];
    for elapsed in 1.. {
        phases.push(replay.phase());
        if matches!(replay.phase(), Phase::Finished) {
            break;
        }
        replay.record(run(elapsed));
    }
    assert_eq!(phases.len(), 7);
    assert!(matches!(phases[0], Phase::Verify));
    assert!(matches!(phases[1], Phase::Warmup));
    assert!(matches!(phases[2], Phase::Warmup));
    assert!(matches!(phases[3], Phase::Sample));
    assert!(matches!(phases[4], Phase::Sample));
    assert!(matches!(phases[5], Phase::Sample));
    assert!(matches!(phases[6], Phase::Finished));
    let verified = replay.verified().unwrap();
    assert_eq!(verified.elapsed, 1);
    assert_eq!(verified.compute_units, 10);
    assert_eq!(verified.logs, vec!["run 1".to_string()]);
    assert_eq!(replay.samples(), &vec![4, 5, 6]);
    replay.record(run(9));
    assert_eq!(replay.samples(), &vec![4, 5, 6]);
}

#[test]
fn a_benchmark_of_nothing_still_checks() {
    let mut replay = Replay::start(0, 0);
    assert!(matches!(replay.phase(), Phase::Verify));
    replay.record(run(1));
    assert!(matches!(replay.phase(), Phase::Finished));
    assert!(replay.samples().is_empty());
}

#[test]
fn without_warmup_the_second_run_is_timed() {
    let mut replay = Replay::start(0, 1);
    replay.record(run(1));
    assert!(matches!(replay.phase(), Phase::Sample));
    replay.record(run(2));
    assert_eq!(replay.samples(), &vec![2]);
    assert!(matches!(replay.phase(), Phase::Finished));
}

#[test]
fn a_summary_gives_least_median_and_mean() {
    let odd = summarize(&vec![9, 1, 5]);
    assert_eq!((odd.least, odd.median, odd.mean), (1, 5, 5));
    let even = summarize(&vec![8, 2, 4, 6]);
    assert_eq!((even.least, even.median, even.mean), (2, 6, 5));
    let rounded = summarize(&vec![1, 2, 2]);
    assert_eq!((rounded.least, rounded.median, rounded.mean), (1, 2, 1));
    let single = summarize(&vec![7]);
    assert_eq!((single.least, single.median, single.mean), (7, 7, 7));
}

#[test]
fn the_order_of_samples_does_not_matter() {
    let one = summarize(&vec![3, 1, 2, 2]);
    let other = summarize(&vec![2, 2, 1, 3]);
    assert_eq!((one.least, one.median, one.mean), (1, 2, 2));
    assert_eq!((other.least, other.median, other.mean), (1, 2, 2));
}

#[test]
fn a_total_that_does_not_fit_is_none() {
    assert_eq!(checked_total(&vec![]), Some(0));
    assert_eq!(checked_total(&vec![1, 2, 3]), Some(6));
    assert_eq!(checked_total(&vec![u128::MAX - 1, 1]), Some(u128::MAX));
    assert_eq!(checked_total(&vec![u128::MAX, 1]), None);
}
