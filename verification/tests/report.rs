use mainnet_replay::execution::TransactionRun;
use mainnet_replay::fixture::{Fixture, FixtureInstruction};
use mainnet_replay::replay::Replay;
use mainnet_replay::report::{
    cut_to_64_bits, describe_result, failure_lines, report, report_replay,
};

fn fixture() -> Fixture {
    Fixture {
        name: "memo_v2".to_string(),
        signature: "5sig".to_string(),
        slot: 3,
        compute_units_consumed: Some(450),
        trimmed_instructions: None,
        recent_blockhash: None,
        instructions: vec![FixtureInstruction {
            program_id: "p".to_string(),
            accounts: vec![],
            data: String::new(),
        }],
        accounts: vec![],
        programs: vec![],
        native_programs: vec![],
    }
}

fn run(result: Result<(), String>, logs: &[&str]) -> TransactionRun {
    TransactionRun {
        elapsed: 12,
        compute_units: 440,
        result,
        logs: logs.iter().map(|log| log.to_string()).collect(),
    }
}

#[test]
fn a_report_holds_everything() {
    let result = report(&fixture(), 5, 3, 99, &run(Ok(()), &["a"]), &vec![30, 10, 21]);
    assert_eq!(result.fixture, "memo_v2");
    assert_eq!(result.signature, "5sig");
    assert_eq!(result.instructions, 1);
    assert_eq!(result.warmup, 5);
    assert_eq!(result.iterations, 3);
    assert_eq!(result.load_ns, 99);
    assert_eq!(result.cu, 440);
    assert_eq!(result.mainnet_cu, Some(450));
    assert_eq!(result.trimmed_instructions, None);
    assert_eq!(result.ns_min, 10);
    assert_eq!(result.ns_median, 21);
    assert_eq!(result.ns_mean, 20);
    assert_eq!(result.result, "ok");
}

#[test]
fn a_failure_stands_in_the_report() {
    let failed = run(Err("Custom(6000)".to_string()), &[]);
    let result = report(&fixture(), 0, 1, 0, &failed, &vec![1]);
    assert_eq!(result.result, "error: Custom(6000)");
    assert_eq!(describe_result(&Ok(())), "ok");
    assert_eq!(describe_result(&Err("ok".to_string())), "error: ok");
}

#[test]
fn times_are_cut_to_64_bits() {
    assert_eq!(cut_to_64_bits(u64::MAX as u128), u64::MAX);
    assert_eq!(cut_to_64_bits(1 << 64), 0);
    assert_eq!(cut_to_64_bits((3 << 64) + 5), 5);
    let result = report(&fixture(), 0, 1, (1 << 64) + 2, &run(Ok(()), &[]), &vec![(1 << 64) + 7]);
    assert_eq!(result.load_ns, 2);
    assert_eq!(result.ns_min, 7);
    assert_eq!(result.ns_median, 7);
    assert_eq!(result.ns_mean, 7);
}

#[test]
fn a_failure_comes_with_the_last_four_logs() {
    let failed = run(Err("Custom(1)".to_string()), &["1", "2", "3", "4", "5", "6"]);
    assert_eq!(
        failure_lines("memo_v2", &failed),
        vec![
            "  memo_v2 failed: Custom(1)",
            "    log: 3",
            "    log: 4",
            "    log: 5",
            "    log: 6"
        ]
    );
    let short = run(Err("E".to_string()), &["1", "2"]);
    assert_eq!(failure_lines("x", &short), vec!["  x failed: E", "    log: 1", "    log: 2"]);
    let four = run(Err("E".to_string()), &["1", "2", "3", "4"]);
    assert_eq!(failure_lines("x", &four).len(), 5);
    let silent = run(Err("E".to_string()), &[]);
    assert_eq!(failure_lines("x", &silent), vec!["  x failed: E"]);
}

#[test]
fn nothing_is_said_of_success() {
    assert!(failure_lines("x", &run(Ok(()), &["1", "2", "3", "4", "5"])).is_empty());
}

#[test]
fn a_finished_benchmark_is_reported_with_its_own_runs() {
    let timed = |elapsed: u128, compute_units: u64| TransactionRun {
        elapsed,
        compute_units,
        result: if compute_units == 1 { Err("E".to_string()) } else { Ok(()) },
        logs: vec![],
    };
    let mut replay = Replay::start(2, 3);
    for (elapsed, compute_units) in [(900, 1), (800, 2), (700, 3), (30, 4), (10, 5), (23, 6)] {
        replay.record(timed(elapsed, compute_units));
    }
    let result = report_replay(&fixture(), &replay, 77);
    assert_eq!((result.warmup, result.iterations), (2, 3));
    assert_eq!(replay.warmup(), 2);
    assert_eq!(replay.iterations(), 3);
    assert_eq!(result.load_ns, 77);
    assert_eq!(result.cu, 1);
    assert_eq!(result.result, "error: E");
    assert_eq!((result.ns_min, result.ns_median, result.ns_mean), (10, 23, 21));
    assert_eq!(result.fixture, "memo_v2");
}
