use mainnet_replay::options::{
    is_value_flag, parse_args, set_option, usage, ArgumentError, Invocation, Options,
};
use mainnet_replay::text::{join_lines, joined, parse_count, same_text, CountError};

fn args(list: &[&str]) -> Vec<String> {
    list.iter().map(|arg| arg.to_string()).collect()
}

fn run(list: &[&str]) -> Options {
    match parse_args(&args(list)) {
        Ok(Invocation::Run(options)) => options,
        other => panic!("{other:?}"),
    }
}

fn refused(list: &[&str]) -> ArgumentError {
    match parse_args(&args(list)) {
        Err(error) => error,
        other => panic!("{other:?}"),
    }
}

#[test]
fn no_arguments_give_the_defaults() {
    let options = run(&[]);
    assert_eq!(options.fixtures, "../fixtures/data");
    assert_eq!(options.warmup, 5);
    assert_eq!(options.iterations, 100);
    assert_eq!(options.only, None);
    assert_eq!(options.json, None);
    assert!(!options.virtual_address_space_adjustments);
    let default = Options::default();
    assert_eq!(default.fixtures, "../fixtures/data");
    assert_eq!(default.iterations, 100);
}

#[test]
fn every_flag_sets_its_option() {
    let options = run(&[
        "--fixtures", "data", "--warmup", "0", "--iterations", "+10000", "--only", "memo_v2",
        "--json", "out.json", "--virtual-address-space-adjustments",
    ]);
    assert_eq!(options.fixtures, "data");
    assert_eq!(options.warmup, 0);
    assert_eq!(options.iterations, 10000);
    assert_eq!(options.only.as_deref(), Some("memo_v2"));
    assert_eq!(options.json.as_deref(), Some("out.json"));
    assert!(options.virtual_address_space_adjustments);
}

#[test]
fn a_flag_that_comes_again_replaces_what_it_said() {
    let options = run(&["--warmup", "1", "--only", "a", "--warmup", "2"]);
    assert_eq!(options.warmup, 2);
    assert_eq!(options.only.as_deref(), Some("a"));
}

#[test]
fn a_value_may_look_like_a_flag() {
    let options = run(&["--only", "--virtual-address-space-adjustments"]);
    assert_eq!(options.only.as_deref(), Some("--virtual-address-space-adjustments"));
    assert!(!options.virtual_address_space_adjustments);
}

#[test]
fn help_ends_the_reading() {
    assert!(matches!(parse_args(&args(&["--help"])), Ok(Invocation::Help)));
    assert!(matches!(parse_args(&args(&["--warmup", "3", "-h", "--bad"])), Ok(Invocation::Help)));
    assert!(matches!(parse_args(&args(&["--bad", "-h"])), Err(ArgumentError::Unknown(_))));
    assert_eq!(
        usage(),
        "usage: runner [--fixtures DIR] [--warmup N] [--iterations N] [--only NAME] [--json PATH]"
    );
}

#[test]
fn a_flag_without_its_value_is_refused() {
    for flag in ["--fixtures", "--warmup", "--iterations", "--only", "--json"] {
        let error = refused(&["--warmup", "1", flag]);
        assert!(matches!(&error, ArgumentError::MissingValue(name) if name == flag));
        assert_eq!(error.message(), format!("missing {flag} value"));
    }
}

#[test]
fn a_value_that_is_no_count_is_refused() {
    for value in [
        "", "-1", "+", "-", "ten", "1.5", "99999999999999999999999999",
        "99999999999999999999999999x", "1x99999999999999999999999999", "18446744073709551616",
        "1844674407370955161x", "18446744073709551615x", "\u{0661}",
    ] {
        let reason = value.parse::<usize>().unwrap_err();
        assert_eq!(
            refused(&["--warmup", value]).message(),
            format!("invalid --warmup: {reason:?}")
        );
        let error = refused(&["--iterations", value, "--help"]);
        assert!(matches!(&error, ArgumentError::InvalidValue(name, _) if name == "--iterations"));
    }
    assert_eq!(
        refused(&["--warmup", "x"]).message(),
        "invalid --warmup: ParseIntError { kind: InvalidDigit }"
    );
}

#[test]
fn an_unknown_argument_is_refused() {
    assert_eq!(refused(&["--fixture", "x"]).message(), "unknown argument --fixture");
    assert_eq!(refused(&["--warmup", "1", "extra"]).message(), "unknown argument extra");
}

#[test]
fn arguments_can_be_read_in_two_parts() {
    let first = run(&["--warmup", "7"]);
    let second = match set_option(first, "--iterations", "9") {
        Ok(options) => options,
        Err(error) => panic!("{error:?}"),
    };
    let both = run(&["--warmup", "7", "--iterations", "9"]);
    assert_eq!(second.warmup, both.warmup);
    assert_eq!(second.iterations, both.iterations);
    assert!(is_value_flag("--json"));
    assert!(!is_value_flag("--help"));
}

#[test]
fn counts_are_read_as_decimal_numbers() {
    assert!(matches!(parse_count("0"), Ok(0)));
    assert!(matches!(parse_count("007"), Ok(7)));
    assert!(matches!(parse_count("+42"), Ok(42)));
    assert!(matches!(parse_count("18446744073709551615"), Ok(18446744073709551615)));
    assert!(matches!(parse_count("18446744073709551616"), Err(CountError::PosOverflow)));
    assert!(matches!(parse_count("+"), Err(CountError::InvalidDigit)));
    assert!(matches!(parse_count(""), Err(CountError::Empty)));
    assert!(matches!(parse_count("++1"), Err(CountError::InvalidDigit)));
    assert!(matches!(parse_count(" 1"), Err(CountError::InvalidDigit)));
}

#[test]
fn lines_are_joined_without_a_trailing_break() {
    assert_eq!(join_lines(&args(&[])), "");
    assert_eq!(join_lines(&args(&["one"])), "one");
    assert_eq!(join_lines(&args(&["one", "", "three"])), "one\n\nthree");
    assert_eq!(joined("a", "b"), "ab");
    assert!(same_text("a", "a"));
    assert!(!same_text("a", "ab"));
}

#[test]
fn settings_of_different_flags_may_change_places() {
    let one = run(&[
        "--warmup", "1", "--only", "a", "--virtual-address-space-adjustments", "--warmup", "3",
        "--json", "x", "--fixtures", "d",
    ]);
    let other = run(&[
        "--virtual-address-space-adjustments", "--fixtures", "d", "--json", "x", "--warmup", "1",
        "--warmup", "3", "--only", "a",
    ]);
    for options in [one, other] {
        assert_eq!(options.fixtures, "d");
        assert_eq!(options.warmup, 3);
        assert_eq!(options.iterations, 100);
        assert_eq!(options.only.as_deref(), Some("a"));
        assert_eq!(options.json.as_deref(), Some("x"));
        assert!(options.virtual_address_space_adjustments);
    }
}
