use autorize::config::{Direction, FailMode, Objective, ParseSpec};
use autorize::error::Error;
use autorize::score::Score;
use autorize::scoring::{
    apply_fail_mode, describe_failure, parse_float, parse_jq, parse_regex, parse_score,
    rewrite_path, score, score_of_capture, score_of_selection, ScoreDecision, ScoreFailure,
    ScoreOutput,
};
use autorize::subproc::CommandOutput;
use autorize::time::Duration;

fn sc(v: f64) -> Score {
    Score { bits: v.to_bits() }
}

fn ended(stdout: &str, exit_code: Option<i32>, timed_out: bool) -> CommandOutput {
    CommandOutput {
        exit_code,
        signal: None,
        stdout: stdout.to_string(),
        stderr: String::new(),
        timed_out,
    }
}

fn obj(parse: ParseSpec, fail_mode: FailMode, direction: Direction) -> Objective {
    Objective {
        command: String::new(),
        direction,
        parse,
        timeout: Duration::from_secs(5),
        fail_mode,
    }
}

#[test]
fn parse_float_ok() {
    assert_eq!(parse_float("2.5").unwrap(), sc(2.5));
}

#[test]
fn parse_float_trims_whitespace() {
    assert_eq!(parse_float(" 2.5 \n").unwrap(), sc(2.5));
}

#[test]
fn parse_float_rejects_non_numeric() {
    let e = parse_float("hello").unwrap_err();
    assert!(matches!(e, ScoreFailure::Parse(_)));
}

#[test]
fn parse_float_rejects_nan() {
    let e = parse_float("NaN").unwrap_err();
    match e {
        ScoreFailure::Parse(m) => assert!(m.contains("non-finite"), "got: {m}"),
        _ => panic!("expected Parse"),
    }
}

#[test]
fn parse_float_rejects_inf() {
    for s in ["inf", "-inf", "+Infinity", "infinity", "-Infinity"] {
        let e = parse_float(s).unwrap_err();
        match e {
            ScoreFailure::Parse(m) => assert!(m.contains("non-finite"), "{s}: got: {m}"),
            _ => panic!("{s}: expected Parse"),
        }
    }
}

#[test]
fn parse_regex_ok() {
    assert_eq!(
        parse_regex("foo score=2.5 bar", "score=([0-9.]+)").unwrap(),
        sc(2.5)
    );
}

#[test]
fn parse_regex_no_match_err() {
    let e = parse_regex("nothing here", "score=([0-9.]+)").unwrap_err();
    assert!(matches!(e, ScoreFailure::Parse(_)));
}

#[test]
fn parse_regex_no_capture_group_err() {
    let e = parse_regex("score=2.5", "score=[0-9.]+").unwrap_err();
    match e {
        ScoreFailure::Parse(m) => assert!(m.contains("capture group"), "got: {m}"),
        _ => panic!("expected Parse"),
    }
}

#[test]
fn parse_regex_capture_not_number_err() {
    let e = parse_regex("score=abc", "score=([a-z]+)").unwrap_err();
    match e {
        ScoreFailure::Parse(m) => assert!(m.contains("not a float"), "got: {m}"),
        _ => panic!("expected Parse"),
    }
}

#[test]
fn parse_regex_rejects_nonfinite_capture() {
    let e = parse_regex("score=NaN", "score=(\\S+)").unwrap_err();
    match e {
        ScoreFailure::Parse(m) => assert!(m.contains("non-finite"), "got: {m}"),
        _ => panic!("expected Parse"),
    }
    let e = parse_regex("score=inf", "score=(\\S+)").unwrap_err();
    match e {
        ScoreFailure::Parse(m) => assert!(m.contains("non-finite"), "got: {m}"),
        _ => panic!("expected Parse"),
    }
}

#[test]
fn parse_jq_ok() {
    assert_eq!(
        parse_jq(r#"{"metrics":{"bpb":1.5}}"#, ".metrics.bpb").unwrap(),
        sc(1.5)
    );
}

#[test]
fn parse_jq_dollar_syntax_also_works() {
    assert_eq!(
        parse_jq(r#"{"metrics":{"bpb":1.5}}"#, "$.metrics.bpb").unwrap(),
        sc(1.5)
    );
}

#[test]
fn parse_jq_missing_field_err() {
    let e = parse_jq(r#"{"metrics":{}}"#, ".metrics.bpb").unwrap_err();
    match e {
        ScoreFailure::Parse(m) => assert!(m.contains("matched 0"), "got: {m}"),
        _ => panic!("expected Parse"),
    }
}

#[test]
fn parse_jq_not_a_number_err() {
    let e = parse_jq(r#"{"metrics":{"bpb":"hi"}}"#, ".metrics.bpb").unwrap_err();
    match e {
        ScoreFailure::Parse(m) => assert!(m.contains("not a number"), "got: {m}"),
        _ => panic!("expected Parse"),
    }
}

#[test]
fn parse_jq_invalid_json_err() {
    let e = parse_jq("not json", ".metrics.bpb").unwrap_err();
    match e {
        ScoreFailure::Parse(m) => assert!(m.contains("invalid json"), "got: {m}"),
        _ => panic!("expected Parse"),
    }
}

fn out_with(score: Option<f64>, failure: Option<ScoreFailure>) -> ScoreOutput {
    ScoreOutput {
        score: score.map(sc),
        failure,
        stdout: String::new(),
        stderr: String::new(),
        timed_out: false,
        exit_code: None,
    }
}

#[test]
fn apply_fail_mode_passes_through_on_success() {
    let o_invalid = obj(ParseSpec::Float, FailMode::Invalid, Direction::Min);
    let o_worst = obj(ParseSpec::Float, FailMode::Worst, Direction::Max);
    let o_abort = obj(ParseSpec::Float, FailMode::Abort, Direction::Min);
    let so = out_with(Some(3.0), None);
    assert!(matches!(apply_fail_mode(&so, &o_invalid), ScoreDecision::Use(v) if v == sc(3.0)));
    assert!(matches!(apply_fail_mode(&so, &o_worst), ScoreDecision::Use(v) if v == sc(3.0)));
    assert!(matches!(apply_fail_mode(&so, &o_abort), ScoreDecision::Use(v) if v == sc(3.0)));
}

#[test]
fn apply_fail_mode_invalid_discards() {
    let o = obj(ParseSpec::Float, FailMode::Invalid, Direction::Min);
    let so = out_with(None, Some(ScoreFailure::Timeout));
    assert!(matches!(apply_fail_mode(&so, &o), ScoreDecision::Discard));
}

#[test]
fn apply_fail_mode_worst_min_returns_f64_max() {
    let o = obj(ParseSpec::Float, FailMode::Worst, Direction::Min);
    let so = out_with(None, Some(ScoreFailure::Exit(1)));
    let d = apply_fail_mode(&so, &o);
    match d {
        ScoreDecision::Use(v) => {
            assert_eq!(v, sc(f64::MAX));
            assert!(v.is_finite(), "must be finite to survive JSON: {v:?}");
        }
        _ => panic!("expected Use"),
    }
}

#[test]
fn apply_fail_mode_worst_max_returns_f64_min() {
    let o = obj(ParseSpec::Float, FailMode::Worst, Direction::Max);
    let so = out_with(None, Some(ScoreFailure::Exit(1)));
    let d = apply_fail_mode(&so, &o);
    match d {
        ScoreDecision::Use(v) => {
            assert_eq!(v, sc(f64::MIN));
            assert!(v.is_finite(), "must be finite to survive JSON: {v:?}");
        }
        _ => panic!("expected Use"),
    }
}

#[test]
fn describe_failure_renders_each_variant() {
    assert_eq!(describe_failure(&ScoreFailure::Exit(3)), "exit code 3");
    assert_eq!(describe_failure(&ScoreFailure::Timeout), "timed out");
    assert_eq!(describe_failure(&ScoreFailure::Signal), "killed by signal");
    assert_eq!(
        describe_failure(&ScoreFailure::Spawn("boom".into())),
        "spawn: boom"
    );
    assert_eq!(
        describe_failure(&ScoreFailure::Parse("nope".into())),
        "parse: nope"
    );
}

#[test]
fn apply_fail_mode_abort_aborts() {
    let o = obj(ParseSpec::Float, FailMode::Abort, Direction::Min);
    let so = out_with(None, Some(ScoreFailure::Parse("bad".into())));
    match apply_fail_mode(&so, &o) {
        ScoreDecision::Abort(r) => assert!(r.contains("parse"), "got {r}"),
        _ => panic!("expected Abort"),
    }
}

#[test]
fn score_runs_command_and_parses_float() {
    let mut o = obj(ParseSpec::Float, FailMode::Invalid, Direction::Min);
    o.command = "echo 2.5".to_string();
    let out = score(Ok(ended("2.5\n", Some(0), false)), &o).unwrap();
    assert_eq!(out.score, Some(sc(2.5)));
    assert!(out.failure.is_none());
    assert_eq!(out.exit_code, Some(0));
    assert!(!out.timed_out);
}

#[test]
fn score_reports_nonzero_exit_failure() {
    let mut o = obj(ParseSpec::Float, FailMode::Invalid, Direction::Min);
    o.command = "echo 1.5; exit 1".to_string();
    let out = score(Ok(ended("1.5\n", Some(1), false)), &o).unwrap();
    assert_eq!(out.score, None);
    assert_eq!(out.exit_code, Some(1));
    assert!(matches!(out.failure, Some(ScoreFailure::Exit(1))));
    assert!(!out.timed_out);
}

#[test]
fn score_timeout_kills_and_reports() {
    let mut o = obj(ParseSpec::Float, FailMode::Invalid, Direction::Min);
    o.command = "sleep 5".to_string();
    o.timeout = Duration::from_millis(200);
    let out = score(Ok(ended("", None, true)), &o).unwrap();
    assert!(out.timed_out, "expected timed_out, got {out:?}");
    assert_eq!(out.score, None);
    assert!(matches!(out.failure, Some(ScoreFailure::Timeout)));
}

#[test]
fn score_captures_large_stdout() {
    let mut o = obj(
        ParseSpec::Regex {
            pattern: r"score=([0-9.]+)".to_string(),
        },
        FailMode::Invalid,
        Direction::Min,
    );
    o.command = "yes x | head -c 262144; echo; echo score=2.5".to_string();
    let text = format!("{}\nscore=2.5\n", "x\n".repeat(131072));
    let out = score(Ok(ended(&text, Some(0), false)), &o).unwrap();
    assert_eq!(out.exit_code, Some(0));
    assert!(!out.timed_out);
    assert_eq!(out.score, Some(sc(2.5)));
    assert!(out.stdout.len() >= 262144);
}

#[test]
fn score_of_a_signalled_command_is_a_signal_failure() {
    let o = obj(ParseSpec::Float, FailMode::Invalid, Direction::Min);
    let out = score(Ok(ended("2.5", None, false)), &o).unwrap();
    assert_eq!(out.score, None);
    assert!(matches!(out.failure, Some(ScoreFailure::Signal)));
}

#[test]
fn score_of_a_command_that_did_not_start() {
    let o = obj(ParseSpec::Float, FailMode::Invalid, Direction::Min);
    match score(Err(Error::Subproc("no shell".to_string())), &o) {
        Ok(out) => {
            assert_eq!(out.score, None);
            assert_eq!(out.exit_code, None);
            match out.failure {
                Some(ScoreFailure::Spawn(m)) => assert!(m.contains("no shell"), "got: {m}"),
                other => panic!("expected Spawn, got {other:?}"),
            }
        }
        Err(e) => panic!("expected an output, got {e:?}"),
    }
}

#[test]
fn score_passes_other_errors_on() {
    let o = obj(ParseSpec::Float, FailMode::Invalid, Direction::Min);
    match score(Err(Error::Io("disk".to_string())), &o) {
        Err(e) => assert!(e.message().contains("disk")),
        Ok(out) => panic!("expected an error, got {out:?}"),
    }
}

#[test]
fn score_keeps_the_output_of_an_unparsable_run() {
    let o = obj(ParseSpec::Float, FailMode::Invalid, Direction::Min);
    let out = score(Ok(ended("oops", Some(0), false)), &o).unwrap();
    assert_eq!(out.stdout, "oops");
    match out.failure {
        Some(ScoreFailure::Parse(m)) => {
            assert_eq!(m, "not a float: invalid float literal")
        }
        other => panic!("expected Parse, got {other:?}"),
    }
}

#[test]
fn parse_score_goes_by_the_spec() {
    assert_eq!(parse_score("7", &ParseSpec::Float).unwrap(), sc(7.0));
    let regex = ParseSpec::Regex {
        pattern: "n=(\\d+)".to_string(),
    };
    assert_eq!(parse_score("a n=12 n=13", &regex).unwrap(), sc(12.0));
    let jq = ParseSpec::Jq {
        path: ".a[1]".to_string(),
    };
    assert_eq!(parse_score("{\"a\":[1,-3e2]}", &jq).unwrap(), sc(-300.0));
}

#[test]
fn paths_are_rewritten_to_json_path() {
    assert_eq!(rewrite_path(".a.b"), "$.a.b");
    assert_eq!(rewrite_path("$.a.b"), "$.a.b");
    assert_eq!(rewrite_path("."), "$.");
    assert_eq!(rewrite_path("a.b"), "a.b");
    assert_eq!(rewrite_path(""), "");
}

#[test]
fn parse_jq_takes_the_whole_document() {
    assert_eq!(parse_jq(" 4.25 ", "$").unwrap(), sc(4.25));
    match parse_jq("{\"a\":[1,2]}", ".a[*]") {
        Err(ScoreFailure::Parse(m)) => assert!(m.contains("matched 2"), "got: {m}"),
        other => panic!("expected Parse, got {other:?}"),
    }
    match parse_jq("{}", ".a[") {
        Err(ScoreFailure::Parse(m)) => assert!(m.starts_with("bad jq path: "), "got: {m}"),
        other => panic!("expected Parse, got {other:?}"),
    }
}

#[test]
fn parse_regex_reports_a_bad_pattern() {
    match parse_regex("x", "(") {
        Err(ScoreFailure::Parse(m)) => assert!(m.starts_with("bad regex: "), "got: {m}"),
        other => panic!("expected Parse, got {other:?}"),
    }
}

#[test]
fn captures_are_trimmed_and_read() {
    assert_eq!(
        score_of_capture("p", Ok(Some(Some(" 1.5 ".to_string())))).unwrap(),
        sc(1.5)
    );
    assert!(matches!(score_of_capture("p", Ok(None)), Err(ScoreFailure::Parse(_))));
    assert!(matches!(score_of_capture("p", Ok(Some(None))), Err(ScoreFailure::Parse(_))));
    assert!(matches!(
        score_of_capture("p", Err("bad".to_string())),
        Err(ScoreFailure::Parse(_))
    ));
}

#[test]
fn selections_must_be_one_number() {
    let bits = 1.5f64.to_bits();
    assert_eq!(score_of_selection("p", Ok(Ok(vec![Some(bits)]))).unwrap(), sc(1.5));
    assert!(matches!(
        score_of_selection("p", Ok(Ok(vec![Some(bits), Some(bits)]))),
        Err(ScoreFailure::Parse(_))
    ));
    assert!(matches!(
        score_of_selection("p", Ok(Ok(vec![None]))),
        Err(ScoreFailure::Parse(_))
    ));
    match score_of_selection("p", Ok(Ok(vec![]))) {
        Err(ScoreFailure::Parse(m)) => {
            assert_eq!(m, "jq path \"p\" matched 0 values, expected 1")
        }
        other => panic!("expected Parse, got {other:?}"),
    }
}
