use autorize::cli::backfill::report;
use autorize::cli::clean::{chores, is_under, not_found as clean_not_found, tidy, Found, Tidy};
use autorize::cli::init::{check_name, scaffold};
use autorize::cli::resume::{self, ResumeArgs};
use autorize::cli::run::{
    apply_fresh_reset, apply_score_to_best, best_of, best_words, check_clean, check_repo,
    final_summary, find_record, first_state, next_iter_number, not_found, own_prefixes,
    parse_merge_subject, progress_line, recent_slice, reconcile_in_progress, record_killed,
    replay_existing_record, run, should_stop, start, synthesize_merged_record, tracking_branch,
    RunArgs, Start, Stop,
};
use autorize::cli::status::{format_summary, not_started, status_lines, step_name};
use autorize::cli::tell::{guidance, taken};
use autorize::cli::{dispatch, Cli, Command, Job};
use autorize::config::{
    Agent, AgentStdin, Boundaries, Config, Direction, Experiment, FailMode, Iteration, Objective,
    ParseSpec, Schedule, Setup, Summarize, Teardown,
};
use autorize::env_map::EnvMap;
use autorize::error::Error;
use autorize::experiment::ExperimentPaths;
use autorize::lock::{held, lock_text};
use autorize::schedule::Deadline;
use autorize::score::Score;
use autorize::storage::{CurrentStep, IterationRecord, Outcome, StateSnapshot};
use autorize::time::{Duration, Timestamp};
use autorize::worktree::{Git, GitReply, WorktreeEntry};
use chrono::{TimeZone, Utc};

fn sc(v: f64) -> Score {
    Score { bits: v.to_bits() }
}

fn moment(h: u32, mi: u32) -> Timestamp {
    let t = Utc.with_ymd_and_hms(2026, 5, 20, h, mi, 0).unwrap();
    Timestamp::from_unix(t.timestamp(), 0)
}

fn make_config(total_budget: Duration, max_iterations: u64) -> Config {
    Config {
        experiment: Experiment {
            name: "test".to_string(),
            description: String::new(),
        },
        objective: Objective {
            command: "bash score.sh".to_string(),
            direction: Direction::Min,
            parse: ParseSpec::Float,
            timeout: Duration::from_secs(30),
            fail_mode: FailMode::Invalid,
        },
        boundaries: Boundaries::default(),
        setup: Setup::default(),
        teardown: Teardown::default(),
        iteration: Iteration {
            budget: Duration::from_secs(30),
            max_iterations,
            keep_worktrees: false,
            max_consecutive_noops: 5,
        },
        schedule: Schedule {
            total_budget: Some(total_budget),
            deadline: None,
        },
        agent: Agent {
            command: "true".to_string(),
            workdir_var: "AUTORIZE_WORKDIR".to_string(),
            env: EnvMap::new(),
            stdin: AgentStdin::Prompt,
        },
        summarize: Summarize::default(),
    }
}

fn seed_state(base_commit: &str, iter_in_progress: Option<u64>, completed: u64) -> StateSnapshot {
    StateSnapshot {
        experiment: "test".to_string(),
        branch: "autorize/test".to_string(),
        base_commit: base_commit.to_string(),
        iter_in_progress,
        current_step: if iter_in_progress.is_some() {
            CurrentStep::InvokeAgent
        } else {
            CurrentStep::Idle
        },
        best_score: None,
        best_iter: None,
        started_at: moment(8, 0),
        deadline: moment(9, 0),
        iterations_completed: completed,
        run_iterations_completed: completed,
        consecutive_noops: 0,
    }
}

fn rec(iter: u64, outcome: Outcome, score: Option<f64>) -> IterationRecord {
    IterationRecord {
        iter,
        started_at: moment(8, 0),
        ended_at: moment(8, 1),
        outcome,
        score: score.map(sc),
        best_so_far: score.map(sc),
        agent_exit: Some(0),
        agent_killed_by_budget: false,
        diff_lines: 4,
        notes: String::new(),
        summary: String::new(),
    }
}

fn porcelain(text: &str) -> GitReply {
    GitReply {
        success: true,
        stdout: text.to_string(),
        stderr: String::new(),
    }
}

#[test]
fn refuses_dirty_repo() {
    let git = Git::new("/repo".to_string());
    let clean = git.is_clean_excluding(&own_prefixes(), &porcelain("?? stray.txt\n")).unwrap();
    let err = check_clean(clean).unwrap_err();
    assert!(err.message().contains("uncommitted"), "got: {}", err.message());
}

#[test]
fn tolerates_dirty_autorize_dir() {
    let git = Git::new("/repo".to_string());
    let clean = git
        .is_clean_excluding(&own_prefixes(), &porcelain("?? .autorize/test/scratch.txt\n"))
        .unwrap();
    check_clean(clean).unwrap();
}

#[test]
fn refuses_to_run_outside_a_repository() {
    check_repo(true).unwrap();
    let err = check_repo(false).unwrap_err();
    assert!(err.message().contains("git"), "got: {}", err.message());
}

#[test]
fn refuses_unreachable_base_commit() {
    let state = seed_state("0000000000000000000000000000000000000000", None, 0);
    let err = start("test", &Some(state), false, false, false).unwrap_err();
    assert!(err.message().contains("unreachable"), "got: {}", err.message());
}

#[test]
fn refuses_in_progress_without_resume() {
    let state = seed_state("abc", Some(3), 2);
    let err = start("test", &Some(state), true, false, false).unwrap_err();
    assert!(err.message().contains("resume"), "got: {}", err.message());
}

#[test]
fn fresh_on_in_progress_still_errors() {
    let state = seed_state("abc", Some(3), 2);
    let err = start("test", &Some(state), true, false, true).unwrap_err();
    assert!(err.message().contains("resume"), "got: {}", err.message());
}

#[test]
fn fresh_on_never_run_behaves_like_first_run() {
    assert_eq!(start("test", &None, false, false, true).unwrap(), Start::Create);
    assert_eq!(start("test", &None, false, false, false).unwrap(), Start::Create);
}

#[test]
fn resume_with_no_state_errors() {
    let err = start("test", &None, false, true, false).unwrap_err();
    assert!(err.message().contains("state.json"), "got: {}", err.message());
}

#[test]
fn checkpoints_are_continued() {
    let idle = seed_state("abc", None, 2);
    assert_eq!(
        start("test", &Some(idle), true, false, true).unwrap(),
        Start::Continue { recover: false, fresh: true }
    );
    let cut = seed_state("abc", Some(3), 2);
    assert_eq!(
        start("test", &Some(cut), true, true, false).unwrap(),
        Start::Continue { recover: true, fresh: false }
    );
}

#[test]
fn first_checkpoints_are_blank() {
    let s = first_state(
        "test".to_string(),
        tracking_branch("test"),
        "abc".to_string(),
        Deadline(moment(9, 0)),
        moment(8, 0),
    );
    assert_eq!(s.branch, "autorize/test");
    assert_eq!(s.iterations_completed, 0);
    assert_eq!(s.deadline, moment(9, 0));
    assert_eq!(s.current_step, CurrentStep::Idle);
    assert!(s.best_score.is_none() && s.iter_in_progress.is_none());
}

#[test]
fn held_locks_are_told_with_their_holder() {
    let err = held("/e/run.lock", Some("4711\n".to_string()), "EWOULDBLOCK");
    assert!(err.message().contains("lock"), "got: {}", err.message());
    assert_eq!(
        err.message(),
        "experiment lock /e/run.lock is held (held by pid 4711) [EWOULDBLOCK]"
    );
}

#[test]
fn held_locks_without_a_holder_are_told() {
    let msg = held("/e/run.lock", None, "EAGAIN").message();
    assert!(msg.contains("lock"), "got: {msg}");
    assert_eq!(
        held("/e/run.lock", Some("junk".to_string()), "EAGAIN").message(),
        "experiment lock /e/run.lock is held [EAGAIN]"
    );
}

#[test]
fn lock_files_name_their_holder() {
    assert_eq!(lock_text(4711), "4711\n");
    let err = held("p", Some(lock_text(4711)), "E");
    assert!(err.message().contains("pid 4711"), "got: {}", err.message());
}

#[test]
fn parse_merge_subject_matches_with_expected_iter() {
    let got = parse_merge_subject("autorize iter 7: score 0.123456", 7);
    assert_eq!(got, Some(sc(0.123456)));
}

#[test]
fn parse_merge_subject_rejects_mismatched_iter() {
    assert!(parse_merge_subject("autorize iter 7: score 0.5", 8).is_none());
    assert!(parse_merge_subject("autorize iter 77: score 0.5", 7).is_none());
}

#[test]
fn parse_merge_subject_rejects_unrelated_subjects() {
    for s in [
        "iter 1: score 0.5",
        "autorize iter 1 score 0.5",
        "autorize: iter 1: score 0.5",
        "fix: something",
        "",
        "autorize iter 1: score not-a-number",
    ] {
        assert!(parse_merge_subject(s, 1).is_none(), "should reject {s:?}");
    }
}

#[test]
fn parse_merge_subject_round_trips_sentinel_floats() {
    for sentinel in [f64::MAX, f64::MIN] {
        let subj = format!("autorize iter 1: score {sentinel}");
        let got = parse_merge_subject(&subj, 1)
            .unwrap_or_else(|| panic!("failed to parse {subj:?}"));
        assert_eq!(got, sc(sentinel));
    }
}

#[test]
fn merge_subjects_may_have_white_space_around() {
    assert_eq!(parse_merge_subject(" autorize iter 3: score -2e3\n", 3), Some(sc(-2000.0)));
    assert!(parse_merge_subject("autorize iter 3: score 1 2", 3).is_none());
}

#[test]
fn respects_max_iterations() {
    let cfg = make_config(Duration::from_secs(60), 2);
    let mut state = seed_state("abc", None, 1);
    assert_eq!(should_stop(&state, &cfg, moment(8, 30)), None);
    state.run_iterations_completed = 2;
    assert_eq!(should_stop(&state, &cfg, moment(8, 30)), Some(Stop::MaxIterations));
    let unbounded = make_config(Duration::from_secs(60), 0);
    assert_eq!(should_stop(&state, &unbounded, moment(8, 30)), None);
}

#[test]
fn runs_stop_at_the_deadline_and_after_noops() {
    let cfg = make_config(Duration::from_secs(60), 0);
    let mut state = seed_state("abc", None, 1);
    assert_eq!(should_stop(&state, &cfg, moment(9, 0)), Some(Stop::Deadline));
    state.consecutive_noops = 5;
    assert_eq!(should_stop(&state, &cfg, moment(8, 30)), Some(Stop::MaxConsecutiveNoops));
    state.consecutive_noops = 4;
    assert_eq!(should_stop(&state, &cfg, moment(8, 30)), None);
}

#[test]
fn fresh_reruns_after_completion() {
    let cfg = make_config(Duration::from_secs(60), 2);
    let mut state = seed_state("abc", None, 2);
    let records = vec![rec(1, Outcome::Merged, Some(1.0)), rec(2, Outcome::Invalid, None)];
    assert_eq!(should_stop(&state, &cfg, moment(8, 30)), Some(Stop::MaxIterations));
    apply_fresh_reset(&mut state, &cfg.schedule, Deadline(moment(10, 0)), moment(8, 30)).unwrap();
    assert_eq!(should_stop(&state, &cfg, moment(8, 30)), None);
    assert_eq!(state.run_iterations_completed, 0, "per-run count reset on --fresh");
    assert_eq!(state.iterations_completed, 2, "lifetime count keeps climbing");
    assert_eq!(next_iter_number(&state, &records), 3);
}

#[test]
fn fresh_starts_keep_the_best_score() {
    let cfg = make_config(Duration::from_secs(60), 1);
    let mut state = seed_state("abc", None, 1);
    state.best_score = Some(sc(0.0016));
    state.best_iter = Some(1);
    apply_fresh_reset(&mut state, &cfg.schedule, Deadline(moment(10, 0)), moment(8, 30)).unwrap();
    assert_eq!(best_of(&state), Some((sc(0.0016), 1)));
    apply_score_to_best(&mut state, 2, sc(1.14), Direction::Min);
    assert_eq!(best_of(&state), Some((sc(0.0016), 1)));
    apply_score_to_best(&mut state, 3, sc(0.001), Direction::Min);
    assert_eq!(best_of(&state), Some((sc(0.001), 3)));
}

#[test]
fn fresh_recomputes_deadline_from_total_budget() {
    let cfg = make_config(Duration::from_secs(3600), 1);
    let mut state = seed_state("abc", None, 1);
    apply_fresh_reset(&mut state, &cfg.schedule, Deadline(moment(9, 30)), moment(8, 30)).unwrap();
    assert_eq!(state.deadline, moment(9, 30));
    assert_eq!(state.started_at, moment(8, 30));
}

#[test]
fn fresh_errors_on_expired_absolute_deadline() {
    let sched = Schedule {
        total_budget: None,
        deadline: Some("2020-01-01T00:00:00Z".to_string()),
    };
    let mut state = seed_state("abc", None, 0);
    let past = Deadline(Timestamp::from_unix(1_577_836_800, 0));
    let err = apply_fresh_reset(&mut state, &sched, past, moment(8, 30)).unwrap_err();
    assert!(err.message().contains("in the past"), "got: {}", err.message());
    assert_eq!(state.deadline, moment(9, 0), "a refused start changes nothing");
}

#[test]
fn numbers_go_on_past_everything_used() {
    let state = seed_state("abc", Some(9), 2);
    assert_eq!(next_iter_number(&state, &vec![rec(4, Outcome::Noop, None)]), 10);
    let idle = seed_state("abc", None, 6);
    assert_eq!(next_iter_number(&idle, &vec![]), 1);
    let fresh = seed_state("abc", None, 0);
    assert_eq!(
        next_iter_number(&fresh, &vec![rec(4, Outcome::Noop, None), rec(2, Outcome::Noop, None)]),
        5
    );
}

#[test]
fn recent_records_are_the_last_ones() {
    let records: Vec<IterationRecord> = (1..=4).map(|n| rec(n, Outcome::Noop, None)).collect();
    let seen: Vec<u64> = recent_slice(&records, 3).iter().map(|r| r.iter).collect();
    assert_eq!(seen, vec![2, 3, 4]);
    assert_eq!(recent_slice(&records, 9).len(), 4);
    assert!(recent_slice(&records, 0).is_empty());
}

#[test]
fn resume_records_killed_for_in_progress() {
    let mut state = seed_state("abc", Some(3), 2);
    state.best_score = Some(sc(0.5));
    let rec = reconcile_in_progress(&mut state, &vec![], "init", Direction::Min, moment(8, 30))
        .unwrap()
        .unwrap();
    assert_eq!(rec.iter, 3);
    assert_eq!(rec.outcome, Outcome::Killed);
    assert_eq!(rec.notes, "resumed after crash");
    assert_eq!(rec.best_so_far, Some(sc(0.5)));
    assert!(state.iter_in_progress.is_none());
    assert_eq!(state.iterations_completed, 3);
    assert_eq!(state.run_iterations_completed, 2, "a killed iteration takes no slot");
}

#[test]
fn resume_recovers_a_lost_merge() {
    let mut state = seed_state("abc", Some(3), 2);
    let rec = reconcile_in_progress(
        &mut state,
        &vec![rec(2, Outcome::Noop, None)],
        "autorize iter 3: score 0.25",
        Direction::Min,
        moment(8, 30),
    )
    .unwrap()
    .unwrap();
    assert_eq!(rec.outcome, Outcome::Merged);
    assert_eq!(rec.score, Some(sc(0.25)));
    assert_eq!(rec.notes, "reconciled from branch tip after crash");
    assert_eq!(best_of(&state), Some((sc(0.25), 3)));
    assert_eq!(state.run_iterations_completed, 3);
}

#[test]
fn resume_replays_a_written_record() {
    let mut state = seed_state("abc", Some(3), 2);
    let log = vec![rec(3, Outcome::Merged, Some(0.75))];
    let added = reconcile_in_progress(
        &mut state,
        &log,
        "autorize iter 3: score 0.75",
        Direction::Min,
        moment(8, 30),
    )
    .unwrap();
    assert!(added.is_none(), "the record is in the log already");
    assert_eq!(best_of(&state), Some((sc(0.75), 3)));
    assert_eq!(state.iterations_completed, 3);
}

#[test]
fn nothing_to_reconcile_is_an_error() {
    let mut state = seed_state("abc", None, 2);
    let err = reconcile_in_progress(&mut state, &vec![], "", Direction::Min, moment(8, 30))
        .unwrap_err();
    assert!(matches!(err, Error::Config(_)));
    assert_eq!(state.iterations_completed, 2);
}

#[test]
fn recovery_counts_one_iteration_each() {
    let mut state = seed_state("abc", Some(3), 2);
    state.consecutive_noops = 1;
    replay_existing_record(&mut state, &rec(3, Outcome::Noop, None), Direction::Min);
    assert_eq!((state.iterations_completed, state.consecutive_noops), (3, 2));
    let lost = synthesize_merged_record(&mut state, 4, sc(1.0), Direction::Max, moment(8, 30));
    assert_eq!(lost.best_so_far, Some(sc(1.0)));
    assert_eq!((state.iterations_completed, state.consecutive_noops), (4, 0));
    let killed = record_killed(&mut state, 5, moment(8, 31));
    assert_eq!(killed.started_at, moment(8, 31));
    assert_eq!((state.iterations_completed, state.run_iterations_completed), (5, 4));
}

#[test]
fn recovered_merges_tell_the_best_score() {
    let mut state = seed_state("abc", Some(3), 2);
    state.best_score = Some(sc(0.1));
    state.best_iter = Some(1);
    let worse = synthesize_merged_record(&mut state, 3, sc(0.5), Direction::Min, moment(8, 30));
    assert_eq!((worse.score, worse.best_so_far), (Some(sc(0.5)), Some(sc(0.1))));
    assert_eq!(best_of(&state), Some((sc(0.1), 1)));
    let better = synthesize_merged_record(&mut state, 4, sc(0.0625), Direction::Min, moment(8, 31));
    assert_eq!(better.best_so_far, Some(sc(0.0625)));
    assert_eq!(best_of(&state), Some((sc(0.0625), 4)));
}

#[test]
fn killed_iterations_end_the_noop_streak() {
    let mut state = seed_state("abc", Some(3), 2);
    state.consecutive_noops = 4;
    record_killed(&mut state, 3, moment(8, 30));
    assert_eq!(state.consecutive_noops, 0);
    let mut state = seed_state("abc", Some(3), 2);
    state.consecutive_noops = 4;
    let killed = reconcile_in_progress(&mut state, &vec![], "init", Direction::Max, moment(8, 30));
    assert_eq!(killed.unwrap().unwrap().outcome, Outcome::Killed);
    assert_eq!(state.consecutive_noops, 0);
}

#[test]
fn records_are_found_by_number() {
    let log = vec![rec(1, Outcome::Noop, None), rec(2, Outcome::Noop, None), rec(2, Outcome::Killed, None)];
    assert_eq!(find_record(&log, 2), Some(1));
    assert_eq!(find_record(&log, 3), None);
}

#[test]
fn progress_is_told_in_lines() {
    assert_eq!(
        progress_line(&rec(7, Outcome::Merged, Some(0.5)), Some(sc(0.5))),
        "iter 7: merged score=0.500000 best=0.500000"
    );
    assert_eq!(
        progress_line(&rec(8, Outcome::Noop, None), None),
        "iter 8: noop score=(none) best=(none)"
    );
    assert_eq!(best_words(Some(5), Some(sc(1.23456))), "iter 5, score 1.234560");
    assert_eq!(best_words(None, Some(sc(1.0))), "(none)");
    let mut state = seed_state("abc", None, 3);
    state.best_iter = Some(2);
    state.best_score = Some(sc(0.25));
    assert_eq!(
        final_summary(&state),
        "run complete: experiment=test iterations=3 best=iter 2, score 0.250000"
    );
}

#[test]
fn status_prints_no_iterations() {
    let state = seed_state("abc1234", None, 0);
    let out = format_summary(&state, &vec![], moment(8, 0));
    assert!(out.contains("iterations   0"), "got: {out}");
    assert!(out.contains("last outcome (none)"), "got: {out}");
    assert!(out.contains("best         (none)"), "got: {out}");
}

#[test]
fn status_prints_best() {
    let mut state = seed_state("abc1234", None, 0);
    state.best_iter = Some(5);
    state.best_score = Some(sc(1.23456));
    state.iterations_completed = 7;
    let records = vec![rec(7, Outcome::Merged, Some(2.5))];
    let out = format_summary(&state, &records, moment(8, 0));
    assert!(out.contains("iter 5"), "got: {out}");
    assert!(out.contains("1.234560"), "got: {out}");
    assert!(out.contains("last outcome merged"), "got: {out}");
}

#[test]
fn status_says_how_long_it_took_and_how_long_there_is() {
    let state = seed_state("abc1234", Some(4), 3);
    let out = format_summary(&state, &vec![], moment(8, 15));
    assert!(out.contains("elapsed      15m\n"), "got: {out}");
    assert!(out.contains("remaining    45m\n"), "got: {out}");
    assert!(out.ends_with("in progress  iter 4 at step InvokeAgent\n"), "got: {out}");
    assert_eq!(step_name(CurrentStep::CheckDeadline), "CheckDeadline");
    let late = format_summary(&state, &vec![], moment(10, 0));
    assert!(late.contains("remaining    0s\n"), "got: {late}");
    assert_eq!(
        status_lines(&seed_state("abc1234", None, 3), &vec![], "1s", "2s"),
        "experiment   test\nbranch       autorize/test\nbase_commit  abc1234\niterations   3\nnoop streak  0\nlast outcome (none)\nbest         (none)\nelapsed      1s\nremaining    2s\n"
    );
}

#[test]
fn status_tells_why_the_last_iteration_ended() {
    let state = seed_state("abc1234", None, 3);
    let mut last = rec(3, Outcome::Discarded, Some(2.5));
    last.notes = "regressed".to_string();
    let out = status_lines(&state, &vec![last.clone()], "1s", "2s");
    assert!(
        out.contains("last outcome discarded\nlast reason  regressed\nbest         (none)\n"),
        "got: {out}"
    );
    last.summary = "Tried a thing.".to_string();
    let out = status_lines(&state, &vec![last], "1s", "2s");
    assert!(
        out.contains("last reason  regressed\nlast summary Tried a thing.\nbest"),
        "got: {out}"
    );
}

#[test]
fn status_errors_when_state_missing() {
    let err = not_started("missing");
    assert!(err.message().contains("state.json"), "got: {}", err.message());
}

fn words(w: &[&str]) -> Vec<String> {
    w.iter().map(|s| s.to_string()).collect()
}

#[test]
fn tell_appends_with_in_progress_iter() {
    let state = seed_state("abc123", Some(7), 6);
    let got = guidance(
        &words(&["explore", "a", "spigot", "algorithm"]),
        &Some(state),
        moment(8, 0),
    )
    .unwrap();
    assert_eq!(got.text, "explore a spigot algorithm");
    assert_eq!(got.added_at_iter, Some(7));
    assert_eq!(got.ts, moment(8, 0));
}

#[test]
fn tell_uses_run_completed_when_idle() {
    let state = seed_state("abc123", None, 4);
    let got = guidance(&words(&["keep going"]), &Some(state), moment(8, 0)).unwrap();
    assert_eq!(got.added_at_iter, Some(4));
}

#[test]
fn tell_null_iter_when_no_state() {
    let got = guidance(&words(&["before the run starts"]), &None, moment(8, 0)).unwrap();
    assert_eq!(got.added_at_iter, None);
}

#[test]
fn tell_empty_message_errors() {
    let err = guidance(&words(&["   "]), &None, moment(8, 0)).unwrap_err();
    assert!(err.message().contains("empty"), "got: {}", err.message());
}

#[test]
fn tell_missing_experiment_errors() {
    let err = not_found("nope", "/repo/.autorize/nope");
    assert!(err.message().contains("not found"), "got: {}", err.message());
}

#[test]
fn backfill_missing_experiment_errors() {
    let err = not_found("nope", "/repo/.autorize/nope");
    assert!(err.message().contains("not found"), "got: {}", err.message());
}

#[test]
fn told_guidance_is_acknowledged() {
    assert_eq!(
        taken("pi", Some(3)),
        "recorded guidance for \"pi\" (run at iter 3); applies from the next iteration"
    );
    assert_eq!(taken("pi", None), "recorded guidance for \"pi\"; applies once the run starts");
}

#[test]
fn creates_files_in_fresh_dir() {
    let paths = ExperimentPaths::new("/repo".to_string(), "pi".to_string());
    check_name("pi").unwrap();
    let made = scaffold(&paths, false).unwrap();
    assert_eq!(made.root, "/repo/.autorize/pi");
    assert_eq!(made.config_path, "/repo/.autorize/pi/config.toml");
    assert_eq!(made.program_path, "/repo/.autorize/pi/program.md");
    assert!(made.config_text.contains("name = \"pi\""));
    assert!(made.program_text.contains("# pi"));
}

#[test]
fn refuses_existing_experiment_dir() {
    let paths = ExperimentPaths::new("/repo".to_string(), "pi".to_string());
    let err = scaffold(&paths, true).unwrap_err();
    assert!(matches!(err, Error::ExperimentExists { .. }), "got: {err:?}");
    assert_eq!(err.message(), "experiment \"pi\" already exists at /repo/.autorize/pi");
}

#[test]
fn refuses_bad_name() {
    let err = check_name("../etc").unwrap_err();
    assert!(matches!(err, Error::InvalidName(_)), "got: {err:?}");
    assert_eq!(
        err.message(),
        "invalid experiment name \"../etc\": must be [A-Za-z0-9_-]+"
    );
}

fn entry(path: &str, branch: Option<&str>) -> WorktreeEntry {
    WorktreeEntry {
        path: path.to_string(),
        head: "abc".to_string(),
        branch: branch.map(str::to_string),
    }
}

fn cleaned(remove: bool, path: &str, branch: Option<&str>, there: bool) -> Vec<Tidy> {
    tidy(
        remove,
        "autorize/test",
        &entry(path, branch),
        &if there { Some(path.to_string()) } else { None },
        &Some("/repo/.autorize/test".to_string()),
        &Some("/repo".to_string()),
    )
}

#[test]
fn clean_frees_branch_held_by_worktree() {
    let wt = "/repo/.autorize/test/iter-0001/wt";
    assert_eq!(cleaned(false, wt, Some("autorize/test"), true), vec![Tidy::Detach, Tidy::Unstage]);
    assert_eq!(cleaned(false, "/elsewhere", Some("autorize/test"), true), vec![Tidy::Detach]);
    assert_eq!(cleaned(false, "/repo", Some("autorize/test"), true), vec![]);
    assert_eq!(cleaned(false, "/elsewhere", Some("main"), true), vec![]);
}

#[test]
fn clean_unstages_kept_worktree() {
    assert_eq!(
        cleaned(false, "/repo/.autorize/test/iter-0002/wt", None, true),
        vec![Tidy::Unstage]
    );
}

#[test]
fn clean_prunes_dangling_registration() {
    assert_eq!(cleaned(true, "/repo/.autorize/test/iter-0003/wt", None, false), vec![]);
}

#[test]
fn clean_remove_worktrees_deletes_checkout_keeps_artifacts() {
    assert_eq!(
        cleaned(true, "/repo/.autorize/test/iter-0004/wt", Some("autorize/test"), true),
        vec![Tidy::Remove]
    );
    assert_eq!(cleaned(true, "/repo/.autorize/tester/wt", None, true), vec![]);
}

#[test]
fn clean_goes_through_all_worktrees_and_prunes_at_last() {
    let git = Git::new("/repo".to_string());
    let wt = "/repo/.autorize/test/iter-0001/wt";
    let found = vec![
        Found {
            entry: entry("/repo", Some("main")),
            place: Some("/repo".to_string()),
        },
        Found {
            entry: entry(wt, Some("autorize/test")),
            place: Some(wt.to_string()),
        },
        Found {
            entry: entry("/gone", None),
            place: None,
        },
    ];
    let done: Vec<String> = chores(
        &git,
        false,
        "autorize/test",
        &found,
        &Some("/repo/.autorize/test".to_string()),
        &Some("/repo".to_string()),
    )
    .iter()
    .map(|c| format!("{}$ git {}", c.call.cwd, c.call.args.join(" ")))
    .collect();
    assert_eq!(
        done,
        vec![
            format!("{wt}$ git checkout --detach"),
            format!("{wt}$ git reset"),
            "/repo$ git worktree prune".to_string(),
        ]
    );
}

#[test]
fn clean_errors_when_experiment_missing() {
    let err = clean_not_found("nope", "/repo/.autorize/nope");
    assert!(err.message().contains("not found"), "got: {}", err.message());
}

#[test]
fn paths_lie_under_their_directory() {
    assert!(is_under("/a", "/a"));
    assert!(is_under("/a/b", "/a"));
    assert!(is_under("/a/b", "/a/"));
    assert!(is_under("/a", "/"));
    assert!(!is_under("/ab", "/a"));
    assert!(!is_under("/", "/a"));
}

#[test]
fn backfills_are_reported() {
    let told: Vec<&str> = vec![report(false, false), report(true, false), report(true, true)];
    assert!(told.iter().all(|t| !t.is_empty()));
    assert_ne!(told[0], told[1]);
    assert_ne!(told[1], told[2]);
}

#[test]
fn commands_become_jobs() {
    let job = dispatch(Cli {
        command: Command::Run(RunArgs {
            name: "pi".to_string(),
            allow_dirty: true,
            fresh: true,
        }),
    });
    match job {
        Job::Loop(a) => {
            assert_eq!(a.name, "pi");
            assert!(a.allow_dirty && a.fresh && !a.recover_iter);
        }
        other => panic!("expected a loop, got {other:?}"),
    }
    let job = dispatch(Cli {
        command: Command::Resume(ResumeArgs {
            name: "pi".to_string(),
            allow_dirty: false,
        }),
    });
    match job {
        Job::Loop(a) => assert!(!a.allow_dirty && !a.fresh && a.recover_iter),
        other => panic!("expected a loop, got {other:?}"),
    }
}

#[test]
fn resuming_is_a_run_that_recovers() {
    let a = resume::run(ResumeArgs {
        name: "pi".to_string(),
        allow_dirty: true,
    });
    assert!(a.recover_iter && a.allow_dirty && !a.fresh);
    let b = run(RunArgs {
        name: "pi".to_string(),
        allow_dirty: false,
        fresh: false,
    });
    assert!(!b.recover_iter);
}
