use autorize::cli::session::{Errand, News, RunInputs, Session, Stage};
use autorize::config::{
    Agent, AgentStdin, Boundaries, Config, Direction, Experiment, FailMode, Iteration, Objective,
    ParseSpec, Schedule, Setup, Summarize, Teardown,
};
use autorize::env_map::EnvMap;
use autorize::error::Error;
use autorize::experiment::ExperimentPaths;
use autorize::iteration::{
    backfill_prompt, checkpoint, fill_summary, merge_message, missing_summaries, needs_summary,
    read_summary, settle, summarizer_invocation, Attempt, Deed, Harvest, IterationInputs, Phase,
};
use autorize::schedule::Deadline;
use autorize::score::Score;
use autorize::storage::{CurrentStep, GuidanceEntry, IterationRecord, Outcome, StateSnapshot};
use autorize::subproc::{CommandOutput, Invocation};
use autorize::time::{Duration, Timestamp};
use autorize::worktree::{Git, GitCall, GitReply};

fn sc(v: f64) -> Score {
    Score { bits: v.to_bits() }
}

fn number(s: Score) -> f64 {
    f64::from_bits(s.bits)
}

fn make_config(
    agent_cmd: &str,
    objective_cmd: &str,
    fail_mode: FailMode,
    deny_paths: Vec<String>,
    keep_worktrees: bool,
) -> Config {
    Config {
        experiment: Experiment {
            name: "test".to_string(),
            description: String::new(),
        },
        objective: Objective {
            command: objective_cmd.to_string(),
            direction: Direction::Min,
            parse: ParseSpec::Float,
            timeout: Duration::from_secs(30),
            fail_mode,
        },
        boundaries: Boundaries {
            allow_paths: vec![],
            deny_paths,
        },
        setup: Setup::default(),
        teardown: Teardown::default(),
        iteration: Iteration {
            budget: Duration::from_secs(30),
            max_iterations: 0,
            keep_worktrees,
            max_consecutive_noops: 5,
        },
        schedule: Schedule {
            total_budget: Some(Duration::from_secs(3600)),
            deadline: None,
        },
        agent: Agent {
            command: agent_cmd.to_string(),
            workdir_var: "AUTORIZE_WORKDIR".to_string(),
            env: EnvMap::new(),
            stdin: AgentStdin::Prompt,
        },
        summarize: Summarize::default(),
    }
}

fn init_state() -> StateSnapshot {
    StateSnapshot {
        experiment: "test".to_string(),
        branch: "autorize/test".to_string(),
        base_commit: String::new(),
        iter_in_progress: None,
        current_step: CurrentStep::Idle,
        best_score: None,
        best_iter: None,
        started_at: Timestamp::from_unix(1_000, 0),
        deadline: Timestamp::from_unix(4_600, 0),
        iterations_completed: 0,
        run_iterations_completed: 0,
        consecutive_noops: 0,
    }
}

fn ended(stdout: &str, code: i32) -> CommandOutput {
    CommandOutput {
        exit_code: Some(code),
        signal: None,
        stdout: stdout.to_string(),
        stderr: String::new(),
        timed_out: false,
    }
}

/// A repository and a shell as an iteration sees them.
struct World {
    /// The files that the agent leaves changed.
    changed: Vec<String>,
    /// What the objective command prints, and its exit code.
    objective: (String, i32),
    /// What the summarizing agent prints.
    summary: String,
    tip: String,
    staged: bool,
    commands: Vec<String>,
    runs: Vec<Invocation>,
    files: Vec<(String, String)>,
    steps: Vec<CurrentStep>,
}

impl World {
    fn new(changed: &[&str], printed: &str, code: i32) -> World {
        World {
            changed: changed.iter().map(|s| s.to_string()).collect(),
            objective: (printed.to_string(), code),
            summary: String::new(),
            tip: "base".to_string(),
            staged: false,
            commands: vec![],
            runs: vec![],
            files: vec![],
            steps: vec![],
        }
    }

    fn git(&mut self, call: &GitCall) -> GitReply {
        let words: Vec<&str> = call.args.iter().map(String::as_str).collect();
        self.commands.push(call.args.join(" "));
        let stdout = match words.as_slice() {
            ["add", "-A"] => {
                self.staged = true;
                String::new()
            }
            ["reset"] => {
                self.staged = false;
                String::new()
            }
            ["diff", "--name-only", _] => {
                assert!(self.staged);
                self.changed.iter().map(|p| format!("{p}\n")).collect()
            }
            ["diff", _] => self.changed.iter().map(|p| format!("+++ b/{p}\n")).collect(),
            ["rev-parse", "HEAD"] => "commit-1\n".to_string(),
            ["rev-parse", "--is-inside-work-tree"] => "true\n".to_string(),
            ["update-ref", name, sha] => {
                assert_eq!(*name, "refs/heads/autorize/test");
                self.tip = sha.to_string();
                String::new()
            }
            _ => String::new(),
        };
        GitReply {
            success: true,
            stdout,
            stderr: String::new(),
        }
    }

    fn run(&mut self, run: Invocation, cfg: &Config) -> CommandOutput {
        let command = run.args.last().unwrap().clone();
        self.runs.push(run);
        if command == cfg.objective.command {
            ended(&self.objective.0, self.objective.1)
        } else if self.steps.contains(&CurrentStep::Score)
            || self.steps.last() == Some(&CurrentStep::CaptureDiff)
        {
            ended(&self.summary, 0)
        } else {
            ended("agent says\n", 0)
        }
    }

    fn perform(
        &mut self,
        deeds: Vec<Deed>,
        i: &IterationInputs,
        state: &mut StateSnapshot,
    ) -> Harvest {
        let mut harvest = Harvest::Nothing;
        for deed in deeds {
            match deed {
                Deed::MakeDir(_) => {}
                Deed::Checkpoint(step) => {
                    checkpoint(state, i.iter, step);
                    self.steps.push(step);
                }
                Deed::Git(call) => harvest = Harvest::Reply(self.git(&call)),
                Deed::Run(run) => harvest = Harvest::Output(Ok(self.run(run, i.cfg))),
                Deed::Write(path, text) | Deed::TryWrite(path, text) => {
                    self.files.push((path, text))
                }
            }
        }
        harvest
    }

    fn iterate(
        &mut self,
        i: &IterationInputs,
        state: &mut StateSnapshot,
    ) -> Result<IterationRecord, Error> {
        let vars = EnvMap::new();
        let (mut attempt, deeds) = Attempt::begin(i, &vars, Timestamp::from_unix(1_000, 0));
        let mut harvest = self.perform(deeds, i, state);
        while attempt.phase != Phase::Closing {
            let deeds = attempt.advance(i, &vars, harvest)?;
            harvest = self.perform(deeds, i, state);
        }
        let rec = attempt.record(i, Timestamp::from_unix(1_060, 0));
        settle(state, &rec, i.best);
        Ok(rec)
    }
}

struct Bench {
    cfg: Config,
    paths: ExperimentPaths,
    git: Git,
    recent: Vec<IterationRecord>,
    guidance: Vec<GuidanceEntry>,
}

impl Bench {
    fn new(cfg: Config) -> Bench {
        Bench {
            cfg,
            paths: ExperimentPaths::new("/repo".to_string(), "test".to_string()),
            git: Git::new("/repo".to_string()),
            recent: vec![],
            guidance: vec![],
        }
    }

    fn inputs(&self, best: Option<(Score, u64)>) -> IterationInputs<'_> {
        IterationInputs {
            cfg: &self.cfg,
            paths: &self.paths,
            git: &self.git,
            branch: "autorize/test",
            iter: 1,
            best,
            recent: &self.recent,
            program_md: "",
            guidance: &self.guidance,
            best_diff: None,
        }
    }
}

/// What a run keeps on disk.
#[derive(Default)]
struct Kept {
    state: Option<StateSnapshot>,
    log: Vec<IterationRecord>,
}

/// Runs a whole run, its iterations too, at a time that stands still.
fn whole_run(bench: &Bench, world: &mut World, kept: &mut Kept, fresh: bool) {
    let now = Timestamp::from_unix(1_000, 0);
    let inputs = RunInputs {
        name: "test",
        allow_dirty: false,
        recover_iter: false,
        fresh,
        cfg: &bench.cfg,
        paths: &bench.paths,
        git: &bench.git,
        branch: "autorize/test",
    };
    let (mut session, mut errands) = Session::begin(&inputs);
    while session.stage != Stage::Over {
        let mut news = None;
        for errand in errands {
            match errand {
                Errand::Git(call) => news = Some(News::Reply(world.git(&call))),
                Errand::Forget(call) => {
                    world.git(&call);
                }
                Errand::ReadState => news = Some(News::State(kept.state.clone())),
                Errand::ReadRecords => news = Some(News::Records(kept.log.clone())),
                Errand::Backfill => news = Some(News::Records(session.records.clone())),
                Errand::Deadline => {
                    news = Some(News::Deadline(Deadline(Timestamp::from_unix(4_600, 0)), now))
                }
                Errand::Clock => news = Some(News::Time(now)),
                Errand::MakeHome => {}
                Errand::Save(s) => kept.state = Some(s),
                Errand::Append(r) => kept.log.push(r),
                Errand::Iterate(round) => {
                    let mut i = bench.inputs(round.best);
                    i.iter = round.iter;
                    i.recent = &round.recent;
                    let mut state = session.state.clone().unwrap();
                    news = Some(News::Finished(world.iterate(&i, &mut state).unwrap()));
                }
            }
        }
        errands = session.advance(&inputs, news.unwrap()).unwrap();
    }
}

#[test]
fn fresh_preserves_best_and_discards_regression() {
    let mut cfg = make_config(
        "echo 3.14 > value.txt",
        "bash score.sh",
        FailMode::Invalid,
        vec![],
        false,
    );
    cfg.iteration.max_iterations = 1;
    let bench = Bench::new(cfg);
    let mut world = World::new(&["value.txt"], "0.001592653589793\n", 0);
    let mut kept = Kept::default();
    whole_run(&bench, &mut world, &mut kept, false);
    let after_first = kept.state.clone().unwrap();
    assert_eq!(after_first.best_score, Some(sc(0.001592653589793)));
    assert_eq!(after_first.best_iter, Some(1));
    let tip_before = world.tip.clone();
    assert_eq!(tip_before, "commit-1");

    world.objective = ("1.141592653589793\n".to_string(), 0);
    whole_run(&bench, &mut world, &mut kept, true);
    assert_eq!(kept.log.len(), 2, "fresh run should append one record");
    assert_eq!(kept.log[1].iter, 2);
    assert_eq!(kept.log[1].outcome, Outcome::Discarded);
    let after_fresh = kept.state.clone().unwrap();
    assert_eq!(after_fresh.best_score, after_first.best_score);
    assert_eq!(after_fresh.best_iter, Some(1));
    assert_eq!(after_fresh.base_commit, after_first.base_commit);
    assert_eq!((after_fresh.iterations_completed, after_fresh.run_iterations_completed), (2, 1));
    assert_eq!(world.tip, tip_before, "no merge leaves the tracking branch where it is");
}

#[test]
fn summaries_are_empty_unless_asked_for() {
    let bench = Bench::new(make_config(
        "echo 3.14 > value.txt",
        "bash score.sh",
        FailMode::Invalid,
        vec![],
        false,
    ));
    let mut world = World::new(&["value.txt"], "0.5\n", 0);
    world.summary = "never asked".to_string();
    let rec = world.iterate(&bench.inputs(None), &mut init_state()).unwrap();
    assert_eq!(rec.outcome, Outcome::Merged);
    assert_eq!(rec.summary, "");
}

#[test]
fn runs_merged_outcome_on_improvement() {
    let bench = Bench::new(make_config(
        "echo 3.14 > value.txt",
        "bash score.sh",
        FailMode::Invalid,
        vec![],
        true,
    ));
    let inputs = bench.inputs(None);
    let mut state = init_state();
    let mut world = World::new(&["value.txt"], "0.001593\n", 0);
    let rec = world.iterate(&inputs, &mut state).unwrap();

    assert_eq!(rec.outcome, Outcome::Merged);
    let s = number(rec.score.expect("score should be set on Merged"));
    assert!(s < 0.01, "score {s} too far from pi");
    assert_eq!(rec.best_so_far, Some(sc(s)));
    assert_eq!(rec.notes, "first valid score: 0.00159");
    assert_eq!(state.current_step, CurrentStep::Idle);
    assert_eq!(state.iterations_completed, 1);
    assert_eq!(state.best_iter, Some(1));
    assert_eq!(state.best_score, Some(sc(s)));
    assert_eq!(world.tip, "commit-1", "merge should advance tracking branch");
    assert_eq!(rec.diff_lines, 1);
    assert_eq!(rec.agent_exit, Some(0));
}

#[test]
fn runs_noop_outcome_when_agent_makes_no_changes() {
    let bench = Bench::new(make_config("true", "bash score.sh", FailMode::Invalid, vec![], false));
    let inputs = bench.inputs(None);
    let mut state = init_state();
    let mut world = World::new(&[], "0.1\n", 0);
    let rec = world.iterate(&inputs, &mut state).unwrap();

    assert_eq!(rec.outcome, Outcome::Noop);
    assert!(rec.score.is_none());
    assert!(rec.best_so_far.is_none());
    assert_eq!(state.consecutive_noops, 1);
    assert!(state.best_score.is_none());
    assert!(state.best_iter.is_none());
    assert_eq!(world.tip, "base");
    assert!(!world.steps.contains(&CurrentStep::Score), "a noop is not scored");
}

#[test]
fn runs_denied_outcome_when_diff_touches_deny_path() {
    let bench = Bench::new(make_config(
        "mkdir -p forbidden && echo bad > forbidden/x.txt",
        "bash score.sh",
        FailMode::Invalid,
        vec!["forbidden/**".to_string()],
        false,
    ));
    let inputs = bench.inputs(None);
    let mut state = init_state();
    let mut world = World::new(&["forbidden/x.txt"], "0.1\n", 0);
    let rec = world.iterate(&inputs, &mut state).unwrap();

    assert_eq!(rec.outcome, Outcome::Denied);
    assert!(rec.score.is_none());
    assert_eq!(rec.notes, "denied: touched forbidden/x.txt");
    assert_eq!(world.tip, "base", "denied iteration must not advance branch");
}

#[test]
fn runs_discarded_outcome_when_score_worse() {
    let bench = Bench::new(make_config(
        "echo 2.0 > value.txt",
        "bash score.sh",
        FailMode::Invalid,
        vec![],
        false,
    ));
    let inputs = bench.inputs(Some((sc(0.001), 0)));
    let mut state = init_state();
    state.best_score = Some(sc(0.001));
    state.best_iter = Some(0);
    let mut world = World::new(&["value.txt"], "1.141593\n", 0);
    let rec = world.iterate(&inputs, &mut state).unwrap();

    assert_eq!(rec.outcome, Outcome::Discarded);
    assert!(rec.score.is_some());
    let s = number(rec.score.unwrap());
    assert!(s > 1.0, "score {s} should be far from pi");
    assert_eq!(rec.notes, "regressed: 1.14159 vs best 0.00100 (min)");
    assert_eq!(world.tip, "base");
    assert_eq!(state.best_iter, Some(0));
    assert_eq!(state.best_score, Some(sc(0.001)));
    assert!(world.steps.contains(&CurrentStep::Discard));
}

#[test]
fn discarded_kept_worktree_has_clean_index() {
    let bench = Bench::new(make_config(
        "echo 2.0 > value.txt",
        "bash score.sh",
        FailMode::Invalid,
        vec![],
        true,
    ));
    let inputs = bench.inputs(Some((sc(0.001), 0)));
    let mut state = init_state();
    state.best_score = Some(sc(0.001));
    state.best_iter = Some(0);
    let mut world = World::new(&["value.txt"], "1.141593\n", 0);
    let rec = world.iterate(&inputs, &mut state).unwrap();
    assert_eq!(rec.outcome, Outcome::Discarded);
    assert!(!world.staged, "stray staged index");
    assert!(!world.commands.iter().any(|c| c.starts_with("worktree remove")));
}

#[test]
fn merged_commit_contains_full_agent_diff() {
    let bench = Bench::new(make_config(
        "echo 3.14 > value.txt",
        "bash score.sh",
        FailMode::Invalid,
        vec![],
        false,
    ));
    let inputs = bench.inputs(None);
    let mut state = init_state();
    let mut world = World::new(&["value.txt"], "0.001593\n", 0);
    let rec = world.iterate(&inputs, &mut state).unwrap();
    assert_eq!(rec.outcome, Outcome::Merged);
    let commit = world.commands.iter().position(|c| c.contains("commit -m")).unwrap();
    assert_eq!(world.commands[commit - 1], "add -A", "everything is staged for the commit");
    assert!(
        world.commands[commit].ends_with("commit -m autorize iter 1: score 0.001593"),
        "{}",
        world.commands[commit]
    );
    assert_eq!(world.commands.last().unwrap(), "worktree remove --force /repo/.autorize/test/iter-0001/wt");
}

#[test]
fn runs_invalid_outcome_when_scoring_fails() {
    let bench = Bench::new(make_config(
        "echo 3.14 > value.txt",
        "exit 1",
        FailMode::Invalid,
        vec![],
        false,
    ));
    let inputs = bench.inputs(None);
    let mut state = init_state();
    let mut world = World::new(&["value.txt"], "", 1);
    let rec = world.iterate(&inputs, &mut state).unwrap();

    assert_eq!(rec.outcome, Outcome::Invalid);
    assert!(rec.score.is_none());
    assert!(rec.best_so_far.is_none());
    assert_eq!(rec.notes, "invalid: exit code 1");
    assert_eq!(world.tip, "base");
}

#[test]
fn improvement_notes_tell_both_scores() {
    let bench = Bench::new(make_config("x", "bash score.sh", FailMode::Invalid, vec![], false));
    let inputs = bench.inputs(Some((sc(3.15), 0)));
    let mut state = init_state();
    let mut world = World::new(&["value.txt"], "3.1421\n", 0);
    let rec = world.iterate(&inputs, &mut state).unwrap();
    assert_eq!(rec.outcome, Outcome::Merged);
    assert_eq!(rec.notes, "improved: 3.14210 from 3.15000");
}

#[test]
fn equal_scores_are_no_improvement() {
    let bench = Bench::new(make_config("x", "bash score.sh", FailMode::Invalid, vec![], false));
    let inputs = bench.inputs(Some((sc(3.15), 0)));
    let mut state = init_state();
    let mut world = World::new(&["value.txt"], "3.15\n", 0);
    let rec = world.iterate(&inputs, &mut state).unwrap();
    assert_eq!(rec.outcome, Outcome::Discarded);
    assert_eq!(world.tip, "base");
}

#[test]
fn worst_mode_scores_with_a_sentinel() {
    let bench = Bench::new(make_config("x", "exit 1", FailMode::Worst, vec![], false));
    let inputs = bench.inputs(Some((sc(1.0), 0)));
    let mut state = init_state();
    let mut world = World::new(&["value.txt"], "", 1);
    let rec = world.iterate(&inputs, &mut state).unwrap();
    assert_eq!(rec.outcome, Outcome::Discarded);
    assert_eq!(rec.score, Some(sc(f64::MAX)));
}

#[test]
fn abort_mode_ends_the_run() {
    let bench = Bench::new(make_config("x", "exit 1", FailMode::Abort, vec![], false));
    let inputs = bench.inputs(None);
    let mut state = init_state();
    let mut world = World::new(&["value.txt"], "", 1);
    let err = world.iterate(&inputs, &mut state).unwrap_err();
    assert_eq!(err.message(), "config error: scoring abort: exit code 1");
}

#[test]
fn boundaries_that_are_no_globs_end_the_run() {
    let bench = Bench::new(make_config(
        "x",
        "bash score.sh",
        FailMode::Invalid,
        vec!["[".to_string()],
        false,
    ));
    let inputs = bench.inputs(None);
    let mut world = World::new(&["value.txt"], "1\n", 0);
    let err = world.iterate(&inputs, &mut init_state()).unwrap_err();
    assert!(matches!(err, Error::Glob(_)), "{err:?}");
}

#[test]
fn steps_come_in_order() {
    let bench = Bench::new(make_config("x", "bash score.sh", FailMode::Invalid, vec![], false));
    let inputs = bench.inputs(None);
    let mut world = World::new(&["value.txt"], "1\n", 0);
    world.iterate(&inputs, &mut init_state()).unwrap();
    assert_eq!(
        world.steps,
        vec![
            CurrentStep::AllocateIter,
            CurrentStep::CreateWorktree,
            CurrentStep::RunSetup,
            CurrentStep::BuildPrompt,
            CurrentStep::InvokeAgent,
            CurrentStep::CaptureDiff,
            CurrentStep::RunTeardown,
            CurrentStep::Score,
            CurrentStep::Decide,
            CurrentStep::Merge,
            CurrentStep::Cleanup,
            CurrentStep::Record,
        ]
    );
}

#[test]
fn artifacts_are_kept_beside_the_worktree() {
    let mut cfg = make_config("x {iter}", "bash score.sh", FailMode::Invalid, vec![], false);
    cfg.setup.command = "make setup".to_string();
    cfg.teardown.command = "make teardown".to_string();
    let bench = Bench::new(cfg);
    let inputs = bench.inputs(None);
    let mut world = World::new(&["value.txt"], "1\n", 0);
    world.iterate(&inputs, &mut init_state()).unwrap();
    let names: Vec<&str> = world.files.iter().map(|f| f.0.as_str()).collect();
    assert_eq!(
        names,
        vec![
            "/repo/.autorize/test/iter-0001/prompt.md",
            "/repo/.autorize/test/iter-0001/agent.stdout",
            "/repo/.autorize/test/iter-0001/agent.stderr",
            "/repo/.autorize/test/iter-0001/changes.diff",
        ]
    );
    assert!(world.files[0].1.contains("You are working on iteration 1."));
    let commands: Vec<&str> = world.runs.iter().map(|r| r.args[1].as_str()).collect();
    assert_eq!(commands, vec!["make setup", "x 1", "make teardown", "bash score.sh"]);
    assert_eq!(
        world.runs[1].stdin_file.as_deref(),
        Some("/repo/.autorize/test/iter-0001/prompt.md")
    );
}

fn summarizing(cfg: &mut Config) {
    cfg.summarize = Summarize {
        enabled: true,
        command: "echo SUMMARY_MARKER".to_string(),
        timeout: Duration::from_secs(60),
        stdin: AgentStdin::Prompt,
    };
}

#[test]
fn summaries_are_recorded() {
    let mut cfg = make_config("x", "bash score.sh", FailMode::Invalid, vec![], false);
    summarizing(&mut cfg);
    let bench = Bench::new(cfg);
    let inputs = bench.inputs(None);
    let mut world = World::new(&["value.txt"], "1\n", 0);
    world.summary = " SUMMARY_MARKER \n".to_string();
    let rec = world.iterate(&inputs, &mut init_state()).unwrap();
    assert_eq!(rec.outcome, Outcome::Merged);
    assert_eq!(rec.summary, "SUMMARY_MARKER");
    let last = world.files.last().unwrap();
    assert_eq!(last.0, "/repo/.autorize/test/iter-0001/summary.md");
    assert_eq!(last.1, "SUMMARY_MARKER");
    let ask = &world.files[world.files.len() - 2];
    assert_eq!(ask.0, "/repo/.autorize/test/iter-0001/summary-prompt.md");
    assert!(ask.1.contains("outcome: merged"), "{}", ask.1);
}

#[test]
fn noops_are_not_summarized() {
    let mut cfg = make_config("x", "bash score.sh", FailMode::Invalid, vec![], false);
    summarizing(&mut cfg);
    let bench = Bench::new(cfg);
    let inputs = bench.inputs(None);
    let mut world = World::new(&[], "1\n", 0);
    let rec = world.iterate(&inputs, &mut init_state()).unwrap();
    assert_eq!(rec.summary, "");
    assert_eq!(world.runs.len(), 1);
}

#[test]
fn failed_summaries_are_empty() {
    assert_eq!(read_summary(&Ok(ended(" a b \n", 0))), "a b");
    assert_eq!(read_summary(&Ok(ended("a", 1))), "");
    assert_eq!(read_summary(&Err(Error::Subproc("x".to_string()))), "");
    let mut late = ended("a", 0);
    late.timed_out = true;
    assert_eq!(read_summary(&Ok(late)), "");
}

#[test]
fn failing_agents_end_the_iteration() {
    let bench = Bench::new(make_config("x", "bash score.sh", FailMode::Invalid, vec![], false));
    let inputs = bench.inputs(None);
    let vars = EnvMap::new();
    let (mut attempt, _) = Attempt::begin(&inputs, &vars, Timestamp::from_unix(0, 0));
    let err = attempt
        .advance(&inputs, &vars, Harvest::Output(Err(Error::Subproc("no bash".to_string()))))
        .unwrap_err();
    assert_eq!(err.message(), "subprocess: no bash");
}

#[test]
fn merge_messages_tell_the_score_exactly() {
    assert_eq!(merge_message(7, &sc(0.1)), "autorize iter 7: score 0.1");
    assert_eq!(
        merge_message(1, &sc(f64::MIN)),
        format!("autorize iter 1: score {}", f64::MIN)
    );
}

fn rec(iter: u64, outcome: Outcome, score: Option<f64>, summary: &str) -> IterationRecord {
    IterationRecord {
        iter,
        started_at: Timestamp::from_unix(0, 0),
        ended_at: Timestamp::from_unix(1, 0),
        outcome,
        score: score.map(sc),
        best_so_far: score.map(sc),
        agent_exit: Some(0),
        agent_killed_by_budget: false,
        diff_lines: 1,
        notes: String::new(),
        summary: summary.to_string(),
    }
}

#[test]
fn backfill_disabled_is_noop() {
    let cfg = make_config("x", "y", FailMode::Invalid, vec![], false);
    let records = vec![rec(1, Outcome::Merged, Some(0.1), "")];
    assert!(missing_summaries(&cfg, &records, false).is_empty());
}

#[test]
fn backfill_fills_missing_summary() {
    let mut cfg = make_config("x", "y", FailMode::Invalid, vec![], false);
    summarizing(&mut cfg);
    let mut records = vec![
        rec(1, Outcome::Merged, Some(0.1), ""),
        rec(2, Outcome::Noop, None, ""),
        rec(3, Outcome::Killed, None, ""),
        rec(4, Outcome::Discarded, Some(0.2), "known"),
        rec(5, Outcome::Invalid, None, ""),
    ];
    assert_eq!(missing_summaries(&cfg, &records, false), vec![0, 4]);
    let ask = backfill_prompt(
        &cfg,
        &records,
        0,
        "diff --git a/x b/x\n+change\n",
        "agent did a thing\n",
        "",
    );
    assert!(ask.contains("- iteration: 1"), "{ask}");
    assert!(ask.contains("best so far: iter 1, score 0.10000"), "{ask}");
    assert!(ask.contains("agent did a thing"), "{ask}");
    assert!(fill_summary(&mut records, 0, &Ok(ended("SUMMARY_MARKER\n", 0))));
    assert_eq!(records[0].summary, "SUMMARY_MARKER");
    assert!(!fill_summary(&mut records, 4, &Ok(ended("", 0))));
    assert_eq!(missing_summaries(&cfg, &records, false), vec![4]);
    assert!(needs_summary(&records[4], false));
    assert!(!needs_summary(&records[1], false));
    assert_eq!(missing_summaries(&cfg, &records, true), vec![0, 3, 4]);
}

#[test]
fn summarizer_runs_beside_the_worktree() {
    let mut cfg = make_config("x", "y", FailMode::Invalid, vec![], false);
    summarizing(&mut cfg);
    cfg.summarize.command = "s {prompt_file} {workdir} {iter}".to_string();
    let run = summarizer_invocation(&cfg, "/d", 9, &EnvMap::new());
    assert_eq!(run.args[1], "s /d/summary-prompt.md /d 9");
    assert_eq!(run.workdir, "/d");
    assert_eq!(run.stdin_file.as_deref(), Some("/d/summary-prompt.md"));
    assert_eq!(run.env.get("AUTORIZE_WORKDIR"), Some("/d"));
}
