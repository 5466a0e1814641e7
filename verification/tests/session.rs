use autorize::cli::run::Stop;
use autorize::cli::session::{Errand, News, RunInputs, Session, Stage};
use autorize::config::{
    Agent, AgentStdin, Boundaries, Config, Direction, Experiment, FailMode, Iteration, Objective,
    ParseSpec, Schedule, Setup, Summarize, Teardown,
};
use autorize::env_map::EnvMap;
use autorize::error::Error;
use autorize::experiment::ExperimentPaths;
use autorize::iteration::{fill_summary, missing_summaries};
use autorize::schedule::Deadline;
use autorize::score::Score;
use autorize::storage::{CurrentStep, IterationRecord, Outcome, StateSnapshot};
use autorize::subproc::CommandOutput;
use autorize::time::{Duration, Timestamp};
use autorize::worktree::{Git, GitCall, GitReply};

fn sc(v: f64) -> Score {
    Score { bits: v.to_bits() }
}

fn at(secs: i64) -> Timestamp {
    Timestamp::from_unix(secs, 0)
}

fn config(max_iterations: u64) -> Config {
    Config {
        experiment: Experiment {
            name: "test".to_string(),
            description: String::new(),
        },
        objective: Objective {
            command: "bash score.sh".to_string(),
            direction: Direction::Min,
            parse: ParseSpec::Float,
            timeout: Duration::from_secs(30),
            fail_mode: FailMode::Invalid,
        },
        boundaries: Boundaries::default(),
        setup: Setup::default(),
        teardown: Teardown::default(),
        iteration: Iteration {
            budget: Duration::from_secs(30),
            max_iterations,
            keep_worktrees: false,
            max_consecutive_noops: 5,
        },
        schedule: Schedule {
            total_budget: Some(Duration::from_secs(3600)),
            deadline: None,
        },
        agent: Agent {
            command: "true".to_string(),
            workdir_var: "AUTORIZE_WORKDIR".to_string(),
            env: EnvMap::new(),
            stdin: AgentStdin::Prompt,
        },
        summarize: Summarize::default(),
    }
}

fn saved(iter_in_progress: Option<u64>, completed: u64) -> StateSnapshot {
    StateSnapshot {
        experiment: "test".to_string(),
        branch: "autorize/test".to_string(),
        base_commit: "base0".to_string(),
        iter_in_progress,
        current_step: CurrentStep::Idle,
        best_score: None,
        best_iter: None,
        started_at: at(0),
        deadline: at(3600),
        iterations_completed: completed,
        run_iterations_completed: completed,
        consecutive_noops: 0,
    }
}

fn rec(iter: u64, outcome: Outcome, score: Option<f64>) -> IterationRecord {
    IterationRecord {
        iter,
        started_at: at(1),
        ended_at: at(2),
        outcome,
        score: score.map(sc),
        best_so_far: score.map(sc),
        agent_exit: Some(0),
        agent_killed_by_budget: false,
        diff_lines: 1,
        notes: String::new(),
        summary: String::new(),
    }
}

/// A repository, a disk and a clock as a run sees them.
struct World {
    inside: bool,
    dirt: String,
    reachable: bool,
    branches: Vec<String>,
    subject: String,
    state: Option<StateSnapshot>,
    log: Vec<IterationRecord>,
    now: i64,
    deadline: i64,
    commands: Vec<String>,
    rounds: Vec<u64>,
    outcome: Outcome,
    score: f64,
    /// What summaries are made up for by.
    cfg: Config,
}

impl World {
    fn new() -> World {
        World {
            inside: true,
            dirt: String::new(),
            reachable: true,
            branches: vec![],
            subject: "init".to_string(),
            state: None,
            log: vec![],
            now: 100,
            deadline: 3600,
            commands: vec![],
            rounds: vec![],
            outcome: Outcome::Discarded,
            score: 1.0,
            cfg: config(0),
        }
    }

    fn git(&mut self, call: &GitCall) -> GitReply {
        self.commands.push(call.args.join(" "));
        let words: Vec<&str> = call.args.iter().map(String::as_str).collect();
        let (success, stdout) = match words.as_slice() {
            ["rev-parse", "--is-inside-work-tree"] => (self.inside, "true\n".to_string()),
            ["status", "--porcelain"] => (true, self.dirt.clone()),
            ["rev-parse", "--verify", _] => (self.reachable, "base0\n".to_string()),
            ["rev-parse", "HEAD"] => (true, "head1\n".to_string()),
            ["show-ref", ..] => (!self.branches.is_empty(), String::new()),
            ["branch", name, _] => {
                self.branches.push(name.to_string());
                (true, String::new())
            }
            ["log", ..] => (true, format!("{}\n", self.subject)),
            _ => (false, String::new()),
        };
        GitReply {
            success,
            stdout,
            stderr: "fatal".to_string(),
        }
    }

    fn run_errands(&mut self, errands: Vec<Errand>, session: &Session) -> Option<News> {
        let mut news = None;
        for errand in errands {
            match errand {
                Errand::Git(call) => news = Some(News::Reply(self.git(&call))),
                Errand::Forget(call) => {
                    self.git(&call);
                }
                Errand::ReadState => news = Some(News::State(self.state.clone())),
                Errand::ReadRecords => news = Some(News::Records(self.log.clone())),
                Errand::Backfill => {
                    let mut records = session.records.clone();
                    for n in missing_summaries(&self.cfg, &records, false) {
                        let told = Ok(CommandOutput {
                            exit_code: Some(0),
                            signal: None,
                            stdout: "made up\n".to_string(),
                            stderr: String::new(),
                            timed_out: false,
                        });
                        fill_summary(&mut records, n, &told);
                    }
                    self.log = records.clone();
                    news = Some(News::Records(records));
                }
                Errand::Deadline => {
                    news = Some(News::Deadline(Deadline(at(self.deadline)), at(self.now)))
                }
                Errand::Clock => news = Some(News::Time(at(self.now))),
                Errand::MakeHome => {}
                Errand::Save(s) => self.state = Some(s),
                Errand::Append(r) => self.log.push(r),
                Errand::Iterate(round) => {
                    self.rounds.push(round.iter);
                    assert!(round.recent.len() <= 10);
                    let mut r = rec(round.iter, self.outcome, Some(self.score));
                    if self.outcome != Outcome::Merged {
                        r.best_so_far = round.best.map(|(s, _)| s);
                    }
                    news = Some(News::Finished(r));
                }
            }
        }
        news
    }

    fn run(&mut self, inputs: &RunInputs) -> Result<Session, Error> {
        let (mut session, mut errands) = Session::begin(inputs);
        while let Some(news) = self.run_errands(errands, &session) {
            errands = session.advance(inputs, news)?;
        }
        assert_eq!(session.stage, Stage::Over);
        Ok(session)
    }
}

struct Bench {
    cfg: Config,
    paths: ExperimentPaths,
    git: Git,
}

impl Bench {
    fn new(max_iterations: u64) -> Bench {
        Bench {
            cfg: config(max_iterations),
            paths: ExperimentPaths::new("/repo".to_string(), "test".to_string()),
            git: Git::new("/repo".to_string()),
        }
    }

    fn inputs(&self, recover_iter: bool, fresh: bool) -> RunInputs<'_> {
        RunInputs {
            name: "test",
            allow_dirty: false,
            recover_iter,
            fresh,
            cfg: &self.cfg,
            paths: &self.paths,
            git: &self.git,
            branch: "autorize/test",
        }
    }
}

#[test]
fn fresh_run_creates_branch_and_state() {
    let bench = Bench::new(2);
    let mut world = World::new();
    let session = world.run(&bench.inputs(false, false)).unwrap();
    assert_eq!(session.stopped, Some(Stop::MaxIterations));
    assert_eq!(world.branches, vec!["autorize/test".to_string()]);
    assert_eq!(world.rounds, vec![1, 2]);
    let state = world.state.unwrap();
    assert_eq!(state.base_commit, "head1");
    assert_eq!(state.started_at, at(100));
    assert_eq!(state.deadline, at(3600));
    assert_eq!(session.records.len(), 2);
}

#[test]
fn existing_branches_are_kept() {
    let bench = Bench::new(1);
    let mut world = World::new();
    world.branches.push("autorize/test".to_string());
    world.run(&bench.inputs(false, false)).unwrap();
    assert_eq!(world.branches.len(), 1);
}

#[test]
fn allows_dirty_with_flag() {
    let bench = Bench::new(1);
    let mut world = World::new();
    world.dirt = "?? stray.txt\n".to_string();
    let err = world.run(&bench.inputs(false, false)).unwrap_err();
    assert!(err.message().contains("uncommitted"), "got: {}", err.message());
    assert!(world.rounds.is_empty());
    let mut inputs = bench.inputs(false, false);
    inputs.allow_dirty = true;
    world.run(&inputs).unwrap();
    assert_eq!(world.rounds, vec![1]);
}

#[test]
fn runs_outside_a_repository_end_at_once() {
    let bench = Bench::new(1);
    let mut world = World::new();
    world.inside = false;
    let err = world.run(&bench.inputs(false, false)).unwrap_err();
    assert!(matches!(err, Error::Git(_)));
    assert_eq!(world.commands, vec!["rev-parse --is-inside-work-tree".to_string()]);
}

#[test]
fn lost_base_commits_end_the_run() {
    let bench = Bench::new(1);
    let mut world = World::new();
    world.state = Some(saved(None, 0));
    world.reachable = false;
    let err = world.run(&bench.inputs(false, false)).unwrap_err();
    assert!(err.message().contains("unreachable"), "got: {}", err.message());
    assert_eq!(world.commands.last().unwrap(), "rev-parse --verify base0^{}");
}

#[test]
fn saved_runs_go_on_where_they_stood() {
    let bench = Bench::new(3);
    let mut world = World::new();
    world.state = Some(saved(None, 2));
    world.log = vec![rec(1, Outcome::Merged, Some(2.0)), rec(2, Outcome::Noop, None)];
    world.run(&bench.inputs(false, false)).unwrap();
    assert_eq!(world.rounds, vec![3]);
    assert!(world.branches.is_empty(), "a saved run makes no branch");
}

#[test]
fn fresh_starts_reset_the_limits_only() {
    let bench = Bench::new(2);
    let mut world = World::new();
    let mut state = saved(None, 2);
    state.best_score = Some(sc(0.5));
    state.best_iter = Some(1);
    world.state = Some(state);
    world.log = vec![rec(1, Outcome::Merged, Some(0.5)), rec(2, Outcome::Noop, None)];
    world.run(&bench.inputs(false, false)).unwrap();
    assert!(world.rounds.is_empty(), "the limit was reached before");
    world.run(&bench.inputs(false, true)).unwrap();
    assert_eq!(world.rounds, vec![3, 4]);
    let state = world.state.unwrap();
    assert_eq!(state.best_score, Some(sc(0.5)));
    assert_eq!(state.iterations_completed, 4);
    assert_eq!(state.run_iterations_completed, 2);
    assert_eq!(state.started_at, at(100));
}

#[test]
fn fresh_runs_build_on_progress() {
    let bench = Bench::new(2);
    let mut world = World::new();
    let mut state = saved(None, 2);
    state.best_score = Some(sc(0.5));
    state.best_iter = Some(1);
    world.state = Some(state);
    world.log = vec![rec(1, Outcome::Merged, Some(0.5)), rec(2, Outcome::Noop, None)];
    let session = world.run(&bench.inputs(false, true)).unwrap();
    assert_eq!(world.log.iter().map(|r| r.iter).collect::<Vec<u64>>(), vec![1, 2, 3, 4]);
    let state = world.state.clone().unwrap();
    assert_eq!((state.best_score, state.best_iter), (Some(sc(0.5)), Some(1)));
    assert_eq!((state.iterations_completed, state.base_commit.as_str()), (4, "base0"));
    assert_eq!(format!("{:?}", session.state), format!("{:?}", Some(state)));
    let moved = |c: &String| c.starts_with("branch ") || c.starts_with("update-ref ");
    assert!(!world.commands.iter().any(moved), "{:?}", world.commands);
    world.outcome = Outcome::Merged;
    world.score = 0.25;
    world.run(&bench.inputs(false, true)).unwrap();
    let state = world.state.clone().unwrap();
    assert_eq!((state.best_score, state.best_iter), (Some(sc(0.25)), Some(6)));
    assert_eq!((state.iterations_completed, state.run_iterations_completed), (6, 2));
}

#[test]
fn summaries_that_are_made_up_for_change_nothing_else() {
    let bench = Bench::new(3);
    let mut world = World::new();
    world.cfg.summarize.enabled = true;
    world.state = Some(saved(None, 3));
    let mut told = rec(3, Outcome::Discarded, Some(0.75));
    told.summary = "known".to_string();
    let before = vec![rec(1, Outcome::Merged, Some(0.5)), rec(2, Outcome::Noop, None), told];
    world.log = before.clone();
    world.run(&bench.inputs(false, true)).unwrap();
    let numbers: Vec<u64> = world.log.iter().map(|r| r.iter).collect();
    assert_eq!(numbers, vec![1, 2, 3, 4, 5, 6]);
    let summaries: Vec<&str> = world.log.iter().take(3).map(|r| r.summary.as_str()).collect();
    assert_eq!(summaries, vec!["made up", "", "known"]);
    for (old, new) in before.iter().zip(&world.log) {
        let mut bare = new.clone();
        bare.summary = old.summary.clone();
        assert_eq!(format!("{old:?}"), format!("{bare:?}"));
    }
    assert_eq!(world.state.unwrap().iterations_completed, 6);
}

#[test]
fn records_are_added_before_they_are_counted() {
    let bench = Bench::new(1);
    let inputs = bench.inputs(false, false);
    let mut world = World::new();
    let (mut session, mut errands) = Session::begin(&inputs);
    while session.stage != Stage::Iterating {
        let news = world.run_errands(errands, &session).unwrap();
        errands = session.advance(&inputs, news).unwrap();
    }
    let news = world.run_errands(errands, &session).unwrap();
    errands = session.advance(&inputs, news).unwrap();
    assert!(matches!(errands[0], Errand::Append(_)), "{errands:?}");
    match &errands[1] {
        Errand::Save(s) => assert_eq!(s.iterations_completed, 1),
        other => panic!("expected a checkpoint, got {other:?}"),
    }
    assert!(matches!(errands[2], Errand::Clock), "{errands:?}");
}

#[test]
fn fresh_starts_need_a_deadline_ahead() {
    let bench = Bench::new(2);
    let mut world = World::new();
    world.state = Some(saved(None, 2));
    world.deadline = 50;
    let err = world.run(&bench.inputs(false, true)).unwrap_err();
    assert!(err.message().contains("in the past"), "got: {}", err.message());
}

#[test]
fn interrupted_runs_need_to_be_resumed() {
    let bench = Bench::new(5);
    let mut world = World::new();
    world.state = Some(saved(Some(3), 2));
    for fresh in [false, true] {
        let err = world.run(&bench.inputs(false, fresh)).unwrap_err();
        assert!(err.message().contains("resume"), "got: {}", err.message());
    }
    world.run(&bench.inputs(true, false)).unwrap();
    assert_eq!(world.log[0].iter, 3);
    assert_eq!(world.log[0].outcome, Outcome::Killed);
    assert_eq!(world.rounds, vec![4, 5, 6], "the killed iteration took no slot of the run");
    assert!(world
        .commands
        .contains(&"worktree remove --force /repo/.autorize/test/iter-0003/wt".to_string()));
}

#[test]
fn resumed_runs_recover_a_lost_merge() {
    let bench = Bench::new(3);
    let mut world = World::new();
    world.state = Some(saved(Some(3), 2));
    world.subject = "autorize iter 3: score 0.25".to_string();
    let session = world.run(&bench.inputs(true, false)).unwrap();
    assert_eq!(world.log.len(), 1);
    assert_eq!(world.log[0].score, Some(sc(0.25)));
    assert_eq!(session.state.unwrap().best_score, Some(sc(0.25)));
    assert!(world.rounds.is_empty());
}

#[test]
fn resumed_runs_replay_a_written_record() {
    let bench = Bench::new(3);
    let mut world = World::new();
    world.state = Some(saved(Some(3), 2));
    world.log = vec![rec(3, Outcome::Merged, Some(0.75))];
    world.run(&bench.inputs(true, false)).unwrap();
    assert_eq!(world.log.len(), 1);
    assert_eq!(world.state.unwrap().best_iter, Some(3));
    assert!(!world.commands.iter().any(|c| c.starts_with("log ")));
}

#[test]
fn nothing_is_resumed_without_a_checkpoint() {
    let bench = Bench::new(3);
    let err = World::new().run(&bench.inputs(true, false)).unwrap_err();
    assert!(err.message().contains("nothing to resume"), "got: {}", err.message());
}

#[test]
fn expired_deadlines_run_no_iterations() {
    let bench = Bench::new(0);
    let mut world = World::new();
    world.deadline = 100;
    let session = world.run(&bench.inputs(false, false)).unwrap();
    assert_eq!(session.stopped, Some(Stop::Deadline));
    assert!(world.rounds.is_empty());
}
