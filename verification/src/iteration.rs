//! One iteration, from an empty directory to a record.
//!
//! The iteration is a machine: it hands out a plan, a list of deeds to be done
//! one after the other, and is told what the last of them brought. A deed that
//! fails ends the iteration with its error.
use vstd::prelude::*;

use crate::agent::{self, AgentSpec};
use crate::config::{self, Config};
use crate::env_map::EnvMap;
use crate::error::Error;
use crate::experiment::{path_join, path_joined, ExperimentPaths};
use crate::prompt::{self, BestSnapshot, PromptContext, SummaryContext};
use crate::score::{self, Score};
use crate::scoring::{self, ScoreDecision, ScoreOutput};
use crate::shortest;
use crate::storage::{CurrentStep, GuidanceEntry, IterationRecord, Outcome, StateSnapshot};
use crate::subproc::{self, CommandOutput, Invocation, Launch};
use crate::text;
use crate::time::{Duration, Timestamp};
use crate::worktree::{self, Call, CommitStep, Git, GitCall, GitReply};

verus! {

/// What an iteration starts from.
pub struct IterationInputs<'a> {
    pub cfg: &'a Config,
    pub paths: &'a ExperimentPaths,
    pub git: &'a Git,
    pub branch: &'a str,
    pub iter: u64,
    /// The best score so far and the iteration that reached it.
    pub best: Option<(Score, u64)>,
    pub recent: &'a Vec<IterationRecord>,
    pub program_md: &'a str,
    pub guidance: &'a Vec<GuidanceEntry>,
    /// The changes of the best iteration.
    pub best_diff: Option<&'a str>,
}

/// Something to be done.
#[derive(Debug)]
pub enum Deed {
    /// Make a directory and those above it.
    MakeDir(String),
    /// Note the step in the checkpoint and write the checkpoint.
    Checkpoint(CurrentStep),
    /// Run a git command.
    Git(GitCall),
    /// Run a child.
    Run(Invocation),
    /// Write a file.
    Write(String, String),
    /// Write a file, and go on if that fails.
    TryWrite(String, String),
}

/// [`Deed`] with its texts as sequences.
pub enum Task {
    MakeDir(Seq<char>),
    Checkpoint(CurrentStep),
    Git(Call),
    Run(Launch),
    Write(Seq<char>, Seq<char>),
    TryWrite(Seq<char>, Seq<char>),
}

impl View for Deed {
    type V = Task;

    open spec fn view(&self) -> Task {
        match *self {
            Deed::MakeDir(p) => Task::MakeDir(p@),
            Deed::Checkpoint(s) => Task::Checkpoint(s),
            Deed::Git(c) => Task::Git(c@),
            Deed::Run(i) => Task::Run(i@),
            Deed::Write(p, t) => Task::Write(p@, t@),
            Deed::TryWrite(p, t) => Task::TryWrite(p@, t@),
        }
    }
}

/// The views of a list of deeds.
pub open spec fn tasks(v: Seq<Deed>) -> Seq<Task> {
    Seq::new(v.len(), |i: int| v[i]@)
}

fn add_deed(plan: &mut Vec<Deed>, deed: Deed)
    ensures
        tasks(final(plan)@) == tasks(old(plan)@).push(deed@),
{
    let ghost before = tasks(plan@);
    plan.push(deed);
    assert(tasks(plan@) =~= before.push(deed@));
}

fn no_deeds() -> (r: Vec<Deed>)
    ensures
        tasks(r@) == Seq::<Task>::empty(),
{
    let r: Vec<Deed> = Vec::new();
    assert(tasks(r@) =~= Seq::<Task>::empty());
    r
}

fn one_deed(deed: Deed) -> (r: Vec<Deed>)
    ensures
        tasks(r@) == seq![deed@],
{
    let mut r = no_deeds();
    add_deed(&mut r, deed);
    assert(tasks(r@) =~= seq![deed@]);
    r
}

fn joined_plans(first: Vec<Deed>, second: Vec<Deed>) -> (r: Vec<Deed>)
    ensures
        tasks(r@) == tasks(first@) + tasks(second@),
{
    let mut r = first;
    let mut rest = second;
    r.append(&mut rest);
    assert(tasks(r@) =~= tasks(first@) + tasks(second@));
    r
}

/// What the last deed of a plan brought.
#[derive(Debug)]
pub enum Harvest {
    Nothing,
    Reply(GitReply),
    Output(Result<CommandOutput, Error>),
}

impl<'a> IterationInputs<'a> {
    /// The iteration's directory.
    pub open spec fn dir(self) -> Seq<char> {
        self.paths.attempt_dir(self.iter)
    }

    /// A file of the iteration.
    pub open spec fn file(self, name: Seq<char>) -> Seq<char> {
        path_joined(self.dir(), name)
    }

    /// The iteration's worktree.
    pub open spec fn wt(self) -> Seq<char> {
        self.file("wt"@)
    }

    /// The best score so far.
    pub open spec fn best_score(self) -> Option<Score> {
        match self.best {
            Some((s, _)) => Some(s),
            None => None,
        }
    }

    /// The iteration that reached the best score so far.
    pub open spec fn best_iter(self) -> Option<u64> {
        match self.best {
            Some((_, i)) => Some(i),
            None => None,
        }
    }

    fn dir_path(&self) -> (r: String)
        ensures
            r@ == self.dir(),
    {
        self.paths.iter_dir(self.iter)
    }

    fn file_path(&self, name: &str) -> (r: String)
        ensures
            r@ == self.file(name@),
    {
        path_join(self.dir_path().as_str(), name)
    }

    fn wt_path(&self) -> (r: String)
        ensures
            r@ == self.wt(),
    {
        self.file_path("wt")
    }

    fn best_score_of(&self) -> (r: Option<Score>)
        ensures
            r == self.best_score(),
    {
        match self.best {
            Some((s, _)) => Some(s),
            None => None,
        }
    }
}

/// What the worker agent's prompt is made of. The best iteration is told only
/// with its changes.
pub open spec fn prompt_context<'a>(i: IterationInputs<'a>) -> PromptContext<'a> {
    PromptContext {
        program_md: i.program_md,
        boundaries: &i.cfg.boundaries,
        guidance: i.guidance,
        recent: i.recent,
        best: match (i.best, i.best_diff) {
            (Some((score, iter)), Some(diff)) => Some(BestSnapshot { iter, score, diff }),
            _ => None,
        },
        iter: i.iter,
        budget: i.cfg.iteration.budget,
        direction: i.cfg.objective.direction,
    }
}

/// How the worker agent is started.
pub open spec fn worker(i: IterationInputs, vars: Map<Seq<char>, Seq<char>>) -> Launch {
    subproc::shell_launch(
        agent::substituted(i.cfg.agent.command@, i.file("prompt.md"@), i.wt(), i.iter as nat),
        i.wt(),
        i.cfg.iteration.budget,
        agent::expanded_map(i.cfg.agent.env@, vars).insert(i.cfg.agent.workdir_var@, i.wt()),
        match i.cfg.agent.stdin {
            config::AgentStdin::Nothing => None,
            config::AgentStdin::Prompt => Some(i.file("prompt.md"@)),
        },
    )
}

/// How the summarizing agent is started, outside the worktree.
pub open spec fn summarizer(i: IterationInputs, vars: Map<Seq<char>, Seq<char>>) -> Launch {
    summarizer_launch(*i.cfg, i.dir(), i.iter, vars)
}

/// How the summarizing agent is started for the iteration in a directory.
pub open spec fn summarizer_launch(
    cfg: Config,
    dir: Seq<char>,
    iter: u64,
    vars: Map<Seq<char>, Seq<char>>,
) -> Launch {
    let prompt_file = path_joined(dir, "summary-prompt.md"@);
    subproc::shell_launch(
        agent::substituted(cfg.summarize.command@, prompt_file, dir, iter as nat),
        dir,
        cfg.summarize.timeout,
        agent::expanded_map(cfg.agent.env@, vars).insert(cfg.agent.workdir_var@, dir),
        match cfg.summarize.stdin {
            config::AgentStdin::Nothing => None,
            config::AgentStdin::Prompt => Some(prompt_file),
        },
    )
}

/// The child that runs the summarizing agent.
pub fn summarizer_invocation(cfg: &Config, dir: &str, iter: u64, vars: &EnvMap) -> (r: Invocation)
    ensures
        r@ == summarizer_launch(*cfg, dir@, iter, vars@),
{
    let prompt_file = path_join(dir, "summary-prompt.md");
    agent::agent_invocation(
        &AgentSpec {
            command_template: cfg.summarize.command.as_str(),
            prompt_file: prompt_file.as_str(),
            workdir: dir,
            iter,
            budget: cfg.summarize.timeout,
            workdir_var: cfg.agent.workdir_var.as_str(),
            env: &cfg.agent.env,
            stdin: cfg.summarize.stdin,
        },
        vars,
    )
}

/// The run of a command round the agent; none where the command is blank.
pub open spec fn hook(command: Seq<char>, wt: Seq<char>, timeout: Duration) -> Seq<Task> {
    if config::blank(command) {
        Seq::empty()
    } else {
        seq![
            Task::Run(
                subproc::shell_launch(command, wt, timeout, Map::<Seq<char>, Seq<char>>::empty(), None),
            ),
        ]
    }
}

fn add_hook(plan: &mut Vec<Deed>, command: &str, wt: &str, timeout: Duration)
    ensures
        tasks(final(plan)@) == tasks(old(plan)@) + hook(command@, wt@, timeout),
{
    if !text::is_blank(command) {
        let ghost before = tasks(plan@);
        let run = subproc::shell_invocation(command, wt, timeout, EnvMap::new(), None);
        add_deed(plan, Deed::Run(run));
        assert(tasks(plan@) =~= before + hook(command@, wt@, timeout));
    } else {
        assert(tasks(plan@) =~= tasks(plan@) + hook(command@, wt@, timeout));
    }
}

/// The plan up to the end of the worker agent.
pub open spec fn opening(i: IterationInputs, vars: Map<Seq<char>, Seq<char>>) -> Seq<Task> {
    seq![
        Task::MakeDir(i.paths.home()),
        Task::Checkpoint(CurrentStep::AllocateIter),
        Task::MakeDir(i.dir()),
        Task::Checkpoint(CurrentStep::CreateWorktree),
        Task::Git(
            Call {
                args: seq!["worktree"@, "add"@, "--detach"@, i.wt(), i.branch@],
                cwd: i.git.root(),
            },
        ),
        Task::Checkpoint(CurrentStep::RunSetup),
    ] + hook(i.cfg.setup.command@, i.wt(), i.cfg.setup.timeout) + seq![
        Task::Checkpoint(CurrentStep::BuildPrompt),
        Task::Write(i.file("prompt.md"@), prompt::prompt_text(prompt_context(i))),
        Task::Checkpoint(CurrentStep::InvokeAgent),
        Task::Run(worker(i, vars)),
    ]
}

/// The plan that captures the changes.
pub open spec fn capturing(i: IterationInputs, stdout: Seq<char>, stderr: Seq<char>) -> Seq<Task> {
    seq![
        Task::Write(i.file("agent.stdout"@), stdout),
        Task::Write(i.file("agent.stderr"@), stderr),
        Task::Checkpoint(CurrentStep::CaptureDiff),
        Task::Git(Call { args: seq!["add"@, "-A"@], cwd: i.wt() }),
        Task::Git(Call { args: seq!["diff"@, i.branch@], cwd: i.wt() }),
    ]
}

/// The plan that keeps the changes and lists their paths.
pub open spec fn listing(i: IterationInputs, diff: Seq<char>) -> Seq<Task> {
    seq![
        Task::Write(i.file("changes.diff"@), diff),
        Task::Git(Call { args: seq!["diff"@, "--name-only"@, i.branch@], cwd: i.wt() }),
    ]
}

/// The plan that takes the changes off the stage again.
pub open spec fn unstaging(i: IterationInputs) -> Seq<Task> {
    seq![Task::Git(Call { args: seq!["reset"@], cwd: i.wt() })]
}

/// The plan up to the end of the objective command.
pub open spec fn scoring_plan(i: IterationInputs) -> Seq<Task> {
    seq![Task::Checkpoint(CurrentStep::RunTeardown)] + hook(
        i.cfg.teardown.command@,
        i.wt(),
        i.cfg.teardown.timeout,
    ) + seq![
        Task::Checkpoint(CurrentStep::Score),
        Task::Run(
            subproc::shell_launch(
                i.cfg.objective.command@,
                i.wt(),
                i.cfg.objective.timeout,
                Map::<Seq<char>, Seq<char>>::empty(),
                None,
            ),
        ),
    ]
}

/// The plan that ends an iteration.
pub open spec fn closing(i: IterationInputs) -> Seq<Task> {
    seq![Task::Checkpoint(CurrentStep::Cleanup)] + (if i.cfg.iteration.keep_worktrees {
        Seq::empty()
    } else {
        seq![
            Task::Git(
                Call { args: seq!["worktree"@, "remove"@, "--force"@, i.wt()], cwd: i.git.root() },
            ),
        ]
    }) + seq![Task::Checkpoint(CurrentStep::Record)]
}

/// The message of the commit that keeps an improvement.
pub open spec fn is_merge_message(msg: Seq<char>, iter: u64, s: Score) -> bool {
    exists|t: Seq<char>| #[trigger]
        shortest::shows(t, s) && msg == "autorize iter "@ + text::dec(iter as nat) + ": score "@ + t
}

/// Writes the message of the commit that keeps an improvement.
pub fn merge_message(iter: u64, s: &Score) -> (r: String)
    ensures
        is_merge_message(r@, iter, *s),
{
    let mut out = text::owned("autorize iter ");
    out.push_str(text::dec_string(iter).as_str());
    out.push_str(": score ");
    out.push_str(s.shown().as_str());
    out
}

/// Where an iteration stands: the plan that was handed out last.
#[derive(Debug, Clone, Copy, PartialEq, Eq, Structural)]
pub enum Phase {
    Opening,
    Capturing,
    Listing,
    Unstaging,
    Scoring,
    Deciding,
    Committing,
    Advancing,
    Summarizing,
    Closing,
}

/// An iteration under way.
#[derive(Debug)]
pub struct Attempt {
    pub phase: Phase,
    pub started_at: Timestamp,
    pub agent_exit: Option<i32>,
    pub agent_killed_by_budget: bool,
    pub stdout: String,
    pub stderr: String,
    pub diff: String,
    pub changed: Vec<String>,
    pub scored: Option<ScoreOutput>,
    pub message: String,
    pub replies: Vec<GitReply>,
    pub commit: String,
    pub outcome: Outcome,
    pub score: Option<Score>,
    pub notes: String,
    pub summary: String,
}

/// Whether an outcome and a score belong together, given the best score so far.
pub open spec fn consistent(outcome: Outcome, s: Option<Score>, i: IterationInputs) -> bool {
    &&& s matches Some(v) ==> v.finite()
    &&& match outcome {
        Outcome::Merged => s matches Some(v) && score::improves(
            v,
            i.best_score(),
            i.cfg.objective.direction,
        ),
        Outcome::Discarded => s matches Some(v) && !score::improves(
            v,
            i.best_score(),
            i.cfg.objective.direction,
        ),
        Outcome::Noop | Outcome::Denied | Outcome::Invalid => s is None,
        Outcome::Killed => false,
    }
}

/// Why an iteration ended with an outcome.
pub open spec fn reason(
    outcome: Outcome,
    s: Option<Score>,
    i: IterationInputs,
    denied: Seq<Seq<char>>,
    failure: Seq<char>,
) -> Seq<char> {
    match (outcome, s, i.best) {
        (Outcome::Merged, Some(v), None) => "first valid score: "@ + score::fixed_text(v, 5),
        (Outcome::Merged, Some(v), Some((b, _))) => "improved: "@ + score::fixed_text(v, 5)
            + " from "@ + score::fixed_text(b, 5),
        (Outcome::Discarded, Some(v), Some((b, _))) => "regressed: "@ + score::fixed_text(v, 5)
            + " vs best "@ + score::fixed_text(b, 5) + " ("@ + prompt::direction_word(
            i.cfg.objective.direction,
        ) + ")"@,
        (Outcome::Denied, _, _) => "denied: touched "@ + text::joined(denied, ", "@),
        (Outcome::Invalid, _, _) => "invalid: "@ + failure,
        (Outcome::Noop, _, _) => "no changes produced"@,
        _ => Seq::empty(),
    }
}

/// Whether the summarizing agent is asked about an iteration.
pub open spec fn summarizes(i: IterationInputs, outcome: Outcome) -> bool {
    i.cfg.summarize.enabled && outcome != Outcome::Noop
}

/// The best score after an iteration.
pub open spec fn best_after(i: IterationInputs, outcome: Outcome, s: Option<Score>) -> Option<
    (Score, u64),
> {
    match (outcome, s) {
        (Outcome::Merged, Some(v)) => Some((v, i.iter)),
        _ => i.best,
    }
}

/// Whether a text is the summarizing agent's prompt for an iteration.
pub open spec fn is_summary_prompt(
    t: Seq<char>,
    i: IterationInputs,
    a: Attempt,
) -> bool {
    exists|c: SummaryContext|
        {
            &&& c.iter == i.iter
            &&& c.outcome == a.outcome
            &&& c.score == a.score
            &&& c.best == best_after(i, a.outcome, a.score)
            &&& c.direction == i.cfg.objective.direction
            &&& c.diff@ == a.diff@
            &&& c.stdout_tail@ == a.stdout@
            &&& c.stderr_tail@ == a.stderr@
            &&& t == #[trigger] prompt::summary_prompt_text(c)
        }
}

/// Whether `p` is the plan for an iteration whose outcome is known: the summary
/// first where there is to be one.
pub open spec fn is_conclusion(
    p: Seq<Task>,
    i: IterationInputs,
    a: Attempt,
    vars: Map<Seq<char>, Seq<char>>,
) -> bool {
    if summarizes(i, a.outcome) {
        &&& a.phase == Phase::Summarizing
        &&& p.len() == 2
        &&& p[0] matches Task::TryWrite(f, t) && f == i.file("summary-prompt.md"@)
            && is_summary_prompt(t, i, a)
        &&& p[1] == Task::Run(summarizer(i, vars))
    } else {
        a.phase == Phase::Closing && p == closing(i)
    }
}

/// The summary that the summarizing agent's output is: none where the agent
/// failed in any way.
pub open spec fn summary_of(out: Result<CommandOutput, Error>) -> Seq<char> {
    match out {
        Ok(o) => if !o.timed_out && o.exit_code == Some(0i32) {
            text::trimmed(o.stdout@)
        } else {
            Seq::empty()
        },
        Err(_) => Seq::empty(),
    }
}

/// Reads the summary off the summarizing agent's output.
pub fn read_summary(out: &Result<CommandOutput, Error>) -> (r: String)
    ensures
        r@ == summary_of(*out),
{
    match out {
        Ok(o) => {
            let clean = match o.exit_code {
                Some(c) => c == 0,
                None => false,
            };
            if !o.timed_out && clean {
                text::trim(o.stdout.as_str())
            } else {
                String::new()
            }
        },
        Err(_) => String::new(),
    }
}

/// The git commands of a commit, one after the other.
pub open spec fn commit_commands(wt: Seq<char>, msg: Seq<char>) -> Seq<Call> {
    seq![
        Call { args: seq!["add"@, "-A"@], cwd: wt },
        worktree::commit_command(wt, msg),
        Call { args: seq!["rev-parse"@, "HEAD"@], cwd: wt },
    ]
}

/// The command that points the tracking branch at a commit.
pub open spec fn advance_command(i: IterationInputs, commit: Seq<char>) -> Call {
    Call { args: seq!["update-ref"@, "refs/heads/"@ + i.branch@, commit], cwd: i.git.root() }
}

/// The changed paths that the boundaries deny.
pub open spec fn denied_in(i: IterationInputs, changed: Seq<Seq<char>>) -> Seq<Seq<char>> {
    let globs = text::texts(i.cfg.boundaries.deny_paths@);
    if globs.len() == 0 {
        Seq::empty()
    } else {
        worktree::denied_paths(globs, changed)
    }
}

/// Why the boundaries cannot be checked, where they cannot.
pub open spec fn boundary_fault(i: IterationInputs) -> Option<Seq<char>> {
    let globs = text::texts(i.cfg.boundaries.deny_paths@);
    if globs.len() == 0 {
        None
    } else {
        worktree::globs_fault(globs)
    }
}

/// The score that counts for an attempt, where one does.
pub open spec fn counted(so: ScoreOutput, i: IterationInputs) -> Option<Score> {
    match so.score {
        Some(s) => Some(s),
        None => if i.cfg.objective.fail_mode == config::FailMode::Worst {
            Some(scoring::worst(i.cfg.objective.direction))
        } else {
            None
        },
    }
}

impl Attempt {
    /// What holds of an iteration in each phase. There is no summary unless the
    /// summarizing agent was asked and has ended.
    pub open spec fn wf(self, i: IterationInputs) -> bool {
        &&& (self.phase != Phase::Closing || !summarizes(i, self.outcome)) ==> self.summary@.len()
            == 0
        &&& match self.phase {
            Phase::Opening | Phase::Capturing | Phase::Listing | Phase::Unstaging
            | Phase::Scoring => self.score is None,
            Phase::Deciding => self.score is None && (self.scored matches Some(so) && (
            so.score matches Some(s) ==> s.finite())),
            Phase::Committing => {
                &&& consistent(Outcome::Merged, self.score, i)
                &&& self.score matches Some(s) && is_merge_message(self.message@, i.iter, s)
                &&& self.replies@.len() <= 2
                &&& forall|k: int| 0 <= k < self.replies@.len() ==> (#[trigger] self.replies@[k]).success
            },
            Phase::Advancing => consistent(Outcome::Merged, self.score, i),
            Phase::Summarizing => consistent(self.outcome, self.score, i) && summarizes(
                i,
                self.outcome,
            ),
            Phase::Closing => consistent(self.outcome, self.score, i),
        }
    }

    /// What the plan handed out last brings.
    pub open spec fn awaits(self, h: Harvest) -> bool {
        match self.phase {
            Phase::Opening | Phase::Scoring | Phase::Summarizing => h is Output,
            Phase::Capturing | Phase::Listing | Phase::Unstaging | Phase::Committing
            | Phase::Advancing => h is Reply,
            Phase::Deciding => h is Nothing,
            Phase::Closing => false,
        }
    }

    /// What the agent did is kept, and so is the summary.
    pub open spec fn keeps_agent(self, later: Attempt) -> bool {
        &&& later.started_at == self.started_at
        &&& later.agent_exit == self.agent_exit
        &&& later.agent_killed_by_budget == self.agent_killed_by_budget
        &&& later.stdout == self.stdout
        &&& later.stderr == self.stderr
        &&& later.summary == self.summary
    }

    /// What the agent did and changed is kept, and so is the summary.
    pub open spec fn keeps_changes(self, later: Attempt) -> bool {
        self.keeps_agent(later) && later.diff == self.diff && later.changed == self.changed
    }

    /// Whether `later` and the plan `p` conclude the iteration with an outcome.
    pub open spec fn concludes(
        self,
        later: Attempt,
        p: Seq<Task>,
        i: IterationInputs,
        vars: Map<Seq<char>, Seq<char>>,
        outcome: Outcome,
        s: Option<Score>,
        failure: Seq<char>,
    ) -> bool {
        &&& self.keeps_changes(later)
        &&& later.outcome == outcome
        &&& later.score == s
        &&& later.notes@ == reason(
            outcome,
            s,
            i,
            denied_in(i, text::texts(self.changed@)),
            failure,
        )
        &&& is_conclusion(p, i, later, vars)
    }

    /// What follows the worker agent's end.
    pub open spec fn after_agent(
        self,
        later: Attempt,
        i: IterationInputs,
        out: Result<CommandOutput, Error>,
        r: Result<Vec<Deed>, Error>,
    ) -> bool {
        match out {
            Err(e) => r == Err::<Vec<Deed>, Error>(e),
            Ok(o) => {
                &&& later == (Attempt {
                    phase: Phase::Capturing,
                    agent_exit: o.exit_code,
                    agent_killed_by_budget: o.timed_out,
                    stdout: o.stdout,
                    stderr: o.stderr,
                    ..self
                })
                &&& r matches Ok(p) && tasks(p@) == capturing(i, o.stdout@, o.stderr@)
            },
        }
    }

    /// What follows the listing of the changes.
    pub open spec fn after_diff(
        self,
        later: Attempt,
        i: IterationInputs,
        reply: GitReply,
        r: Result<Vec<Deed>, Error>,
    ) -> bool {
        if reply.success {
            &&& self.keeps_agent(later)
            &&& later.phase == Phase::Listing
            &&& later.diff@ == reply.stdout@
            &&& r matches Ok(p) && tasks(p@) == listing(i, reply.stdout@)
        } else {
            worktree::is_failure(r, Call { args: seq!["diff"@, i.branch@], cwd: i.wt() }, reply)
        }
    }

    /// What follows the listing of the changed paths.
    pub open spec fn after_paths(
        self,
        later: Attempt,
        i: IterationInputs,
        reply: GitReply,
        r: Result<Vec<Deed>, Error>,
    ) -> bool {
        if reply.success {
            &&& self.keeps_agent(later)
            &&& later.diff == self.diff
            &&& later.phase == Phase::Unstaging
            &&& text::texts(later.changed@) == worktree::told_paths(reply.stdout@)
            &&& r matches Ok(p) && tasks(p@) == unstaging(i)
        } else {
            worktree::is_failure(
                r,
                Call { args: seq!["diff"@, "--name-only"@, i.branch@], cwd: i.wt() },
                reply,
            )
        }
    }

    /// What follows the capture: nothing changed, a boundary touched, or an
    /// attempt to be scored.
    pub open spec fn after_capture(
        self,
        later: Attempt,
        i: IterationInputs,
        vars: Map<Seq<char>, Seq<char>>,
        reply: GitReply,
        r: Result<Vec<Deed>, Error>,
    ) -> bool {
        let changed = text::texts(self.changed@);
        if !reply.success {
            worktree::is_failure(r, Call { args: seq!["reset"@], cwd: i.wt() }, reply)
        } else if boundary_fault(i) is Some {
            r matches Err(Error::Glob(m)) && boundary_fault(i) == Some(m@)
        } else if changed.len() == 0 {
            r matches Ok(p) && self.concludes(
                later,
                tasks(p@),
                i,
                vars,
                Outcome::Noop,
                None,
                Seq::empty(),
            )
        } else if denied_in(i, changed).len() > 0 {
            r matches Ok(p) && self.concludes(
                later,
                tasks(p@),
                i,
                vars,
                Outcome::Denied,
                None,
                Seq::empty(),
            )
        } else {
            &&& self.keeps_changes(later)
            &&& later.score is None
            &&& later.phase == Phase::Scoring
            &&& r matches Ok(p) && tasks(p@) == scoring_plan(i)
        }
    }

    /// What follows the objective command's end.
    pub open spec fn after_score(
        self,
        later: Attempt,
        i: IterationInputs,
        out: Result<CommandOutput, Error>,
        r: Result<Vec<Deed>, Error>,
    ) -> bool {
        match r {
            Err(e) => scoring::is_scored(out, i.cfg.objective.parse, Err(e)),
            Ok(p) => {
                &&& self.keeps_changes(later)
                &&& later.score is None
                &&& later.phase == Phase::Deciding
                &&& later.scored matches Some(so) && scoring::is_scored(
                    out,
                    i.cfg.objective.parse,
                    Ok(so),
                )
                &&& tasks(p@) == seq![Task::Checkpoint(CurrentStep::Decide)]
            },
        }
    }

    /// What the score leads to.
    pub open spec fn after_decision(
        self,
        later: Attempt,
        i: IterationInputs,
        vars: Map<Seq<char>, Seq<char>>,
        r: Result<Vec<Deed>, Error>,
    ) -> bool {
        let so = self.scored.unwrap();
        match counted(so, i) {
            None => if i.cfg.objective.fail_mode == config::FailMode::Abort {
                r matches Err(Error::Config(m)) && m@ == "scoring abort: "@ + scoring::abort_text(
                    so.failure,
                )
            } else {
                r matches Ok(p) && self.concludes(
                    later,
                    tasks(p@),
                    i,
                    vars,
                    Outcome::Invalid,
                    None,
                    scoring::abort_text(so.failure),
                )
            },
            Some(s) => if score::improves(s, i.best_score(), i.cfg.objective.direction) {
                &&& self.keeps_changes(later)
                &&& later.phase == Phase::Committing
                &&& later.score == Some(s)
                &&& is_merge_message(later.message@, i.iter, s)
                &&& later.replies@.len() == 0
                &&& r matches Ok(p) && tasks(p@) == seq![
                    Task::Checkpoint(CurrentStep::Merge),
                    Task::Git(commit_commands(i.wt(), later.message@)[0]),
                ]
            } else {
                &&& r matches Ok(p) && tasks(p@).len() > 0 && tasks(p@)[0] == Task::Checkpoint(
                    CurrentStep::Discard,
                ) && self.concludes(
                    later,
                    tasks(p@).skip(1),
                    i,
                    vars,
                    Outcome::Discarded,
                    Some(s),
                    Seq::empty(),
                )
            },
        }
    }

    /// What follows each command of the commit.
    pub open spec fn after_commit(
        self,
        later: Attempt,
        i: IterationInputs,
        reply: GitReply,
        r: Result<Vec<Deed>, Error>,
    ) -> bool {
        let n = self.replies@.len() as int;
        let commands = commit_commands(i.wt(), self.message@);
        if !reply.success {
            worktree::is_failure(r, commands[n], reply)
        } else {
            &&& self.keeps_changes(later)
            &&& later.score == self.score
            &&& if n < 2 {
                &&& later.phase == Phase::Committing
                &&& later.message == self.message
                &&& later.replies@ == self.replies@.push(reply)
                &&& r matches Ok(p) && tasks(p@) == seq![Task::Git(commands[n + 1])]
            } else {
                &&& later.phase == Phase::Advancing
                &&& later.commit@ == text::trimmed(reply.stdout@)
                &&& r matches Ok(p) && tasks(p@) == seq![
                    Task::Git(advance_command(i, later.commit@)),
                ]
            }
        }
    }

    /// What follows the advance of the tracking branch.
    pub open spec fn after_advance(
        self,
        later: Attempt,
        i: IterationInputs,
        vars: Map<Seq<char>, Seq<char>>,
        reply: GitReply,
        r: Result<Vec<Deed>, Error>,
    ) -> bool {
        if !reply.success {
            worktree::is_failure(r, advance_command(i, self.commit@), reply)
        } else {
            r matches Ok(p) && self.concludes(
                later,
                tasks(p@),
                i,
                vars,
                Outcome::Merged,
                self.score,
                Seq::empty(),
            )
        }
    }

    /// What follows the summarizing agent's end.
    pub open spec fn after_summary(
        self,
        later: Attempt,
        i: IterationInputs,
        out: Result<CommandOutput, Error>,
        r: Result<Vec<Deed>, Error>,
    ) -> bool {
        &&& later == (Attempt { phase: Phase::Closing, summary: later.summary, ..self })
        &&& later.summary@ == summary_of(out)
        &&& r matches Ok(p) && tasks(p@) == (if summary_of(out).len() == 0 {
            Seq::empty()
        } else {
            seq![Task::TryWrite(i.file("summary.md"@), summary_of(out))]
        }) + closing(i)
    }

    /// What follows what the last plan brought.
    pub open spec fn advanced(
        self,
        later: Attempt,
        i: IterationInputs,
        vars: Map<Seq<char>, Seq<char>>,
        h: Harvest,
        r: Result<Vec<Deed>, Error>,
    ) -> bool {
        match (self.phase, h) {
            (Phase::Opening, Harvest::Output(o)) => self.after_agent(later, i, o, r),
            (Phase::Capturing, Harvest::Reply(g)) => self.after_diff(later, i, g, r),
            (Phase::Listing, Harvest::Reply(g)) => self.after_paths(later, i, g, r),
            (Phase::Unstaging, Harvest::Reply(g)) => self.after_capture(later, i, vars, g, r),
            (Phase::Scoring, Harvest::Output(o)) => self.after_score(later, i, o, r),
            (Phase::Deciding, Harvest::Nothing) => self.after_decision(later, i, vars, r),
            (Phase::Committing, Harvest::Reply(g)) => self.after_commit(later, i, g, r),
            (Phase::Advancing, Harvest::Reply(g)) => self.after_advance(later, i, vars, g, r),
            (Phase::Summarizing, Harvest::Output(o)) => self.after_summary(later, i, o, r),
            _ => true,
        }
    }

    /// Begins an iteration.
    pub fn begin(i: &IterationInputs, vars: &EnvMap, now: Timestamp) -> (r: (Attempt, Vec<Deed>))
        ensures
            r.0.phase == Phase::Opening,
            r.0.started_at == now,
            r.0.wf(*i),
            tasks(r.1@) == opening(*i, vars@),
    {
        let wt = i.wt_path();
        let mut plan = no_deeds();
        add_deed(&mut plan, Deed::MakeDir(i.paths.root()));
        add_deed(&mut plan, Deed::Checkpoint(CurrentStep::AllocateIter));
        add_deed(&mut plan, Deed::MakeDir(i.dir_path()));
        add_deed(&mut plan, Deed::Checkpoint(CurrentStep::CreateWorktree));
        add_deed(&mut plan, Deed::Git(i.git.worktree_add_detached_call(wt.as_str(), i.branch)));
        add_deed(&mut plan, Deed::Checkpoint(CurrentStep::RunSetup));
        add_hook(&mut plan, i.cfg.setup.command.as_str(), wt.as_str(), i.cfg.setup.timeout);
        add_deed(&mut plan, Deed::Checkpoint(CurrentStep::BuildPrompt));
        let best = match (i.best, i.best_diff) {
            (Some((score, iter)), Some(diff)) => Some(BestSnapshot { iter, score, diff }),
            _ => None,
        };
        let prompt_text = prompt::build_prompt(
            &PromptContext {
                program_md: i.program_md,
                boundaries: &i.cfg.boundaries,
                guidance: i.guidance,
                recent: i.recent,
                best,
                iter: i.iter,
                budget: i.cfg.iteration.budget,
                direction: i.cfg.objective.direction,
            },
        );
        let prompt_file = i.file_path("prompt.md");
        add_deed(&mut plan, Deed::Write(i.file_path("prompt.md"), prompt_text));
        add_deed(&mut plan, Deed::Checkpoint(CurrentStep::InvokeAgent));
        let run = agent::agent_invocation(
            &AgentSpec {
                command_template: i.cfg.agent.command.as_str(),
                prompt_file: prompt_file.as_str(),
                workdir: wt.as_str(),
                iter: i.iter,
                budget: i.cfg.iteration.budget,
                workdir_var: i.cfg.agent.workdir_var.as_str(),
                env: &i.cfg.agent.env,
                stdin: i.cfg.agent.stdin,
            },
            vars,
        );
        add_deed(&mut plan, Deed::Run(run));
        assert(tasks(plan@) =~= opening(*i, vars@));
        (
            Attempt {
                phase: Phase::Opening,
                started_at: now,
                agent_exit: None,
                agent_killed_by_budget: false,
                stdout: String::new(),
                stderr: String::new(),
                diff: String::new(),
                changed: Vec::new(),
                scored: None,
                message: String::new(),
                replies: Vec::new(),
                commit: String::new(),
                outcome: Outcome::Noop,
                score: None,
                notes: String::new(),
                summary: String::new(),
            },
            plan,
        )
    }

    fn take_agent(&mut self, i: &IterationInputs, out: Result<CommandOutput, Error>) -> (r: Result<
        Vec<Deed>,
        Error,
    >)
        requires
            old(self).score is None,
            old(self).summary@.len() == 0,
        ensures
            old(self).after_agent(*final(self), *i, out, r),
            r is Ok ==> final(self).wf(*i),
    {
        let o = match out {
            Ok(o) => agent::agent_output(o),
            Err(e) => {
                return Err(e);
            },
        };
        let wt = i.wt_path();
        let mut plan = no_deeds();
        add_deed(&mut plan, Deed::Write(i.file_path("agent.stdout"), text::owned(o.stdout.as_str())));
        add_deed(&mut plan, Deed::Write(i.file_path("agent.stderr"), text::owned(o.stderr.as_str())));
        add_deed(&mut plan, Deed::Checkpoint(CurrentStep::CaptureDiff));
        add_deed(&mut plan, Deed::Git(i.git.stage_all_in_call(wt.as_str())));
        add_deed(&mut plan, Deed::Git(i.git.diff_against_call(wt.as_str(), i.branch)));
        assert(tasks(plan@) =~= capturing(*i, o.stdout@, o.stderr@));
        self.phase = Phase::Capturing;
        self.agent_exit = o.exit_code;
        self.agent_killed_by_budget = o.killed_by_budget;
        self.stdout = o.stdout;
        self.stderr = o.stderr;
        Ok(plan)
    }

    fn take_diff(&mut self, i: &IterationInputs, reply: &GitReply) -> (r: Result<Vec<Deed>, Error>)
        requires
            old(self).score is None,
            old(self).summary@.len() == 0,
        ensures
            old(self).after_diff(*final(self), *i, *reply, r),
            r is Ok ==> final(self).wf(*i),
    {
        let wt = i.wt_path();
        let diff = match i.git.diff_against(wt.as_str(), i.branch, reply) {
            Ok(d) => d,
            Err(e) => {
                return Err(e);
            },
        };
        let mut plan = no_deeds();
        add_deed(&mut plan, Deed::Write(i.file_path("changes.diff"), text::owned(diff.as_str())));
        add_deed(&mut plan, Deed::Git(i.git.diff_paths_against_call(wt.as_str(), i.branch)));
        assert(tasks(plan@) =~= listing(*i, reply.stdout@));
        self.phase = Phase::Listing;
        self.diff = diff;
        Ok(plan)
    }

    fn take_paths(&mut self, i: &IterationInputs, reply: &GitReply) -> (r: Result<Vec<Deed>, Error>)
        requires
            old(self).score is None,
            old(self).summary@.len() == 0,
        ensures
            old(self).after_paths(*final(self), *i, *reply, r),
            r is Ok ==> final(self).wf(*i),
    {
        let wt = i.wt_path();
        let changed = match i.git.diff_paths_against(wt.as_str(), i.branch, reply) {
            Ok(c) => c,
            Err(e) => {
                return Err(e);
            },
        };
        self.phase = Phase::Unstaging;
        self.changed = changed;
        Ok(one_deed(Deed::Git(i.git.unstage_all_in_call(wt.as_str()))))
    }

    fn take_capture(&mut self, i: &IterationInputs, vars: &EnvMap, reply: &GitReply) -> (r: Result<
        Vec<Deed>,
        Error,
    >)
        requires
            old(self).score is None,
            old(self).summary@.len() == 0,
        ensures
            old(self).after_capture(*final(self), *i, vars@, *reply, r),
            r is Ok ==> final(self).wf(*i),
    {
        let wt = i.wt_path();
        if let Err(e) = worktree::run_git_unit(&i.git.unstage_all_in_call(wt.as_str()), reply) {
            return Err(e);
        }
        let denied = match worktree::deny_path_matches(
            &self.changed,
            &i.cfg.boundaries.deny_paths,
        ) {
            Ok(d) => d,
            Err(e) => {
                return Err(e);
            },
        };
        assert(text::texts(denied@) =~= denied_in(*i, text::texts(self.changed@)));
        if self.changed.len() == 0 {
            return Ok(
                self.conclude(
                    i,
                    vars,
                    Outcome::Noop,
                    None,
                    text::owned("no changes produced"),
                    Ghost(Seq::empty()),
                ),
            );
        }
        if denied.len() > 0 {
            let mut notes = text::owned("denied: touched ");
            notes.push_str(text::join(&denied, ", ").as_str());
            return Ok(
                self.conclude(i, vars, Outcome::Denied, None, notes, Ghost(Seq::empty())),
            );
        }
        let mut plan = no_deeds();
        add_deed(&mut plan, Deed::Checkpoint(CurrentStep::RunTeardown));
        add_hook(&mut plan, i.cfg.teardown.command.as_str(), wt.as_str(), i.cfg.teardown.timeout);
        add_deed(&mut plan, Deed::Checkpoint(CurrentStep::Score));
        let run = subproc::shell_invocation(
            i.cfg.objective.command.as_str(),
            wt.as_str(),
            i.cfg.objective.timeout,
            EnvMap::new(),
            None,
        );
        add_deed(&mut plan, Deed::Run(run));
        assert(tasks(plan@) =~= scoring_plan(*i));
        self.phase = Phase::Scoring;
        Ok(plan)
    }

    fn take_score(&mut self, i: &IterationInputs, out: Result<CommandOutput, Error>) -> (r: Result<
        Vec<Deed>,
        Error,
    >)
        requires
            old(self).score is None,
            old(self).summary@.len() == 0,
        ensures
            old(self).after_score(*final(self), *i, out, r),
            r is Ok ==> final(self).wf(*i),
    {
        match scoring::score(out, &i.cfg.objective) {
            Err(e) => Err(e),
            Ok(so) => {
                self.scored = Some(so);
                self.phase = Phase::Deciding;
                Ok(one_deed(Deed::Checkpoint(CurrentStep::Decide)))
            },
        }
    }

    fn take_decision(&mut self, i: &IterationInputs, vars: &EnvMap) -> (r: Result<Vec<Deed>, Error>)
        requires
            old(self).phase == Phase::Deciding,
            old(self).wf(*i),
        ensures
            old(self).after_decision(*final(self), *i, vars@, r),
            r is Ok ==> final(self).wf(*i),
    {
        let so = match &self.scored {
            Some(so) => so,
            None => {
                return Ok(no_deeds());
            },
        };
        let s = match scoring::apply_fail_mode(so, &i.cfg.objective) {
            ScoreDecision::Abort(reason) => {
                let mut m = text::owned("scoring abort: ");
                m.push_str(reason.as_str());
                return Err(Error::Config(m));
            },
            ScoreDecision::Discard => {
                let detail = match &so.failure {
                    Some(f) => scoring::describe_failure(f),
                    None => text::owned("no score"),
                };
                let mut notes = text::owned("invalid: ");
                notes.push_str(detail.as_str());
                return Ok(self.conclude(i, vars, Outcome::Invalid, None, notes, Ghost(detail@)));
            },
            ScoreDecision::Use(s) => s,
        };
        proof {
            score::law_sentinels_are_worst(Score { bits: 0 });
        }
        let direction = i.cfg.objective.direction;
        if score::is_improvement(&s, &i.best_score_of(), direction) {
            let wt = i.wt_path();
            let mut plan = no_deeds();
            add_deed(&mut plan, Deed::Checkpoint(CurrentStep::Merge));
            add_deed(&mut plan, Deed::Git(i.git.stage_all_in_call(wt.as_str())));
            self.message = merge_message(i.iter, &s);
            assert(tasks(plan@) =~= seq![
                Task::Checkpoint(CurrentStep::Merge),
                Task::Git(commit_commands(i.wt(), self.message@)[0]),
            ]);
            self.replies = Vec::new();
            self.score = Some(s);
            self.phase = Phase::Committing;
            return Ok(plan);
        }
        let mut notes = text::owned("regressed: ");
        notes.push_str(s.fixed(5).as_str());
        if let Some((b, _)) = i.best {
            notes.push_str(" vs best ");
            notes.push_str(b.fixed(5).as_str());
            notes.push_str(" (");
            notes.push_str(prompt::direction_label(direction));
            notes.push_str(")");
        }
        let note = one_deed(Deed::Checkpoint(CurrentStep::Discard));
        let rest = self.conclude(
            i,
            vars,
            Outcome::Discarded,
            Some(s),
            notes,
            Ghost(Seq::empty()),
        );
        let ghost end = tasks(rest@);
        let plan = joined_plans(note, rest);
        assert(tasks(plan@).skip(1) =~= end);
        Ok(plan)
    }

    fn take_commit(&mut self, i: &IterationInputs, reply: GitReply) -> (r: Result<Vec<Deed>, Error>)
        requires
            old(self).phase == Phase::Committing,
            old(self).wf(*i),
        ensures
            old(self).after_commit(*final(self), *i, reply, r),
            r is Ok ==> final(self).wf(*i),
    {
        let wt = i.wt_path();
        let ghost n = self.replies@.len() as int;
        let ghost before = self.replies@;
        self.replies.push(reply);
        match i.git.commit_all_in(wt.as_str(), self.message.as_str(), &self.replies) {
            CommitStep::Call(c) => {
                assert(forall|k: int| 0 <= k < n ==> self.replies@[k] == before[k]);
                Ok(one_deed(Deed::Git(c)))
            },
            CommitStep::Done(Err(e)) => Err(e),
            CommitStep::Done(Ok(sha)) => {
                let call = i.git.update_branch_ref_call(i.branch, sha.as_str());
                self.commit = sha;
                self.phase = Phase::Advancing;
                Ok(one_deed(Deed::Git(call)))
            },
        }
    }

    fn take_advance(&mut self, i: &IterationInputs, vars: &EnvMap, reply: &GitReply) -> (r: Result<
        Vec<Deed>,
        Error,
    >)
        requires
            old(self).phase == Phase::Advancing,
            old(self).wf(*i),
        ensures
            old(self).after_advance(*final(self), *i, vars@, *reply, r),
            r is Ok ==> final(self).wf(*i),
    {
        let call = i.git.update_branch_ref_call(i.branch, self.commit.as_str());
        if let Err(e) = worktree::run_git_unit(&call, reply) {
            return Err(e);
        }
        let notes = match (self.score, i.best) {
            (Some(s), None) => {
                let mut notes = text::owned("first valid score: ");
                notes.push_str(s.fixed(5).as_str());
                notes
            },
            (Some(s), Some((b, _))) => {
                let mut notes = text::owned("improved: ");
                notes.push_str(s.fixed(5).as_str());
                notes.push_str(" from ");
                notes.push_str(b.fixed(5).as_str());
                notes
            },
            (None, _) => String::new(),
        };
        let s = self.score;
        Ok(self.conclude(i, vars, Outcome::Merged, s, notes, Ghost(Seq::empty())))
    }

    fn take_summary(&mut self, i: &IterationInputs, out: &Result<CommandOutput, Error>) -> (r:
        Result<Vec<Deed>, Error>)
        requires
            old(self).phase == Phase::Summarizing,
            old(self).wf(*i),
        ensures
            old(self).after_summary(*final(self), *i, *out, r),
            r is Ok,
            final(self).wf(*i),
    {
        let summary = read_summary(out);
        let mut plan = no_deeds();
        if text::chars_of(summary.as_str()).len() > 0 {
            add_deed(
                &mut plan,
                Deed::TryWrite(i.file_path("summary.md"), text::owned(summary.as_str())),
            );
        }
        assert(tasks(plan@) =~= if summary@.len() == 0 {
            Seq::empty()
        } else {
            seq![Task::TryWrite(i.file("summary.md"@), summary@)]
        });
        self.summary = summary;
        self.phase = Phase::Closing;
        Ok(joined_plans(plan, closing_deeds(i)))
    }

    /// Sets the outcome and hands out what remains to be done.
    fn conclude(
        &mut self,
        i: &IterationInputs,
        vars: &EnvMap,
        outcome: Outcome,
        s: Option<Score>,
        notes: String,
        failure: Ghost<Seq<char>>,
    ) -> (p: Vec<Deed>)
        requires
            consistent(outcome, s, *i),
            old(self).summary@.len() == 0,
            notes@ == reason(
                outcome,
                s,
                *i,
                denied_in(*i, text::texts(old(self).changed@)),
                failure@,
            ),
        ensures
            old(self).concludes(*final(self), tasks(p@), *i, vars@, outcome, s, failure@),
            final(self).wf(*i),
    {
        self.outcome = outcome;
        self.score = s;
        self.notes = notes;
        if i.cfg.summarize.enabled && outcome != Outcome::Noop {
            self.phase = Phase::Summarizing;
            let dir = i.dir_path();
            let best = match (outcome, s) {
                (Outcome::Merged, Some(v)) => Some((v, i.iter)),
                _ => i.best,
            };
            let ctx = SummaryContext {
                iter: i.iter,
                outcome,
                score: s,
                best,
                direction: i.cfg.objective.direction,
                diff: self.diff.as_str(),
                stdout_tail: self.stdout.as_str(),
                stderr_tail: self.stderr.as_str(),
            };
            let ask = prompt::build_summary_prompt(&ctx);
            assert(is_summary_prompt(ask@, *i, *self));
            let mut plan = no_deeds();
            add_deed(&mut plan, Deed::TryWrite(i.file_path("summary-prompt.md"), ask));
            let run = summarizer_invocation(i.cfg, dir.as_str(), i.iter, vars);
            add_deed(&mut plan, Deed::Run(run));
            plan
        } else {
            self.phase = Phase::Closing;
            closing_deeds(i)
        }
    }

    /// Takes what the last plan brought and hands out the next one.
    pub fn advance(&mut self, i: &IterationInputs, vars: &EnvMap, h: Harvest) -> (r: Result<
        Vec<Deed>,
        Error,
    >)
        requires
            old(self).wf(*i),
            old(self).awaits(h),
        ensures
            r is Ok ==> final(self).wf(*i),
            old(self).advanced(*final(self), *i, vars@, h, r),
    {
        match (self.phase, h) {
            (Phase::Opening, Harvest::Output(o)) => self.take_agent(i, o),
            (Phase::Capturing, Harvest::Reply(g)) => self.take_diff(i, &g),
            (Phase::Listing, Harvest::Reply(g)) => self.take_paths(i, &g),
            (Phase::Unstaging, Harvest::Reply(g)) => self.take_capture(i, vars, &g),
            (Phase::Scoring, Harvest::Output(o)) => self.take_score(i, o),
            (Phase::Committing, Harvest::Reply(g)) => self.take_commit(i, g),
            (Phase::Advancing, Harvest::Reply(g)) => self.take_advance(i, vars, &g),
            (Phase::Summarizing, Harvest::Output(o)) => self.take_summary(i, &o),
            _ => self.take_decision(i, vars),
        }
    }
}

impl Attempt {
    /// Whether a record is that of the iteration, ended now.
    pub open spec fn recorded(self, i: IterationInputs, now: Timestamp, r: IterationRecord) -> bool {
        &&& r.iter == i.iter
        &&& r.started_at == self.started_at
        &&& r.ended_at == now
        &&& r.outcome == self.outcome
        &&& r.score == self.score
        &&& r.best_so_far == (match best_after(i, self.outcome, self.score) {
            Some((s, _)) => Some(s),
            None => None,
        })
        &&& r.agent_exit == self.agent_exit
        &&& r.agent_killed_by_budget == self.agent_killed_by_budget
        &&& r.diff_lines == text::lines_of(self.diff@).len()
        &&& r.notes == self.notes
        &&& r.summary == self.summary
    }

    /// The record of a finished iteration.
    pub fn record(self, i: &IterationInputs, now: Timestamp) -> (r: IterationRecord)
        requires
            self.phase == Phase::Closing,
            self.wf(*i),
        ensures
            self.recorded(*i, now, r),
            is_record(r, *i),
    {
        let best_so_far = match (self.outcome, self.score) {
            (Outcome::Merged, Some(v)) => Some(v),
            _ => i.best_score_of(),
        };
        let lines = text::lines(self.diff.as_str());
        assert(text::texts(lines@).len() == lines@.len());
        IterationRecord {
            iter: i.iter,
            started_at: self.started_at,
            ended_at: now,
            outcome: self.outcome,
            score: self.score,
            best_so_far,
            agent_exit: self.agent_exit,
            agent_killed_by_budget: self.agent_killed_by_budget,
            diff_lines: lines.len() as u64,
            notes: self.notes,
            summary: self.summary,
        }
    }
}

/// What holds of the record of every finished iteration: it is merged exactly
/// if its score improves on the best one, its score is finite, the best score
/// moves only with a merge, and there is no summary where none was asked for.
pub open spec fn is_record(r: IterationRecord, i: IterationInputs) -> bool {
    &&& r.iter == i.iter
    &&& consistent(r.outcome, r.score, i)
    &&& r.outcome == Outcome::Merged <==> (r.score matches Some(s) && score::improves(
        s,
        i.best_score(),
        i.cfg.objective.direction,
    ))
    &&& r.best_so_far == if r.outcome == Outcome::Merged {
        r.score
    } else {
        i.best_score()
    }
    &&& !summarizes(i, r.outcome) ==> r.summary@.len() == 0
}

/// Notes a step of an iteration in the checkpoint.
pub fn checkpoint(state: &mut StateSnapshot, iter: u64, step: CurrentStep)
    ensures
        *final(state) == (StateSnapshot {
            iter_in_progress: Some(iter),
            current_step: step,
            ..*old(state)
        }),
{
    state.iter_in_progress = Some(iter);
    state.current_step = step;
}

/// The streak of iterations that changed nothing, after one more iteration.
pub open spec fn streak(before: u32, outcome: Outcome) -> u32 {
    if outcome == Outcome::Noop {
        (before + 1) as u32
    } else {
        0
    }
}

/// Room in the counters for one more iteration.
pub open spec fn countable(s: StateSnapshot) -> bool {
    &&& s.iterations_completed < u64::MAX
    &&& s.run_iterations_completed < u64::MAX
    &&& s.consecutive_noops < u32::MAX
}

/// The checkpoint after an iteration was recorded that began with a best score.
pub open spec fn settled(
    s: StateSnapshot,
    r: IterationRecord,
    best: Option<(Score, u64)>,
) -> StateSnapshot {
    StateSnapshot {
        iter_in_progress: None,
        current_step: CurrentStep::Idle,
        iterations_completed: (s.iterations_completed + 1) as u64,
        run_iterations_completed: (s.run_iterations_completed + 1) as u64,
        consecutive_noops: streak(s.consecutive_noops, r.outcome),
        best_score: r.best_so_far,
        best_iter: if r.outcome == Outcome::Merged {
            Some(r.iter)
        } else {
            match best {
                Some((_, n)) => Some(n),
                None => None,
            }
        },
        ..s
    }
}

/// Brings the checkpoint up to a recorded iteration that began with a best
/// score.
pub fn settle(state: &mut StateSnapshot, r: &IterationRecord, best: Option<(Score, u64)>)
    requires
        countable(*old(state)),
    ensures
        *final(state) == settled(*old(state), *r, best),
{
    state.iter_in_progress = None;
    state.current_step = CurrentStep::Idle;
    state.iterations_completed = state.iterations_completed + 1;
    state.run_iterations_completed = state.run_iterations_completed + 1;
    state.consecutive_noops = if r.outcome == Outcome::Noop {
        state.consecutive_noops + 1
    } else {
        0
    };
    state.best_score = r.best_so_far;
    state.best_iter = if r.outcome == Outcome::Merged {
        Some(r.iter)
    } else {
        match best {
            Some((_, n)) => Some(n),
            None => None,
        }
    };
}

/// The best score never gets worse: after an iteration it is what it was, or
/// better; and it moves exactly if the iteration was merged.
pub proof fn law_best_never_worsens(s: StateSnapshot, r: IterationRecord, i: IterationInputs)
    requires
        is_record(r, i),
        i.best_score() == s.best_score,
        i.best_iter() == s.best_iter,
    ensures
        r.outcome != Outcome::Merged ==> {
            &&& settled(s, r, i.best).best_score == s.best_score
            &&& settled(s, r, i.best).best_iter == s.best_iter
        },
        r.outcome == Outcome::Merged ==> (settled(s, r, i.best).best_score matches Some(v)
            && score::improves(v, s.best_score, i.cfg.objective.direction) && settled(
            s,
            r,
            i.best,
        ).best_iter == Some(i.iter)),
        s.best_score matches Some(b) ==> (settled(s, r, i.best).best_score matches Some(v)
            && !b.better(v, i.cfg.objective.direction)),
{
}

/// An iteration is counted once, whatever its outcome; it leaves nothing in
/// progress; and the streak of iterations that changed nothing grows only with
/// another one.
pub proof fn law_iteration_is_counted(
    s: StateSnapshot,
    r: IterationRecord,
    best: Option<(Score, u64)>,
)
    requires
        countable(s),
    ensures
        settled(s, r, best).iterations_completed == s.iterations_completed + 1,
        settled(s, r, best).run_iterations_completed == s.run_iterations_completed + 1,
        settled(s, r, best).iter_in_progress is None,
        settled(s, r, best).consecutive_noops == if r.outcome == Outcome::Noop {
            s.consecutive_noops + 1
        } else {
            0
        },
        settled(s, r, best).deadline == s.deadline,
        settled(s, r, best).base_commit == s.base_commit,
        settled(s, r, best).branch == s.branch,
{
}

/// Whether a git command makes a branch or points it at another commit.
pub open spec fn repoints(c: Call) -> bool {
    c.args.len() > 0 && (c.args[0] == "update-ref"@ || c.args[0] == "branch"@)
}

/// Whether a task makes a branch or points it at another commit.
pub open spec fn moves_branch(t: Task) -> bool {
    t matches Task::Git(c) && repoints(c)
}

proof fn lemma_command_words()
    ensures
        "worktree"@ != "update-ref"@ && "worktree"@ != "branch"@,
        "add"@ != "update-ref"@ && "add"@ != "branch"@,
        "diff"@ != "update-ref"@ && "diff"@ != "branch"@,
        "reset"@ != "update-ref"@ && "reset"@ != "branch"@,
        "-c"@ != "update-ref"@ && "-c"@ != "branch"@,
        "rev-parse"@ != "update-ref"@ && "rev-parse"@ != "branch"@,
{
    reveal_strlit("update-ref");
    reveal_strlit("branch");
    reveal_strlit("worktree");
    reveal_strlit("add");
    reveal_strlit("diff");
    reveal_strlit("reset");
    reveal_strlit("-c");
    reveal_strlit("rev-parse");
    assert("update-ref"@.len() == 10);
    assert("branch"@.len() == 6);
}

proof fn lemma_closing_moves_nothing(i: IterationInputs)
    ensures
        forall|k: int| 0 <= k < closing(i).len() ==> !moves_branch(#[trigger] closing(i)[k]),
{
    lemma_command_words();
}

proof fn lemma_scoring_moves_nothing(i: IterationInputs)
    ensures
        forall|k: int|
            0 <= k < scoring_plan(i).len() ==> !moves_branch(#[trigger] scoring_plan(i)[k]),
{
    let teardown = hook(i.cfg.teardown.command@, i.wt(), i.cfg.teardown.timeout);
    assert forall|k: int| 0 <= k < scoring_plan(i).len() implies !moves_branch(
        #[trigger] scoring_plan(i)[k],
    ) by {
        if 1 <= k < 1 + teardown.len() {
            assert(scoring_plan(i)[k] == teardown[k - 1]);
        }
    }
}

proof fn lemma_conclusion_moves_nothing(
    p: Seq<Task>,
    i: IterationInputs,
    a: Attempt,
    vars: Map<Seq<char>, Seq<char>>,
)
    requires
        is_conclusion(p, i, a, vars),
    ensures
        forall|k: int| 0 <= k < p.len() ==> !moves_branch(#[trigger] p[k]),
{
    lemma_closing_moves_nothing(i);
    assert forall|k: int| 0 <= k < p.len() implies !moves_branch(#[trigger] p[k]) by {
        if summarizes(i, a.outcome) {
            if k == 0 {
                assert(p[0] is TryWrite);
            }
        }
    }
}

/// The tracking branch is moved by no plan but the one that follows a finished
/// commit of a score that improves on the best one.
pub proof fn law_branch_moves_only_on_improvement(
    a: Attempt,
    b: Attempt,
    i: IterationInputs,
    vars: Map<Seq<char>, Seq<char>>,
    h: Harvest,
    p: Vec<Deed>,
    k: int,
)
    requires
        a.wf(i),
        a.awaits(h),
        a.advanced(b, i, vars, h, Ok(p)),
        0 <= k < p@.len(),
        moves_branch(p@[k]@),
    ensures
        b.phase == Phase::Advancing,
        b.score matches Some(s) && score::improves(s, i.best_score(), i.cfg.objective.direction),
        p@[k]@ == Task::Git(advance_command(i, b.commit@)),
{
    lemma_command_words();
    let plan = tasks(p@);
    assert(plan[k] == p@[k]@);
    match a.phase {
        Phase::Opening => {
            assert(plan.len() == 5);
            assert(k == 0 || k == 1 || k == 2 || k == 3 || k == 4);
        },
        Phase::Capturing => {
            assert(plan.len() == 2);
            assert(k == 0 || k == 1);
        },
        Phase::Listing => {
            assert(plan.len() == 1);
        },
        Phase::Unstaging => {
            if b.phase != Phase::Scoring {
                lemma_conclusion_moves_nothing(plan, i, b, vars);
            } else {
                lemma_scoring_moves_nothing(i);
                assert(!moves_branch(scoring_plan(i)[k]));
            }
            assert(!moves_branch(plan[k]));
        },
        Phase::Scoring => {
            assert(plan.len() == 1);
        },
        Phase::Deciding => {
            if b.phase != Phase::Committing {
                if plan[0] == Task::Checkpoint(CurrentStep::Discard) {
                    if k > 0 {
                        assert(plan.skip(1)[k - 1] == plan[k]);
                        if is_conclusion(plan.skip(1), i, b, vars) {
                            lemma_conclusion_moves_nothing(plan.skip(1), i, b, vars);
                        }
                    }
                }
                if is_conclusion(plan, i, b, vars) {
                    lemma_conclusion_moves_nothing(plan, i, b, vars);
                }
            } else {
                assert(plan.len() == 2);
                assert(k == 0 || k == 1);
            }
            assert(!moves_branch(plan[k]));
        },
        Phase::Committing => {
            assert(plan.len() == 1);
        },
        Phase::Advancing => {
            lemma_conclusion_moves_nothing(plan, i, b, vars);
            assert(!moves_branch(plan[k]));
        },
        Phase::Summarizing => {
            lemma_closing_moves_nothing(i);
            assert(!moves_branch(plan[k]));
        },
        Phase::Closing => {},
    }
}

/// The plan an iteration opens with leaves the tracking branch where it is.
pub proof fn law_opening_moves_nothing(i: IterationInputs, vars: Map<Seq<char>, Seq<char>>, k: int)
    requires
        0 <= k < opening(i, vars).len(),
    ensures
        !moves_branch(opening(i, vars)[k]),
{
    lemma_command_words();
}

/// One step of an iteration: what was known, what the last plan brought, what is
/// known then, and the next plan.
pub struct Move {
    pub before: Attempt,
    pub harvest: Harvest,
    pub after: Attempt,
    pub plan: Vec<Deed>,
}

impl Move {
    /// The step is one that an iteration takes, and it did not fail.
    #[verifier::opaque]
    pub open spec fn made(self, i: IterationInputs, vars: Map<Seq<char>, Seq<char>>) -> bool {
        &&& self.before.wf(i)
        &&& self.before.awaits(self.harvest)
        &&& self.before.advanced(self.after, i, vars, self.harvest, Ok(self.plan))
        &&& self.after.wf(i)
    }

    /// Whether the plan moves a branch.
    pub open spec fn moves(self) -> bool {
        exists|d: int| 0 <= d < self.plan@.len() && moves_branch(#[trigger] self.plan@[d]@)
    }
}

/// Whether steps are those of a whole iteration that ends with a record.
pub open spec fn is_attempt(
    i: IterationInputs,
    vars: Map<Seq<char>, Seq<char>>,
    t: Seq<Move>,
    r: IterationRecord,
) -> bool {
    &&& t.len() > 0
    &&& t[0].before.phase == Phase::Opening
    &&& forall|k: int| 0 <= k < t.len() ==> (#[trigger] t[k]).made(i, vars)
    &&& forall|j: int, k: int|
        0 <= j && k == j + 1 && k < t.len() ==> (#[trigger] t[j]).after == (#[trigger] t[k]).before
    &&& t.last().after.phase == Phase::Closing
    &&& exists|now: Timestamp| #[trigger] t.last().after.recorded(i, now, r)
}

/// Whether a whole iteration moves no branch.
pub open spec fn stays_put(
    i: IterationInputs,
    vars: Map<Seq<char>, Seq<char>>,
    t: Seq<Move>,
) -> bool {
    &&& forall|d: int|
        0 <= d < opening(i, vars).len() ==> !moves_branch(#[trigger] opening(i, vars)[d])
    &&& forall|k: int| 0 <= k < t.len() ==> !(#[trigger] t[k]).moves()
}

proof fn lemma_moved_is_merged(
    i: IterationInputs,
    vars: Map<Seq<char>, Seq<char>>,
    t: Seq<Move>,
    r: IterationRecord,
    k: int,
)
    requires
        is_attempt(i, vars, t, r),
        0 <= k < t.len(),
        t[k].moves(),
    ensures
        r.outcome == Outcome::Merged,
{
    reveal(Move::made);
    let d = choose|d: int| 0 <= d < t[k].plan@.len() && moves_branch(#[trigger] t[k].plan@[d]@);
    assert(t[k].made(i, vars));
    law_branch_moves_only_on_improvement(
        t[k].before,
        t[k].after,
        i,
        vars,
        t[k].harvest,
        t[k].plan,
        d,
    );
    assert(k + 1 < t.len());
    let a = t[k + 1];
    assert(a.made(i, vars));
    assert(t[k].after == a.before);
    assert(a.after.outcome == Outcome::Merged);
    if a.after.phase == Phase::Summarizing {
        let b = t[k + 2];
        assert(b.made(i, vars));
        assert(t[k + 1].after == b.before);
        assert(b.after.outcome == Outcome::Merged);
        if k + 3 < t.len() {
            assert(t[k + 3].made(i, vars));
            assert(t[k + 2].after == t[k + 3].before);
        }
    } else if k + 2 < t.len() {
        assert(t[k + 2].made(i, vars));
        assert(t[k + 1].after == t[k + 2].before);
    }
}

/// A whole iteration ends with a record that is true to its score, and one that
/// is not merged leaves every branch where it is.
pub proof fn law_unmerged_iteration_stays_put(
    i: IterationInputs,
    vars: Map<Seq<char>, Seq<char>>,
    t: Seq<Move>,
    r: IterationRecord,
)
    requires
        is_attempt(i, vars, t, r),
    ensures
        is_record(r, i),
        r.outcome != Outcome::Merged ==> stays_put(i, vars, t),
{
    assert(t.last().after.wf(i)) by {
        reveal(Move::made);
        assert(t[t.len() - 1].made(i, vars));
    }
    if r.outcome != Outcome::Merged {
        assert forall|k: int| 0 <= k < t.len() implies !(#[trigger] t[k]).moves() by {
            if t[k].moves() {
                lemma_moved_is_merged(i, vars, t, r, k);
            }
        }
        assert forall|d: int| 0 <= d < opening(i, vars).len() implies !moves_branch(
            #[trigger] opening(i, vars)[d],
        ) by {
            law_opening_moves_nothing(i, vars, d);
        }
    }
}

/// The steps that a plan notes in the checkpoint, in their order.
pub open spec fn steps(p: Seq<Task>) -> Seq<CurrentStep>
    decreases p.len(),
{
    if p.len() == 0 {
        Seq::empty()
    } else {
        match p.last() {
            Task::Checkpoint(s) => steps(p.drop_last()).push(s),
            _ => steps(p.drop_last()),
        }
    }
}

proof fn lemma_steps_join(a: Seq<Task>, b: Seq<Task>)
    ensures
        steps(a + b) == steps(a) + steps(b),
    decreases b.len(),
{
    if b.len() == 0 {
        assert(a + b == a);
        assert(steps(a) + steps(b) =~= steps(a));
    } else {
        assert((a + b).drop_last() == a + b.drop_last());
        lemma_steps_join(a, b.drop_last());
        assert(steps(a + b) =~= steps(a) + steps(b));
    }
}

/// The checkpoints of the plans come in the documented order of the steps.
pub proof fn law_checkpoint_order(
    i: IterationInputs,
    vars: Map<Seq<char>, Seq<char>>,
    stdout: Seq<char>,
    stderr: Seq<char>,
    diff: Seq<char>,
)
    ensures
        steps(opening(i, vars)) == seq![
            CurrentStep::AllocateIter,
            CurrentStep::CreateWorktree,
            CurrentStep::RunSetup,
            CurrentStep::BuildPrompt,
            CurrentStep::InvokeAgent,
        ],
        steps(capturing(i, stdout, stderr)) == seq![CurrentStep::CaptureDiff],
        steps(listing(i, diff)) == Seq::<CurrentStep>::empty(),
        steps(unstaging(i)) == Seq::<CurrentStep>::empty(),
        steps(scoring_plan(i)) == seq![CurrentStep::RunTeardown, CurrentStep::Score],
        steps(closing(i)) == seq![CurrentStep::Cleanup, CurrentStep::Record],
{
    lemma_opening_steps(i, vars);
    lemma_scoring_steps(i);
    lemma_steps_listed(capturing(i, stdout, stderr));
    assert(steps(capturing(i, stdout, stderr)) =~= seq![CurrentStep::CaptureDiff]);
    lemma_steps_listed(listing(i, diff));
    lemma_steps_listed(unstaging(i));
    lemma_steps_listed(closing(i));
    assert(steps(closing(i)) =~= seq![CurrentStep::Cleanup, CurrentStep::Record]);
}

proof fn lemma_opening_steps(i: IterationInputs, vars: Map<Seq<char>, Seq<char>>)
    ensures
        steps(opening(i, vars)) == seq![
            CurrentStep::AllocateIter,
            CurrentStep::CreateWorktree,
            CurrentStep::RunSetup,
            CurrentStep::BuildPrompt,
            CurrentStep::InvokeAgent,
        ],
{
    let setup = hook(i.cfg.setup.command@, i.wt(), i.cfg.setup.timeout);
    lemma_hook_steps(i.cfg.setup.command@, i.wt(), i.cfg.setup.timeout);
    let o = opening(i, vars);
    let first = o.take(6);
    let last = o.skip(6 + setup.len() as int);
    assert(o =~= first + setup + last);
    lemma_steps_join(first + setup, last);
    lemma_steps_join(first, setup);
    lemma_steps_listed(first);
    lemma_steps_listed(last);
    assert(last.len() == 4);
    assert(steps(first) =~= seq![
        CurrentStep::AllocateIter,
        CurrentStep::CreateWorktree,
        CurrentStep::RunSetup,
    ]);
    assert(steps(last) =~= seq![CurrentStep::BuildPrompt, CurrentStep::InvokeAgent]);
    assert(steps(o) =~= seq![
        CurrentStep::AllocateIter,
        CurrentStep::CreateWorktree,
        CurrentStep::RunSetup,
        CurrentStep::BuildPrompt,
        CurrentStep::InvokeAgent,
    ]);
}

proof fn lemma_scoring_steps(i: IterationInputs)
    ensures
        steps(scoring_plan(i)) == seq![CurrentStep::RunTeardown, CurrentStep::Score],
{
    let teardown = hook(i.cfg.teardown.command@, i.wt(), i.cfg.teardown.timeout);
    lemma_hook_steps(i.cfg.teardown.command@, i.wt(), i.cfg.teardown.timeout);
    let sp = scoring_plan(i);
    let head = sp.take(1);
    let tail = sp.skip(1 + teardown.len() as int);
    assert(sp =~= head + teardown + tail);
    lemma_steps_join(head + teardown, tail);
    lemma_steps_join(head, teardown);
    lemma_steps_listed(head);
    lemma_steps_listed(tail);
    assert(steps(head) =~= seq![CurrentStep::RunTeardown]);
    assert(steps(tail) =~= seq![CurrentStep::Score]);
    assert(steps(sp) =~= seq![CurrentStep::RunTeardown, CurrentStep::Score]);
}

proof fn lemma_hook_steps(command: Seq<char>, wt: Seq<char>, timeout: Duration)
    ensures
        steps(hook(command, wt, timeout)) == Seq::<CurrentStep>::empty(),
{
    let h = hook(command, wt, timeout);
    if h.len() > 0 {
        assert(h.drop_last() =~= Seq::empty());
        reveal_with_fuel(steps, 2);
    }
}

proof fn lemma_steps_listed(p: Seq<Task>)
    requires
        p.len() <= 6,
    ensures
        steps(p) == noted(p, 0) + noted(p, 1) + noted(p, 2) + noted(p, 3) + noted(p, 4) + noted(
            p,
            5,
        ),
    decreases p.len(),
{
    if p.len() > 0 {
        let q = p.drop_last();
        lemma_steps_listed(q);
        assert forall|k: int| 0 <= k < q.len() implies noted(q, k) == noted(p, k) by {}
        assert(steps(p) =~= noted(p, 0) + noted(p, 1) + noted(p, 2) + noted(p, 3) + noted(p, 4)
            + noted(p, 5));
    } else {
        assert(steps(p) =~= noted(p, 0) + noted(p, 1) + noted(p, 2) + noted(p, 3) + noted(p, 4)
            + noted(p, 5));
    }
}

spec fn noted(p: Seq<Task>, k: int) -> Seq<CurrentStep> {
    if k < p.len() {
        match p[k] {
            Task::Checkpoint(s) => seq![s],
            _ => Seq::empty(),
        }
    } else {
        Seq::empty()
    }
}

fn closing_deeds(i: &IterationInputs) -> (r: Vec<Deed>)
    ensures
        tasks(r@) == closing(*i),
{
    let mut plan = no_deeds();
    add_deed(&mut plan, Deed::Checkpoint(CurrentStep::Cleanup));
    if !i.cfg.iteration.keep_worktrees {
        let wt = i.wt_path();
        add_deed(&mut plan, Deed::Git(i.git.worktree_remove_call(wt.as_str())));
    }
    add_deed(&mut plan, Deed::Checkpoint(CurrentStep::Record));
    assert(tasks(plan@) =~= closing(*i));
    plan
}

// ---------------------------------------------------------------------------
// Missing summaries
// ---------------------------------------------------------------------------

/// Whether a record is to get a summary: one that could have a summary and has
/// none, or, by force, any that could have one.
pub open spec fn wants_summary(r: IterationRecord, force: bool) -> bool {
    (force || r.summary@.len() == 0) && r.outcome != Outcome::Noop && r.outcome != Outcome::Killed
}

/// Tells whether a record is to get a summary.
pub fn needs_summary(r: &IterationRecord, force: bool) -> (b: bool)
    ensures
        b == wants_summary(*r, force),
{
    (force || text::chars_of(r.summary.as_str()).len() == 0) && r.outcome != Outcome::Noop
        && r.outcome != Outcome::Killed
}

/// The places of the records whose summaries are to be made up for, in their
/// order; none where summaries are not wanted. By force, summaries that are
/// there are made anew.
pub fn missing_summaries(cfg: &Config, records: &Vec<IterationRecord>, force: bool) -> (v: Vec<
    usize,
>)
    ensures
        forall|a: int, b: int| 0 <= a < b < v@.len() ==> v@[a] < v@[b],
        forall|n: usize|
            v@.contains(n) <==> cfg.summarize.enabled && n < records@.len() && wants_summary(
                #[trigger] records@[n as int],
                force,
            ),
{
    let mut v: Vec<usize> = Vec::new();
    if !cfg.summarize.enabled {
        return v;
    }
    let mut i: usize = 0;
    while i < records.len()
        invariant
            i <= records.len(),
            forall|a: int| 0 <= a < v@.len() ==> #[trigger] v@[a] < i,
            forall|a: int, b: int| 0 <= a < b < v@.len() ==> v@[a] < v@[b],
            forall|n: usize|
                v@.contains(n) <==> n < i && wants_summary(#[trigger] records@[n as int], force),
        decreases records.len() - i,
    {
        let ghost before = v@;
        if needs_summary(&records[i], force) {
            v.push(i);
            assert forall|n: usize|
                v@.contains(n) <==> n < i + 1 && wants_summary(#[trigger] records@[n as int], force) by {
                if v@.contains(n) {
                    let a = choose|a: int| 0 <= a < v@.len() && v@[a] == n;
                    if a < before.len() {
                        assert(before[a] == n);
                        assert(before.contains(n));
                    }
                }
                if n < i + 1 && wants_summary(records@[n as int], force) {
                    if n < i {
                        assert(before.contains(n));
                        let a = choose|a: int| 0 <= a < before.len() && before[a] == n;
                        assert(v@[a] == n);
                    } else {
                        assert(v@[before.len() as int] == n);
                    }
                }
            }
        }
        i += 1;
    }
    v
}

/// The last iteration merged among the first `n` records.
pub open spec fn last_merged(records: Seq<IterationRecord>, n: int) -> Option<u64>
    decreases n,
{
    if n <= 0 || n > records.len() {
        None
    } else if records[n - 1].outcome == Outcome::Merged {
        Some(records[n - 1].iter)
    } else {
        last_merged(records, n - 1)
    }
}

/// The best score at a record, with the iteration that reached it.
pub open spec fn best_at(records: Seq<IterationRecord>, n: int) -> Option<(Score, u64)> {
    match (records[n].best_so_far, last_merged(records, n + 1)) {
        (Some(s), Some(i)) => Some((s, i)),
        _ => None,
    }
}

/// Whether a text is the summarizing agent's prompt for a record, made from the
/// iteration's files.
pub open spec fn is_backfill_prompt(
    t: Seq<char>,
    cfg: Config,
    records: Seq<IterationRecord>,
    n: int,
    diff: Seq<char>,
    stdout: Seq<char>,
    stderr: Seq<char>,
) -> bool {
    exists|c: SummaryContext|
        {
            &&& c.iter == records[n].iter
            &&& c.outcome == records[n].outcome
            &&& c.score == records[n].score
            &&& c.best == best_at(records, n)
            &&& c.direction == cfg.objective.direction
            &&& c.diff@ == diff
            &&& c.stdout_tail@ == stdout
            &&& c.stderr_tail@ == stderr
            &&& t == #[trigger] prompt::summary_prompt_text(c)
        }
}

/// Writes the summarizing agent's prompt for a record.
pub fn backfill_prompt(
    cfg: &Config,
    records: &Vec<IterationRecord>,
    n: usize,
    diff: &str,
    stdout: &str,
    stderr: &str,
) -> (r: String)
    requires
        n < records@.len(),
    ensures
        is_backfill_prompt(r@, *cfg, records@, n as int, diff@, stdout@, stderr@),
{
    let mut holder: Option<u64> = None;
    assert(n < records.len());
    let mut k: usize = n + 1;
    while k > 0 && holder.is_none()
        invariant
            k <= n + 1 <= records@.len(),
            holder is None ==> last_merged(records@, n + 1) == last_merged(records@, k as int),
            holder is Some ==> last_merged(records@, n + 1) == holder,
        decreases k + (if holder is None {
            1int
        } else {
            0
        }),
    {
        if records[k - 1].outcome == Outcome::Merged {
            holder = Some(records[k - 1].iter);
        } else {
            k -= 1;
        }
    }
    let best = match (records[n].best_so_far, holder) {
        (Some(s), Some(i)) => Some((s, i)),
        _ => None,
    };
    let ctx = SummaryContext {
        iter: records[n].iter,
        outcome: records[n].outcome,
        score: records[n].score,
        best,
        direction: cfg.objective.direction,
        diff,
        stdout_tail: stdout,
        stderr_tail: stderr,
    };
    prompt::build_summary_prompt(&ctx)
}

/// Puts a summary into a record, where the summarizing agent gave one; tells
/// whether it did.
pub fn fill_summary(
    records: &mut Vec<IterationRecord>,
    n: usize,
    out: &Result<CommandOutput, Error>,
) -> (r: bool)
    requires
        n < old(records)@.len(),
    ensures
        r == (summary_of(*out).len() > 0),
        final(records)@.len() == old(records)@.len(),
        forall|k: int|
            0 <= k < old(records)@.len() && k != n ==> #[trigger] final(records)@[k] == old(
                records,
            )@[k],
        !r ==> final(records)@ == old(records)@,
        r ==> final(records)@[n as int].summary@ == summary_of(*out) && final(records)@[n as int]
            == (IterationRecord {
            summary: final(records)@[n as int].summary,
            ..old(records)@[n as int]
        }),
{
    let summary = read_summary(out);
    if text::chars_of(summary.as_str()).len() == 0 {
        return false;
    }
    records[n].summary = summary;
    true
}

// ---------------------------------------------------------------------------
// What an iteration is for
// ---------------------------------------------------------------------------

/// An iteration works on the tracking branch. The one git command that it opens
/// with makes its worktree, in the iteration's own directory, at the branch
/// itself; and a merge advances that same branch. So the commit that a merge
/// points the branch at has the branch's former tip for its parent.
pub proof fn law_worktree_starts_at_branch(
    i: IterationInputs,
    vars: Map<Seq<char>, Seq<char>>,
    commit: Seq<char>,
)
    ensures
        forall|k: int|
            0 <= k < opening(i, vars).len() && opening(i, vars)[k] is Git ==> #[trigger] opening(
                i,
                vars,
            )[k] == Task::Git(
                Call {
                    args: seq![
                        "worktree"@,
                        "add"@,
                        "--detach"@,
                        path_joined(i.paths.attempt_dir(i.iter), "wt"@),
                        i.branch@,
                    ],
                    cwd: i.git.root(),
                },
            ),
        exists|k: int| 0 <= k < opening(i, vars).len() && #[trigger] opening(i, vars)[k] is Git,
        advance_command(i, commit).args == seq!["update-ref"@, "refs/heads/"@ + i.branch@, commit],
        advance_command(i, commit).cwd == i.git.root(),
{
    let o = opening(i, vars);
    let setup = hook(i.cfg.setup.command@, i.wt(), i.cfg.setup.timeout);
    assert(o[4] is Git);
    assert forall|k: int| 0 <= k < o.len() && o[k] is Git implies k == 4 by {
        if 6 <= k < 6 + setup.len() {
            assert(o[k] == setup[k - 6]);
        }
    }
}

/// The worker agent is started last in the opening, in the iteration's worktree,
/// within the iteration's budget. It is told where it works, by the variable
/// that the configuration names, and where its prompt is; every variable of the
/// configuration has its value expanded. The prompt was written before.
pub proof fn law_agent_works_in_worktree(i: IterationInputs, vars: Map<Seq<char>, Seq<char>>)
    ensures
        ({
            let dir = i.paths.attempt_dir(i.iter);
            let wt = path_joined(dir, "wt"@);
            let prompt_file = path_joined(dir, "prompt.md"@);
            let o = opening(i, vars);
            let n = o.len() - 1;
            &&& n >= 1
            &&& o[n] matches Task::Run(l)
            &&& l.program == "bash"@
            &&& l.args == seq![
                "-lc"@,
                agent::substituted(i.cfg.agent.command@, prompt_file, wt, i.iter as nat),
            ]
            &&& l.workdir == wt
            &&& l.budget == i.cfg.iteration.budget
            &&& l.env.dom().contains(i.cfg.agent.workdir_var@) && l.env[i.cfg.agent.workdir_var@]
                == wt
            &&& forall|name: Seq<char>|
                name != i.cfg.agent.workdir_var@ ==> {
                    &&& #[trigger] l.env.dom().contains(name) <==> i.cfg.agent.env@.dom().contains(
                        name,
                    )
                    &&& l.env.dom().contains(name) ==> l.env[name] == agent::expanded(
                        i.cfg.agent.env@[name],
                        vars,
                    )
                }
            &&& l.stdin_file == (match i.cfg.agent.stdin {
                config::AgentStdin::Prompt => Some(prompt_file),
                config::AgentStdin::Nothing => None,
            })
            &&& exists|k: int|
                0 <= k < n && #[trigger] o[k] == Task::Write(
                    prompt_file,
                    prompt::prompt_text(prompt_context(i)),
                )
        }),
{
    let o = opening(i, vars);
    let n = o.len() - 1;
    let setup = hook(i.cfg.setup.command@, i.wt(), i.cfg.setup.timeout);
    assert(o[n] == Task::Run(worker(i, vars)));
    assert(o[n - 2] == Task::Write(i.file("prompt.md"@), prompt::prompt_text(prompt_context(i))));
}

/// The iteration's directory is made before the worktree in it, and the
/// experiment's before that.
pub proof fn law_directories_come_first(i: IterationInputs, vars: Map<Seq<char>, Seq<char>>, k: int)
    requires
        0 <= k < opening(i, vars).len(),
        opening(i, vars)[k] is Git || opening(i, vars)[k] is Run || opening(i, vars)[k] is Write,
    ensures
        exists|a: int, b: int|
            0 <= a < b < k && #[trigger] opening(i, vars)[a] == Task::MakeDir(i.paths.home())
                && #[trigger] opening(i, vars)[b] == Task::MakeDir(i.paths.attempt_dir(i.iter)),
{
    assert(opening(i, vars)[0] == Task::MakeDir(i.paths.home()));
    assert(opening(i, vars)[2] == Task::MakeDir(i.dir()));
}

/// The worker agent is told of what the iteration starts from, all of it: the
/// program, the boundaries, the guidance, the recent records, its own number and
/// budget, and the best iteration wherever its changes are known.
pub proof fn law_prompt_tells_the_inputs(i: IterationInputs)
    ensures
        prompt_context(i).program_md@ == i.program_md@,
        *prompt_context(i).boundaries == i.cfg.boundaries,
        prompt_context(i).guidance@ == i.guidance@,
        prompt_context(i).recent@ == i.recent@,
        prompt_context(i).iter == i.iter,
        prompt_context(i).budget == i.cfg.iteration.budget,
        prompt_context(i).direction == i.cfg.objective.direction,
        (i.best is None || i.best_diff is None) ==> prompt_context(i).best is None,
        i.best matches Some((s, n)) ==> i.best_diff matches Some(d) ==> (
        prompt_context(i).best matches Some(b) && b.iter == n && b.score == s && b.diff@ == d@),
{
}

/// The setup command runs in the worktree before the agent, and the teardown
/// command before the objective command, each unless it is blank; nothing else
/// is run there.
pub proof fn law_hooks_run_in_worktree(i: IterationInputs, vars: Map<Seq<char>, Seq<char>>)
    ensures
        ({
            let wt = path_joined(i.paths.attempt_dir(i.iter), "wt"@);
            let o = opening(i, vars);
            let s = scoring_plan(i);
            let bare = Map::<Seq<char>, Seq<char>>::empty();
            let setup = Task::Run(
                Launch {
                    program: "bash"@,
                    args: seq!["-lc"@, i.cfg.setup.command@],
                    workdir: wt,
                    budget: i.cfg.setup.timeout,
                    env: bare,
                    stdin_file: None,
                },
            );
            let teardown = Task::Run(
                Launch {
                    program: "bash"@,
                    args: seq!["-lc"@, i.cfg.teardown.command@],
                    workdir: wt,
                    budget: i.cfg.teardown.timeout,
                    env: bare,
                    stdin_file: None,
                },
            );
            &&& forall|k: int|
                0 <= k < o.len() - 1 && #[trigger] o[k] is Run ==> o[k] == setup && text::trimmed(
                    i.cfg.setup.command@,
                ).len() > 0
            &&& text::trimmed(i.cfg.setup.command@).len() > 0 ==> exists|k: int|
                0 <= k < o.len() - 1 && #[trigger] o[k] == setup
            &&& forall|k: int|
                0 <= k < s.len() - 1 && #[trigger] s[k] is Run ==> s[k] == teardown
                    && text::trimmed(i.cfg.teardown.command@).len() > 0
            &&& text::trimmed(i.cfg.teardown.command@).len() > 0 ==> exists|k: int|
                0 <= k < s.len() - 1 && #[trigger] s[k] == teardown
        }),
{
    let o = opening(i, vars);
    let s = scoring_plan(i);
    let first = hook(i.cfg.setup.command@, i.wt(), i.cfg.setup.timeout);
    let last = hook(i.cfg.teardown.command@, i.wt(), i.cfg.teardown.timeout);
    assert forall|k: int| 0 <= k < o.len() - 1 && #[trigger] o[k] is Run implies 6 <= k < 6
        + first.len() && o[k] == first[k - 6] by {
        if 6 <= k < 6 + first.len() {
            assert(o[k] == first[k - 6]);
        }
    }
    assert forall|k: int| 0 <= k < s.len() - 1 && #[trigger] s[k] is Run implies 1 <= k < 1
        + last.len() && s[k] == last[k - 1] by {
        if 1 <= k < 1 + last.len() {
            assert(s[k] == last[k - 1]);
        }
    }
    if first.len() > 0 {
        assert(o[6] == first[0]);
    }
    if last.len() > 0 {
        assert(s[1] == last[0]);
    }
}

/// What the agent left is kept, and its changes are staged and then taken
/// against the tracking branch, in the worktree in which it worked.
pub proof fn law_changes_are_taken_against_branch(
    a: Attempt,
    b: Attempt,
    i: IterationInputs,
    vars: Map<Seq<char>, Seq<char>>,
    out: CommandOutput,
    p: Vec<Deed>,
)
    requires
        a.phase == Phase::Opening,
        a.advanced(b, i, vars, Harvest::Output(Ok(out)), Ok(p)),
    ensures
        ({
            let dir = i.paths.attempt_dir(i.iter);
            let wt = path_joined(dir, "wt"@);
            let t = tasks(p@);
            let n = t.len() - 1;
            &&& n >= 1
            &&& t[n] == Task::Git(Call { args: seq!["diff"@, i.branch@], cwd: wt })
            &&& exists|k: int|
                0 <= k < n && #[trigger] t[k] == Task::Git(
                    Call { args: seq!["add"@, "-A"@], cwd: wt },
                )
            &&& exists|k: int|
                0 <= k < n && #[trigger] t[k] == Task::Write(
                    path_joined(dir, "agent.stdout"@),
                    out.stdout@,
                )
            &&& exists|k: int|
                0 <= k < n && #[trigger] t[k] == Task::Write(
                    path_joined(dir, "agent.stderr"@),
                    out.stderr@,
                )
        }),
        b.phase == Phase::Capturing,
        b.started_at == a.started_at,
        b.agent_exit == out.exit_code,
        b.agent_killed_by_budget == out.timed_out,
        b.stdout@ == out.stdout@,
        b.stderr@ == out.stderr@,
{
    let t = tasks(p@);
    assert(t[0] == Task::Write(i.file("agent.stdout"@), out.stdout@));
    assert(t[1] == Task::Write(i.file("agent.stderr"@), out.stderr@));
    assert(t[3] == Task::Git(Call { args: seq!["add"@, "-A"@], cwd: i.wt() }));
}

/// The changes are kept in the iteration's directory, their paths are asked of
/// git against the same branch, and the stage is cleared again.
pub proof fn law_changes_are_kept_and_listed(
    a: Attempt,
    b: Attempt,
    i: IterationInputs,
    vars: Map<Seq<char>, Seq<char>>,
    reply: GitReply,
    p: Vec<Deed>,
    path: Seq<char>,
)
    requires
        a.phase == Phase::Capturing || a.phase == Phase::Listing,
        a.advanced(b, i, vars, Harvest::Reply(reply), Ok(p)),
    ensures
        reply.success,
        a.phase == Phase::Capturing ==> {
            let dir = i.paths.attempt_dir(i.iter);
            let t = tasks(p@);
            &&& b.phase == Phase::Listing
            &&& b.diff@ == reply.stdout@
            &&& t.contains(Task::Write(path_joined(dir, "changes.diff"@), reply.stdout@))
            &&& t.len() > 0
            &&& t.last() == Task::Git(
                Call {
                    args: seq!["diff"@, "--name-only"@, i.branch@],
                    cwd: path_joined(dir, "wt"@),
                },
            )
        },
        a.phase == Phase::Listing ==> {
            let dir = i.paths.attempt_dir(i.iter);
            let t = tasks(p@);
            &&& b.phase == Phase::Unstaging
            &&& b.diff@ == a.diff@
            &&& t.len() > 0
            &&& t.last() == Task::Git(
                Call { args: seq!["reset"@], cwd: path_joined(dir, "wt"@) },
            )
        },
        a.phase == Phase::Listing ==> (text::texts(b.changed@).contains(path) <==> path.len() > 0
            && text::lines_of(reply.stdout@).contains(path)),
{
    let t = tasks(p@);
    if a.phase == Phase::Capturing {
        assert(t[0] == Task::Write(i.file("changes.diff"@), reply.stdout@));
        assert(t.contains(Task::Write(i.file("changes.diff"@), reply.stdout@)));
        assert(t.last() == t[1]);
    } else {
        assert(t.last() == t[0]);
        crate::storage::law_filled_keeps_each(text::lines_of(reply.stdout@), path);
    }
}

/// What the agent changed is judged before it is scored: nothing changed is a
/// noop, a changed path that a deny glob matches denies the iteration, and only
/// an iteration that is neither is scored. One that is not scored has no score,
/// and the objective command is not run.
pub proof fn law_changes_are_judged(
    a: Attempt,
    b: Attempt,
    i: IterationInputs,
    vars: Map<Seq<char>, Seq<char>>,
    reply: GitReply,
    p: Vec<Deed>,
)
    requires
        a.phase == Phase::Unstaging,
        a.advanced(b, i, vars, Harvest::Reply(reply), Ok(p)),
    ensures
        ({
            let changed = text::texts(a.changed@);
            let globs = text::texts(i.cfg.boundaries.deny_paths@);
            let hit = exists|x: int, g: int|
                0 <= x < changed.len() && 0 <= g < globs.len() && #[trigger] worktree::glob_accepts(
                    globs[g],
                    changed[x],
                );
            let noop = changed.len() == 0;
            &&& b.phase == Phase::Scoring <==> !noop && !hit
            &&& noop ==> b.outcome == Outcome::Noop && b.notes@ == "no changes produced"@
            &&& !noop && hit ==> b.outcome == Outcome::Denied && forall|x: int, g: int|
                0 <= x < changed.len() && 0 <= g < globs.len() && #[trigger] worktree::glob_accepts(
                    globs[g],
                    changed[x],
                ) ==> text::occurs_in(changed[x], b.notes@)
            &&& noop || hit ==> b.score is None && forall|k: int|
                0 <= k < p@.len() && #[trigger] tasks(p@)[k] is Run ==> i.cfg.summarize.enabled
                    && !noop && tasks(p@)[k]->Run_0.workdir == i.paths.attempt_dir(i.iter)
        }),
{
    let changed = text::texts(a.changed@);
    let globs = text::texts(i.cfg.boundaries.deny_paths@);
    let d = denied_in(i, changed);
    if b.phase != Phase::Scoring {
        let t = tasks(p@);
        assert(is_conclusion(t, i, b, vars));
        assert forall|k: int| 0 <= k < t.len() && #[trigger] t[k] is Run implies summarizes(
            i,
            b.outcome,
        ) && t[k]->Run_0.workdir == i.dir() by {
            if !summarizes(i, b.outcome) {
                assert(t[k] == closing(i)[k]);
            } else if k == 0 {
                assert(t[0] is TryWrite);
            }
        }
    }
    assert(d.len() > 0 <==> exists|x: int, g: int|
        0 <= x < changed.len() && 0 <= g < globs.len() && #[trigger] worktree::glob_accepts(
            globs[g],
            changed[x],
        )) by {
        if d.len() > 0 {
            worktree::law_denied_iff_matched(globs, changed, d[0]);
            assert(d.contains(d[0]));
            let x = choose|x: int| 0 <= x < changed.len() && changed[x] == d[0];
            let g = choose|g: int|
                0 <= g < globs.len() && worktree::glob_accepts(#[trigger] globs[g], d[0]);
            assert(worktree::glob_accepts(globs[g], changed[x]));
        }
        if exists|x: int, g: int|
            0 <= x < changed.len() && 0 <= g < globs.len() && #[trigger] worktree::glob_accepts(
                globs[g],
                changed[x],
            ) {
            let (x, g) = choose|x: int, g: int|
                0 <= x < changed.len() && 0 <= g < globs.len() && #[trigger] worktree::glob_accepts(
                    globs[g],
                    changed[x],
                );
            assert(changed.contains(changed[x]));
            worktree::law_denied_iff_matched(globs, changed, changed[x]);
        }
    }
    if changed.len() > 0 && d.len() > 0 {
        let head = "denied: touched "@;
        assert(b.notes@ == head + text::joined(d, ", "@));
        assert forall|x: int, g: int|
            0 <= x < changed.len() && 0 <= g < globs.len() && #[trigger] worktree::glob_accepts(
                globs[g],
                changed[x],
            ) implies text::occurs_in(changed[x], b.notes@) by {
            assert(changed.contains(changed[x]));
            worktree::law_denied_iff_matched(globs, changed, changed[x]);
            let k = choose|k: int| 0 <= k < d.len() && d[k] == changed[x];
            text::law_joined_holds_each(d, ", "@, k);
            text::lemma_occurs_right(d[k], head, text::joined(d, ", "@));
        }
    }
}

/// The objective command is run last, and it is run where the agent worked: in
/// the worktree that the opening made. It is given its own time limit and no
/// variables of the experiment.
pub proof fn law_score_is_taken_in_worktree(
    a: Attempt,
    b: Attempt,
    i: IterationInputs,
    vars: Map<Seq<char>, Seq<char>>,
    h: Harvest,
    p: Vec<Deed>,
)
    requires
        a.phase == Phase::Unstaging,
        a.awaits(h),
        a.advanced(b, i, vars, h, Ok(p)),
        b.phase == Phase::Scoring,
    ensures
        tasks(p@).len() > 0,
        tasks(p@).last() matches Task::Run(l) && {
            &&& l.program == "bash"@
            &&& l.args == seq!["-lc"@, i.cfg.objective.command@]
            &&& l.workdir == path_joined(i.paths.attempt_dir(i.iter), "wt"@)
            &&& l.budget == i.cfg.objective.timeout
            &&& l.env == Map::<Seq<char>, Seq<char>>::empty()
            &&& l.stdin_file is None
            &&& forall|k: int|
                0 <= k < opening(i, vars).len() && #[trigger] opening(i, vars)[k] is Git
                    ==> opening(i, vars)[k]->Git_0.args[3] == l.workdir
        },
        a.keeps_changes(b),
{
    law_worktree_starts_at_branch(i, vars, Seq::empty());
}

/// The score decides: an attempt whose score improves on the best one is
/// committed, any other that has a score is discarded with it. Without a score
/// the failure mode decides: the worst score counts, the run is aborted, or the
/// iteration is invalid and has no score.
pub proof fn law_score_decides(
    a: Attempt,
    b: Attempt,
    i: IterationInputs,
    vars: Map<Seq<char>, Seq<char>>,
    r: Result<Vec<Deed>, Error>,
)
    requires
        a.phase == Phase::Deciding,
        a.scored is Some,
        a.advanced(b, i, vars, Harvest::Nothing, r),
    ensures
        ({
            let so = a.scored.unwrap();
            let mode = i.cfg.objective.fail_mode;
            let beats = |s: Score|
                match i.best {
                    None => true,
                    Some((t, _)) => s.better(t, i.cfg.objective.direction),
                };
            &&& r is Err <==> so.score is None && mode == config::FailMode::Abort
            &&& so.score matches Some(s) ==> b.score == Some(s) && (if beats(s) {
                b.phase == Phase::Committing
            } else {
                b.outcome == Outcome::Discarded && (b.phase == Phase::Summarizing || b.phase
                    == Phase::Closing)
            })
            &&& (so.score is None && mode == config::FailMode::Worst) ==> {
                let s = scoring::worst(i.cfg.objective.direction);
                &&& b.score == Some(s)
                &&& beats(s) <==> b.phase == Phase::Committing
                &&& !beats(s) ==> b.outcome == Outcome::Discarded
            }
            &&& (so.score is None && mode == config::FailMode::Invalid) ==> b.outcome
                == Outcome::Invalid && b.score is None && b.phase != Phase::Committing && (
            so.failure matches Some(f) ==> b.notes@ == "invalid: "@ + scoring::failure_text(f@))
            &&& r is Err ==> (r matches Err(Error::Config(m)) && (so.failure matches Some(f)
                ==> m@ == "scoring abort: "@ + scoring::failure_text(f@)))
            &&& b.outcome == Outcome::Discarded && r is Ok && b.phase != Phase::Committing ==> (
            i.best matches Some((t, _)) ==> (b.score matches Some(s) ==> text::begins_with(
                b.notes@,
                "regressed: "@ + score::fixed_text(s, 5) + (" vs best "@ + score::fixed_text(
                    t,
                    5,
                )),
            )))
        }),
{
    let so = a.scored.unwrap();
    if let Some((t, _)) = i.best {
        if let Some(s) = counted(so, i) {
            let head = "regressed: "@ + score::fixed_text(s, 5) + (" vs best "@
                + score::fixed_text(t, 5));
            let end = " ("@ + prompt::direction_word(i.cfg.objective.direction) + ")"@;
            text::lemma_starts(head, end);
            if !score::improves(s, i.best_score(), i.cfg.objective.direction) {
                assert(b.notes@ =~= head + end);
            }
        }
    }
}

/// An improvement is committed in the worktree, all of it, under a message that
/// names the iteration and its score; git is asked for the commit that came of
/// it, and the tracking branch is pointed at that commit.
pub proof fn law_improvement_is_committed(
    a: Attempt,
    b: Attempt,
    i: IterationInputs,
    vars: Map<Seq<char>, Seq<char>>,
    h: Harvest,
    p: Vec<Deed>,
)
    requires
        a.wf(i),
        a.awaits(h),
        a.phase == Phase::Deciding || a.phase == Phase::Committing,
        a.advanced(b, i, vars, h, Ok(p)),
        b.phase == Phase::Committing || b.phase == Phase::Advancing,
    ensures
        ({
            let wt = path_joined(i.paths.attempt_dir(i.iter), "wt"@);
            let n = if a.phase == Phase::Deciding {
                0
            } else {
                a.replies@.len() + 1
            };
            let last = tasks(p@).last();
            &&& tasks(p@).len() > 0
            &&& n == 0 ==> last == Task::Git(Call { args: seq!["add"@, "-A"@], cwd: wt })
            &&& n == 1 ==> (last matches Task::Git(c) && c.cwd == wt && c.args.len() >= 3 && c.args[
            c.args.len() - 3] == "commit"@ && c.args[c.args.len() - 2] == "-m"@ && exists|
                t: Seq<char>,
            |
                shortest::shows(t, a.score.unwrap()) && #[trigger] ("autorize iter "@ + text::dec(
                    i.iter as nat,
                ) + ": score "@ + t) == c.args.last())
            &&& n == 2 ==> last == Task::Git(Call { args: seq!["rev-parse"@, "HEAD"@], cwd: wt })
            &&& n == 3 ==> (h matches Harvest::Reply(g) && last == Task::Git(
                Call {
                    args: seq![
                        "update-ref"@,
                        "refs/heads/"@ + i.branch@,
                        text::trimmed(g.stdout@),
                    ],
                    cwd: i.git.root(),
                },
            ))
            &&& n <= 3
            &&& b.phase == Phase::Advancing <==> n == 3
            &&& b.score is Some
            &&& a.phase == Phase::Committing ==> b.score == a.score
        }),
{
    if a.phase == Phase::Committing {
        assert(is_merge_message(a.message@, i.iter, a.score.unwrap()));
    }
}

/// The branch advanced, the iteration is merged and keeps its score.
pub proof fn law_advanced_is_merged(
    a: Attempt,
    b: Attempt,
    i: IterationInputs,
    vars: Map<Seq<char>, Seq<char>>,
    g: GitReply,
    r: Result<Vec<Deed>, Error>,
)
    requires
        a.phase == Phase::Advancing,
        a.advanced(b, i, vars, Harvest::Reply(g), r),
    ensures
        r is Ok <==> g.success,
        r is Ok ==> {
            &&& b.outcome == Outcome::Merged
            &&& b.score == a.score
            &&& a.keeps_changes(b)
            &&& a.score matches Some(s) ==> b.notes@ == (match i.best {
                None => "first valid score: "@ + score::fixed_text(s, 5),
                Some((t, _)) => "improved: "@ + score::fixed_text(s, 5) + " from "@
                    + score::fixed_text(t, 5),
            })
        },
{
}

/// An iteration leaves no worktree behind, unless worktrees are kept: the
/// closing removes the one that the opening made, and nothing else is asked of
/// git.
pub proof fn law_worktree_is_removed(i: IterationInputs, vars: Map<Seq<char>, Seq<char>>)
    ensures
        ({
            let c = closing(i);
            let o = opening(i, vars);
            &&& forall|k: int|
                0 <= k < c.len() && #[trigger] c[k] is Git ==> {
                    &&& !i.cfg.iteration.keep_worktrees
                    &&& c[k]->Git_0.args.len() == 4
                    &&& c[k]->Git_0.args[0] == "worktree"@
                    &&& c[k]->Git_0.args[1] == "remove"@
                    &&& c[k]->Git_0.args[2] == "--force"@
                    &&& c[k]->Git_0.cwd == i.git.root()
                    &&& forall|j: int|
                        0 <= j < o.len() && #[trigger] o[j] is Git ==> o[j]->Git_0.args[3]
                            == c[k]->Git_0.args[3]
                }
            &&& !i.cfg.iteration.keep_worktrees ==> exists|k: int|
                0 <= k < c.len() && #[trigger] c[k] is Git
            &&& forall|k: int| 0 <= k < c.len() ==> !(#[trigger] c[k] is Run)
        }),
{
    law_worktree_starts_at_branch(i, vars, Seq::empty());
    let c = closing(i);
    if !i.cfg.iteration.keep_worktrees {
        assert(c[1] is Git);
    }
}

/// The summarizing agent is asked about every iteration that changed something,
/// where summaries are wanted, and about no other. It works in the iteration's
/// directory, within its own time limit, and its prompt is written there first.
pub proof fn law_summary_is_asked_for(
    p: Seq<Task>,
    i: IterationInputs,
    a: Attempt,
    vars: Map<Seq<char>, Seq<char>>,
)
    requires
        is_conclusion(p, i, a, vars),
    ensures
        ({
            let dir = i.paths.attempt_dir(i.iter);
            let prompt_file = path_joined(dir, "summary-prompt.md"@);
            &&& (exists|k: int| 0 <= k < p.len() && #[trigger] p[k] is Run) <==> (
            i.cfg.summarize.enabled && a.outcome != Outcome::Noop)
            &&& i.cfg.summarize.enabled && a.outcome != Outcome::Noop ==> {
                &&& p.last() matches Task::Run(l)
                &&& l.program == "bash"@
                &&& l.args == seq![
                    "-lc"@,
                    agent::substituted(i.cfg.summarize.command@, prompt_file, dir, i.iter as nat),
                ]
                &&& l.workdir == dir
                &&& l.budget == i.cfg.summarize.timeout
                &&& l.env.dom().contains(i.cfg.agent.workdir_var@) && l.env[i.cfg.agent.workdir_var@]
                    == dir
                &&& l.stdin_file == (match i.cfg.summarize.stdin {
                    config::AgentStdin::Prompt => Some(prompt_file),
                    config::AgentStdin::Nothing => None,
                })
                &&& p.len() == 2
                &&& p[0] matches Task::TryWrite(f, _)
                &&& f == prompt_file
            }
        }),
{
    if summarizes(i, a.outcome) {
        assert(p[1] is Run);
    } else {
        assert forall|k: int| 0 <= k < p.len() implies !(#[trigger] p[k] is Run) by {
            assert(p[k] == closing(i)[k]);
        }
    }
}

/// The summary is what the summarizing agent wrote, without the white space
/// round it, and only where that agent ended by itself and well. It is kept
/// with the iteration, in a file where there is one, and nothing else of the
/// iteration changes.
pub proof fn law_summary_is_the_agents_word(
    a: Attempt,
    b: Attempt,
    i: IterationInputs,
    vars: Map<Seq<char>, Seq<char>>,
    out: Result<CommandOutput, Error>,
    r: Result<Vec<Deed>, Error>,
)
    requires
        a.phase == Phase::Summarizing,
        a.advanced(b, i, vars, Harvest::Output(out), r),
    ensures
        ({
            let t = match out {
                Ok(o) => if o.exit_code == Some(0i32) && !o.timed_out {
                    text::trimmed(o.stdout@)
                } else {
                    Seq::empty()
                },
                Err(_) => Seq::empty(),
            };
            let f = path_joined(i.paths.attempt_dir(i.iter), "summary.md"@);
            &&& r is Ok
            &&& b.summary@ == t
            &&& b.outcome == a.outcome && b.score == a.score && b.notes@ == a.notes@
            &&& b.diff@ == a.diff@ && b.agent_exit == a.agent_exit && b.started_at == a.started_at
            &&& b.agent_killed_by_budget == a.agent_killed_by_budget
            &&& b.phase == Phase::Closing
            &&& t.len() > 0 ==> tasks(r->Ok_0@).contains(Task::TryWrite(f, t))
            &&& t.len() == 0 ==> forall|k: int|
                0 <= k < r->Ok_0@.len() ==> !(#[trigger] tasks(r->Ok_0@)[k] is TryWrite)
        }),
{
    let t = summary_of(out);
    let f = i.file("summary.md"@);
    let all = tasks(r->Ok_0@);
    if t.len() > 0 {
        assert(all[0] == Task::TryWrite(f, t));
    } else {
        assert(all =~= closing(i));
        assert forall|k: int| 0 <= k < all.len() implies !(#[trigger] all[k] is TryWrite) by {
            assert(all[k] == closing(i)[k]);
        }
    }
}

/// A record tells what the iteration was: its number, its times, how the agent
/// ended, how many lines changed, why the outcome is what it is.
pub proof fn law_record_tells_the_attempt(
    a: Attempt,
    i: IterationInputs,
    now: Timestamp,
    r: IterationRecord,
)
    requires
        a.recorded(i, now, r),
    ensures
        r.iter == i.iter,
        r.started_at == a.started_at && r.ended_at == now,
        r.outcome == a.outcome && r.score == a.score,
        r.agent_exit == a.agent_exit && r.agent_killed_by_budget == a.agent_killed_by_budget,
        r.diff_lines == text::lines_of(a.diff@).len(),
        r.notes@ == a.notes@ && r.summary@ == a.summary@,
        r.outcome == Outcome::Merged && r.score is Some ==> r.best_so_far == r.score,
        r.outcome != Outcome::Merged ==> (match i.best {
            Some((s, _)) => r.best_so_far == Some(s),
            None => r.best_so_far is None,
        }),
{
}

/// The notes of an iteration say why it ended as it did: a denied one names
/// every path that it may not touch and did, an invalid one names what went
/// wrong, one with a score tells that score, and beside it the best one.
#[verifier::spinoff_prover]
#[verifier::rlimit(60)]
pub proof fn law_notes_tell_why(
    outcome: Outcome,
    s: Option<Score>,
    i: IterationInputs,
    denied: Seq<Seq<char>>,
    failure: Seq<char>,
)
    requires
        consistent(outcome, s, i),
    ensures
        ({
            let n = reason(outcome, s, i, denied, failure);
            &&& outcome == Outcome::Denied ==> text::begins_with(n, "denied: touched "@) && forall|
                k: int,
            |
                0 <= k < denied.len() ==> text::occurs_in(#[trigger] denied[k], n)
            &&& outcome == Outcome::Invalid ==> text::begins_with(n, "invalid: "@)
                && text::finishes_with(n, failure)
            &&& outcome == Outcome::Noop ==> n == "no changes produced"@
            &&& s matches Some(v) ==> text::occurs_in(score::fixed_text(v, 5), n) && match i.best {
                None => n == "first valid score: "@ + score::fixed_text(v, 5),
                Some((b, _)) => {
                    &&& outcome == Outcome::Merged ==> n == "improved: "@ + score::fixed_text(v, 5)
                        + (" from "@ + score::fixed_text(b, 5))
                    &&& outcome == Outcome::Discarded ==> text::begins_with(
                        n,
                        "regressed: "@ + score::fixed_text(v, 5) + (" vs best "@
                            + score::fixed_text(b, 5)),
                    ) && text::occurs_in(prompt::direction_word(i.cfg.objective.direction), n)
                },
            }
        }),
{
    let n = reason(outcome, s, i, denied, failure);
    match (outcome, s, i.best) {
        (Outcome::Denied, _, _) => {
            let head = "denied: touched "@;
            text::lemma_starts(head, text::joined(denied, ", "@));
            assert forall|k: int| 0 <= k < denied.len() implies text::occurs_in(
                #[trigger] denied[k],
                n,
            ) by {
                text::law_joined_holds_each(denied, ", "@, k);
                text::lemma_occurs_wider(denied[k], head, text::joined(denied, ", "@), Seq::empty());
                assert(n =~= head + text::joined(denied, ", "@) + Seq::empty());
            }
        },
        (Outcome::Invalid, _, _) => {
            text::lemma_starts("invalid: "@, failure);
            assert(n.skip(n.len() - failure.len()) =~= failure);
        },
        (Outcome::Merged, Some(v), None) => {
            let f = score::fixed_text(v, 5);
            text::lemma_starts("first valid score: "@, f);
            text::lemma_occurs_between(f, "first valid score: "@, Seq::empty());
            assert(n =~= "first valid score: "@ + f + Seq::empty());
        },
        (Outcome::Merged, Some(v), Some((b, _))) => {
            let f = score::fixed_text(v, 5);
            let g = score::fixed_text(b, 5);
            text::lemma_occurs_between(f, "improved: "@, " from "@ + g);
            assert(n =~= "improved: "@ + f + (" from "@ + g));
        },
        (Outcome::Discarded, Some(v), Some((b, _))) => {
            let f = score::fixed_text(v, 5);
            let g = score::fixed_text(b, 5);
            let d = prompt::direction_word(i.cfg.objective.direction);
            let rest = " vs best "@ + g + " ("@ + d + ")"@;
            text::lemma_occurs_between(f, "regressed: "@, rest);
            assert(n =~= "regressed: "@ + f + rest);
            let head = "regressed: "@ + f + (" vs best "@ + g);
            assert(n =~= head + (" ("@ + d + ")"@));
            text::lemma_starts(head, " ("@ + d + ")"@);
            text::lemma_occurs_between(d, "regressed: "@ + f + " vs best "@ + g + " ("@, ")"@);
            assert(n =~= ("regressed: "@ + f + " vs best "@ + g + " ("@) + d + ")"@);
        },
        _ => {},
    }
}

/// The best score at a record is told with the latest merged iteration up to
/// it: no record between them is merged.
pub proof fn law_best_at_is_the_latest_merge(records: Seq<IterationRecord>, n: int)
    requires
        0 <= n <= records.len(),
    ensures
        match last_merged(records, n) {
            Some(m) => exists|k: int|
                {
                    &&& 0 <= k < n
                    &&& #[trigger] records[k].outcome == Outcome::Merged
                    &&& records[k].iter == m
                    &&& forall|j: int|
                        k < j < n ==> #[trigger] records[j].outcome != Outcome::Merged
                },
            None => forall|k: int|
                0 <= k < n ==> #[trigger] records[k].outcome != Outcome::Merged,
        },
    decreases n,
{
    if n > 0 {
        if records[n - 1].outcome == Outcome::Merged {
            assert(records[n - 1].iter == last_merged(records, n)->Some_0);
        } else {
            law_best_at_is_the_latest_merge(records, n - 1);
        }
    }
}

/// The summarizing agent is told of this iteration and of no other: its number,
/// its outcome and score, the best score with it, and its own changes.
pub proof fn law_summary_prompt_is_about_the_iteration(
    t: Seq<char>,
    i: IterationInputs,
    a: Attempt,
)
    requires
        is_summary_prompt(t, i, a),
    ensures
        ({
            let best = if a.outcome == Outcome::Merged && a.score is Some {
                Some((a.score->Some_0, i.iter))
            } else {
                i.best
            };
            text::begins_with(
                t,
                prompt::SUMMARY_REQUEST@ + "## Outcome\n- iteration: "@ + text::dec(i.iter as nat)
                    + "\n- outcome: "@ + prompt::outcome_word(a.outcome) + "\n- score: "@ + (
                match a.score {
                    Some(s) => score::fixed_text(s, 5),
                    None => "none"@,
                }) + " (objective direction: "@ + prompt::direction_word(
                    i.cfg.objective.direction,
                ) + " \u{2014} "@ + prompt::direction_meaning(i.cfg.objective.direction)
                    + ")\n- best so far: "@ + (match best {
                    Some((s, n)) => "iter "@ + text::dec(n as nat) + ", score "@
                        + score::fixed_text(s, 5),
                    None => "none"@,
                }) + "\n\n## Diff\n\n```diff\n"@ + prompt::head_of(a.diff@, 600),
            )
        }),
        text::trimmed(prompt::tail_of(a.stdout@, 80)).len() > 0 ==> text::occurs_in(
            "\n## Agent "@ + "stdout"@ + " (tail)\n\n```\n"@ + prompt::line_ended(
                prompt::tail_of(a.stdout@, 80),
            ) + "```\n"@,
            t,
        ),
        text::trimmed(prompt::tail_of(a.stderr@, 80)).len() > 0 ==> text::occurs_in(
            "\n## Agent "@ + "stderr"@ + " (tail)\n\n```\n"@ + prompt::line_ended(
                prompt::tail_of(a.stderr@, 80),
            ) + "```\n"@,
            t,
        ),
{
    let c = choose|c: SummaryContext|
        {
            &&& c.iter == i.iter
            &&& c.outcome == a.outcome
            &&& c.score == a.score
            &&& c.best == best_after(i, a.outcome, a.score)
            &&& c.direction == i.cfg.objective.direction
            &&& c.diff@ == a.diff@
            &&& c.stdout_tail@ == a.stdout@
            &&& c.stderr_tail@ == a.stderr@
            &&& t == #[trigger] prompt::summary_prompt_text(c)
        };
    prompt::law_summarizer_is_told_the_outcome(c);
    prompt::law_summarizer_is_told_the_streams(c);
}

/// A summary that is made up for later is asked for with the record's own number,
/// outcome and score, the best score at that record, and the iteration's files.
pub proof fn law_backfill_prompt_is_about_the_record(
    t: Seq<char>,
    cfg: Config,
    records: Seq<IterationRecord>,
    n: int,
    diff: Seq<char>,
    stdout: Seq<char>,
    stderr: Seq<char>,
)
    requires
        0 <= n < records.len(),
        is_backfill_prompt(t, cfg, records, n, diff, stdout, stderr),
    ensures
        text::begins_with(
            t,
            prompt::SUMMARY_REQUEST@ + "## Outcome\n- iteration: "@ + text::dec(
                records[n].iter as nat,
            ) + "\n- outcome: "@ + prompt::outcome_word(records[n].outcome) + "\n- score: "@ + (
            match records[n].score {
                Some(s) => score::fixed_text(s, 5),
                None => "none"@,
            }) + " (objective direction: "@ + prompt::direction_word(cfg.objective.direction)
                + " \u{2014} "@ + prompt::direction_meaning(cfg.objective.direction)
                + ")\n- best so far: "@ + (match (records[n].best_so_far, last_merged(
                records,
                n + 1,
            )) {
                (Some(s), Some(k)) => "iter "@ + text::dec(k as nat) + ", score "@
                    + score::fixed_text(s, 5),
                _ => "none"@,
            }) + "\n\n## Diff\n\n```diff\n"@ + prompt::head_of(diff, 600),
        ),
        text::trimmed(prompt::tail_of(stdout, 80)).len() > 0 ==> text::occurs_in(
            "\n## Agent "@ + "stdout"@ + " (tail)\n\n```\n"@ + prompt::line_ended(
                prompt::tail_of(stdout, 80),
            ) + "```\n"@,
            t,
        ),
        text::trimmed(prompt::tail_of(stderr, 80)).len() > 0 ==> text::occurs_in(
            "\n## Agent "@ + "stderr"@ + " (tail)\n\n```\n"@ + prompt::line_ended(
                prompt::tail_of(stderr, 80),
            ) + "```\n"@,
            t,
        ),
{
    let c = choose|c: SummaryContext|
        {
            &&& c.iter == records[n].iter
            &&& c.outcome == records[n].outcome
            &&& c.score == records[n].score
            &&& c.best == best_at(records, n)
            &&& c.direction == cfg.objective.direction
            &&& c.diff@ == diff
            &&& c.stdout_tail@ == stdout
            &&& c.stderr_tail@ == stderr
            &&& t == #[trigger] prompt::summary_prompt_text(c)
        };
    prompt::law_summarizer_is_told_the_outcome(c);
    prompt::law_summarizer_is_told_the_streams(c);
}

/// A record gets a summary later exactly if its iteration changed something and
/// was not cut short, and it has none, or a new one is forced.
pub proof fn law_summaries_are_made_up_for(r: IterationRecord)
    ensures
        wants_summary(r, true) <==> r.outcome == Outcome::Merged || r.outcome == Outcome::Discarded
            || r.outcome == Outcome::Denied || r.outcome == Outcome::Invalid,
        wants_summary(r, false) <==> wants_summary(r, true) && r.summary@.len() == 0,
{
}

/// What concludes an iteration is told with the reason for its outcome, and what
/// the agent did and changed stays as it was.
pub proof fn law_conclusion_keeps_the_attempt(
    a: Attempt,
    b: Attempt,
    p: Seq<Task>,
    i: IterationInputs,
    vars: Map<Seq<char>, Seq<char>>,
    outcome: Outcome,
    s: Option<Score>,
    failure: Seq<char>,
)
    requires
        a.concludes(b, p, i, vars, outcome, s, failure),
    ensures
        b.outcome == outcome && b.score == s,
        b.started_at == a.started_at && b.agent_exit == a.agent_exit,
        b.agent_killed_by_budget == a.agent_killed_by_budget,
        b.diff@ == a.diff@ && b.stdout@ == a.stdout@ && b.stderr@ == a.stderr@,
        b.changed == a.changed && b.summary == a.summary,
        outcome == Outcome::Denied ==> forall|k: int|
            0 <= k < denied_in(i, text::texts(a.changed@)).len() ==> text::occurs_in(
                #[trigger] denied_in(i, text::texts(a.changed@))[k],
                b.notes@,
            ),
        outcome == Outcome::Invalid ==> text::finishes_with(b.notes@, failure),
        b.phase == Phase::Summarizing || b.phase == Phase::Closing,
{
    let denied = denied_in(i, text::texts(a.changed@));
    if outcome == Outcome::Denied {
        let head = "denied: touched "@;
        assert forall|k: int| 0 <= k < denied.len() implies text::occurs_in(
            #[trigger] denied[k],
            b.notes@,
        ) by {
            text::law_joined_holds_each(denied, ", "@, k);
            text::lemma_occurs_right(denied[k], head, text::joined(denied, ", "@));
        }
    }
    if outcome == Outcome::Invalid {
        let n = "invalid: "@ + failure;
        assert(n.skip(n.len() - failure.len()) =~= failure);
    }
}

/// How the agent ended, and what the objective command said, reach the attempt:
/// an attempt to be decided on has just the score that the command's end gives.
pub proof fn law_score_is_what_the_command_gave(
    a: Attempt,
    b: Attempt,
    i: IterationInputs,
    vars: Map<Seq<char>, Seq<char>>,
    out: CommandOutput,
    p: Vec<Deed>,
)
    requires
        a.phase == Phase::Scoring,
        a.advanced(b, i, vars, Harvest::Output(Ok(out)), Ok(p)),
    ensures
        b.phase == Phase::Deciding,
        a.keeps_changes(b),
        b.scored matches Some(so) && (match scoring::verdict(out, i.cfg.objective.parse) {
            Ok(s) => so.score == Some(s),
            Err(f) => so.score is None && (so.failure matches Some(g) && g@ == f),
        }),
{
}

/// Boundaries that cannot be checked end the iteration with the reason: changes
/// that were not checked are never scored.
pub proof fn law_faulty_boundaries_end_the_iteration(
    a: Attempt,
    b: Attempt,
    i: IterationInputs,
    vars: Map<Seq<char>, Seq<char>>,
    reply: GitReply,
    r: Result<Vec<Deed>, Error>,
)
    requires
        a.phase == Phase::Unstaging,
        reply.success,
        a.advanced(b, i, vars, Harvest::Reply(reply), r),
    ensures
        ({
            let globs = text::texts(i.cfg.boundaries.deny_paths@);
            &&& r is Err <==> globs.len() > 0 && worktree::globs_fault(globs) is Some
            &&& r is Err ==> (r matches Err(Error::Glob(m)) && Some(m@) == worktree::globs_fault(
                globs,
            ))
        }),
{
}

/// A git command that fails ends the iteration with git's own words, and so does
/// an agent that cannot be started.
pub proof fn law_failure_ends_the_iteration(
    a: Attempt,
    b: Attempt,
    i: IterationInputs,
    vars: Map<Seq<char>, Seq<char>>,
    g: GitReply,
    e: Error,
    r: Result<Vec<Deed>, Error>,
)
    ensures
        a.awaits(Harvest::Reply(g)) && a.advanced(b, i, vars, Harvest::Reply(g), r) && !g.success
            ==> (r matches Err(Error::Git(m)) && text::finishes_with(m@, text::trimmed(g.stderr@))),
        a.phase == Phase::Opening && a.advanced(b, i, vars, Harvest::Output(Err(e)), r) ==> r
            == Err::<Vec<Deed>, Error>(e),
{
    if a.awaits(Harvest::Reply(g)) && a.advanced(b, i, vars, Harvest::Reply(g), r) && !g.success {
        let m = match r {
            Err(Error::Git(m)) => m@,
            _ => Seq::empty(),
        };
        let end = text::trimmed(g.stderr@);
        assert(m.skip(m.len() - end.len()) =~= end);
    }
}

} // verus!
