//! A run, from its first check to its last iteration.
//!
//! A run alternates decisions and outside work. A [`Session`] decides: it hands
//! out errands, the program runs them one after the other, and what the last one
//! brings decides what follows. An errand that fails ends the run with its error.
use vstd::prelude::*;

use crate::cli::run::{self, Start, Stop};
use crate::config::Config;
use crate::error::Error;
use crate::experiment::{path_join, path_joined, ExperimentPaths};
use crate::iteration;
use crate::schedule::Deadline;
use crate::score::Score;
use crate::storage::{IterationRecord, StateSnapshot};
use crate::text;
use crate::time::Timestamp;
use crate::worktree::{self, Call, Git, GitCall, GitReply};

verus! {

/// What a run is given.
pub struct RunInputs<'a> {
    pub name: &'a str,
    pub allow_dirty: bool,
    /// Settle an iteration that was in progress.
    pub recover_iter: bool,
    pub fresh: bool,
    pub cfg: &'a Config,
    pub paths: &'a ExperimentPaths,
    pub git: &'a Git,
    /// The tracking branch.
    pub branch: &'a str,
}

/// Something to be done for a run.
#[derive(Debug)]
pub enum Errand {
    /// Give a git command.
    Git(GitCall),
    /// Give a git command, whatever becomes of it.
    Forget(GitCall),
    /// Read the checkpoint.
    ReadState,
    /// Read the log, and cut a torn last line off it.
    ReadRecords,
    /// Make up for missing summaries in the log.
    Backfill,
    /// Compute the deadline of the schedule from the present.
    Deadline,
    /// Tell the time.
    Clock,
    /// Make the experiment's directory.
    MakeHome,
    /// Write the checkpoint.
    Save(StateSnapshot),
    /// Add a record to the log.
    Append(IterationRecord),
    /// Run an iteration up to its record.
    Iterate(Round),
}

/// An iteration to be run: its number, the best score so far, and the records
/// its prompt shows.
#[derive(Debug)]
pub struct Round {
    pub iter: u64,
    pub best: Option<(Score, u64)>,
    pub recent: Vec<IterationRecord>,
}

/// An errand with its texts as sequences.
pub enum Order {
    Git(Call),
    Forget(Call),
    ReadState,
    ReadRecords,
    Backfill,
    Deadline,
    Clock,
    MakeHome,
    Save(StateSnapshot),
    Append(IterationRecord),
    Iterate(u64, Option<(Score, u64)>, Seq<IterationRecord>),
}

impl View for Errand {
    type V = Order;

    open spec fn view(&self) -> Order {
        match *self {
            Errand::Git(c) => Order::Git(c@),
            Errand::Forget(c) => Order::Forget(c@),
            Errand::ReadState => Order::ReadState,
            Errand::ReadRecords => Order::ReadRecords,
            Errand::Backfill => Order::Backfill,
            Errand::Deadline => Order::Deadline,
            Errand::Clock => Order::Clock,
            Errand::MakeHome => Order::MakeHome,
            Errand::Save(s) => Order::Save(s),
            Errand::Append(r) => Order::Append(r),
            Errand::Iterate(r) => Order::Iterate(r.iter, r.best, r.recent@),
        }
    }
}

/// Errands with their texts as sequences.
pub open spec fn orders(v: Seq<Errand>) -> Seq<Order> {
    v.map_values(|e: Errand| e@)
}

/// Whether a list of errands is handed out.
pub open spec fn gives(r: Result<Vec<Errand>, Error>, p: Seq<Order>) -> bool {
    r matches Ok(v) && orders(v@) == p
}

fn add_errand(v: &mut Vec<Errand>, e: Errand)
    ensures
        orders(final(v)@) == orders(old(v)@).push(e@),
{
    let ghost before = orders(v@);
    v.push(e);
    assert(orders(v@) =~= before.push(e@));
}

fn one_errand(e: Errand) -> (v: Vec<Errand>)
    ensures
        orders(v@) == seq![e@],
{
    let mut v: Vec<Errand> = Vec::new();
    v.push(e);
    assert(orders(v@) =~= seq![e@]);
    v
}

fn two_errands(a: Errand, b: Errand) -> (v: Vec<Errand>)
    ensures
        orders(v@) == seq![a@, b@],
{
    let mut v = one_errand(a);
    add_errand(&mut v, b);
    assert(orders(v@) =~= seq![a@, b@]);
    v
}

/// What the last errand brought.
#[derive(Debug)]
pub enum News {
    Reply(GitReply),
    State(Option<StateSnapshot>),
    Records(Vec<IterationRecord>),
    /// A deadline, and the present it was computed from.
    Deadline(Deadline, Timestamp),
    Time(Timestamp),
    /// The record of a finished iteration.
    Finished(IterationRecord),
}

/// What a run waits for.
#[derive(Debug, Clone, Copy, PartialEq, Eq, Structural)]
pub enum Stage {
    /// Whether the directory is inside a repository.
    Entering,
    /// Whether there are uncommitted changes.
    Sweeping,
    /// The checkpoint.
    Restoring,
    /// Whether the commit that the checkpoint builds on is there.
    Reaching,
    /// The log, to settle an interrupted iteration.
    Recalling,
    /// The last commit's subject, to settle an interrupted iteration.
    Telling,
    /// The time, to settle an interrupted iteration.
    Settling,
    /// The deadline of a fresh start.
    Refreshing,
    /// The deadline of the first run.
    Scheduling,
    /// The commit that the experiment builds on.
    Heading,
    /// Whether the tracking branch is there.
    Branching,
    /// That the tracking branch was made.
    Creating,
    /// The time, for the first checkpoint.
    Founding,
    /// The log.
    Reading,
    /// The log with the summaries that were made up for.
    Backfilling,
    /// The time, to see whether a limit is reached.
    Deciding,
    /// The end of an iteration.
    Iterating,
    /// Nothing: the run is over.
    Over,
}

/// How many records a prompt shows.
pub const RECENT: usize = 10;

/// A run under way.
#[derive(Debug)]
pub struct Session {
    pub stage: Stage,
    /// The checkpoint, once there is one.
    pub state: Option<StateSnapshot>,
    pub records: Vec<IterationRecord>,
    /// The last commit's subject, where it is known.
    pub subject: String,
    /// The deadline of the first run, once it is known.
    pub deadline: Option<Deadline>,
    /// The commit that the experiment builds on, once it is known.
    pub base: String,
    /// Why the run is over, once it is.
    pub stopped: Option<Stop>,
}

/// Whether the reply to a status command tells of no uncommitted changes but
/// the harness's own.
pub open spec fn swept(g: GitReply) -> bool {
    forall|k: int|
        0 <= k < text::lines_of(g.stdout@).len() ==> !worktree::dirt(
            #[trigger] text::lines_of(g.stdout@)[k],
            seq![".autorize/"@, "logs/"@],
        )
}

/// Whether a reply tells that the directory is inside a repository.
pub open spec fn inside(g: GitReply) -> bool {
    g.success && text::trimmed(g.stdout@) == "true"@
}

/// The first checkpoint of an experiment.
pub open spec fn is_first_state(
    s: StateSnapshot,
    i: RunInputs,
    base: Seq<char>,
    deadline: Deadline,
    now: Timestamp,
) -> bool {
    &&& s.experiment@ == i.name@
    &&& s.branch@ == i.branch@
    &&& s.base_commit@ == base
    &&& s.iter_in_progress is None
    &&& s.current_step == crate::storage::CurrentStep::Idle
    &&& s.best_score is None
    &&& s.best_iter is None
    &&& s.started_at == now
    &&& s.deadline == deadline.0
    &&& s.iterations_completed == 0
    &&& s.run_iterations_completed == 0
    &&& s.consecutive_noops == 0
}

/// The last records, as many as a prompt shows.
pub open spec fn shown(records: Seq<IterationRecord>) -> Seq<IterationRecord> {
    records.skip(
        if records.len() <= RECENT {
            0
        } else {
            records.len() - RECENT
        },
    )
}

/// The best score so far with its iteration, where both are known.
pub open spec fn best_in(s: StateSnapshot) -> Option<(Score, u64)> {
    match (s.best_score, s.best_iter) {
        (Some(v), Some(n)) => Some((v, n)),
        _ => None,
    }
}

impl<'a> RunInputs<'a> {
    /// Asks for uncommitted changes.
    pub open spec fn status_order(self) -> Call {
        Call { args: seq!["status"@, "--porcelain"@], cwd: self.git.root() }
    }

    /// Asks for the commit that is checked out.
    pub open spec fn head_order(self) -> Call {
        Call { args: seq!["rev-parse"@, "HEAD"@], cwd: self.git.root() }
    }

    /// Asks whether a commit is there.
    pub open spec fn reach_order(self, commit: Seq<char>) -> Call {
        Call { args: seq!["rev-parse"@, "--verify"@, commit + "^{}"@], cwd: self.git.root() }
    }

    /// Asks for the last commit's subject on a branch.
    pub open spec fn subject_order(self, branch: Seq<char>) -> Call {
        Call { args: seq!["log"@, "-1"@, "--format=%s"@, branch], cwd: self.git.root() }
    }

    /// Asks whether the tracking branch is there.
    pub open spec fn branch_order(self) -> Call {
        Call {
            args: seq!["show-ref"@, "--verify"@, "--quiet"@, "refs/heads/"@ + self.branch@],
            cwd: self.git.root(),
        }
    }

    /// Makes the tracking branch.
    pub open spec fn create_order(self, base: Seq<char>) -> Call {
        Call { args: seq!["branch"@, self.branch@, base], cwd: self.git.root() }
    }

    /// Removes the worktree of an iteration.
    pub open spec fn removal_order(self, iter: u64) -> Call {
        Call {
            args: seq![
                "worktree"@,
                "remove"@,
                "--force"@,
                path_joined(self.paths.attempt_dir(iter), "wt"@),
            ],
            cwd: self.git.root(),
        }
    }
}

impl Session {
    /// Nothing is known yet.
    pub open spec fn begun(self) -> bool {
        &&& self.stage == Stage::Entering
        &&& self.state is None
        &&& self.records@.len() == 0
        &&& self.subject@.len() == 0
        &&& self.deadline is None
        &&& self.base@.len() == 0
        &&& self.stopped is None
    }

    /// What is known at each stage.
    pub open spec fn wf(self) -> bool {
        match self.stage {
            Stage::Entering | Stage::Sweeping | Stage::Restoring | Stage::Scheduling => true,
            Stage::Heading | Stage::Branching | Stage::Creating | Stage::Founding
                => self.deadline is Some,
            Stage::Recalling | Stage::Telling | Stage::Settling => self.state matches Some(s)
                && s.iter_in_progress is Some,
            Stage::Reaching | Stage::Refreshing | Stage::Reading | Stage::Backfilling
            | Stage::Deciding | Stage::Iterating => self.state is Some,
            Stage::Over => self.stopped is Some,
        }
    }

    /// What the errands handed out last bring.
    pub open spec fn awaits(self, n: News) -> bool {
        match self.stage {
            Stage::Entering | Stage::Sweeping | Stage::Reaching | Stage::Telling | Stage::Heading
            | Stage::Branching | Stage::Creating => n is Reply,
            Stage::Restoring => n is State,
            Stage::Recalling | Stage::Reading | Stage::Backfilling => n is Records,
            Stage::Refreshing | Stage::Scheduling => n is Deadline,
            Stage::Settling | Stage::Founding | Stage::Deciding => n is Time,
            Stage::Iterating => n is Finished,
            Stage::Over => false,
        }
    }

    /// Room in the counters for one more iteration, where one is counted, and a
    /// number for it, where one is begun.
    pub open spec fn room(self) -> bool {
        &&& self.stage == Stage::Settling || self.stage == Stage::Iterating
            ==> iteration::countable(self.state.unwrap())
        &&& self.stage == Stage::Deciding ==> run::used_number(self.state.unwrap(), self.records@)
            < u64::MAX
    }

    /// What follows the checkpoint of a saved run: a fresh start, or the log.
    pub open spec fn follows(self, later: Session, i: RunInputs, done: Seq<Order>, p: Seq<Order>) -> bool {
        if i.fresh {
            later == (Session { stage: Stage::Refreshing, ..self }) && p == done.push(
                Order::Deadline,
            )
        } else {
            later == (Session { stage: Stage::Reading, ..self }) && p == done.push(
                Order::ReadRecords,
            )
        }
    }

    /// What follows the question for a repository.
    pub open spec fn after_entry(
        self,
        later: Session,
        i: RunInputs,
        g: GitReply,
        r: Result<Vec<Errand>, Error>,
    ) -> bool {
        if !inside(g) {
            r matches Err(Error::Git(m)) && m@ == run::NO_REPO@
        } else if i.allow_dirty {
            later == (Session { stage: Stage::Restoring, ..self }) && gives(
                r,
                seq![Order::ReadState],
            )
        } else {
            later == (Session { stage: Stage::Sweeping, ..self }) && gives(
                r,
                seq![Order::Git(i.status_order())],
            )
        }
    }

    /// What follows the question for uncommitted changes.
    pub open spec fn after_sweep(
        self,
        later: Session,
        i: RunInputs,
        g: GitReply,
        r: Result<Vec<Errand>, Error>,
    ) -> bool {
        if !g.success {
            worktree::is_failure(r, i.status_order(), g)
        } else if !swept(g) {
            r matches Err(Error::Git(m)) && m@ == run::DIRTY@
        } else {
            later == (Session { stage: Stage::Restoring, ..self }) && gives(
                r,
                seq![Order::ReadState],
            )
        }
    }

    /// What follows the checkpoint.
    pub open spec fn after_state(
        self,
        later: Session,
        i: RunInputs,
        s: Option<StateSnapshot>,
        r: Result<Vec<Errand>, Error>,
    ) -> bool {
        match s {
            None => if i.recover_iter {
                r matches Err(e) && run::is_start(i.name@, None, false, true, i.fresh, Err(e))
            } else {
                later == (Session { stage: Stage::Scheduling, ..self }) && gives(
                    r,
                    seq![Order::Deadline],
                )
            },
            Some(t) => later == (Session { stage: Stage::Reaching, state: s, ..self }) && gives(
                r,
                seq![Order::Git(i.reach_order(t.base_commit@))],
            ),
        }
    }

    /// What follows the question for the commit that the checkpoint builds on.
    pub open spec fn after_reach(
        self,
        later: Session,
        i: RunInputs,
        g: GitReply,
        r: Result<Vec<Errand>, Error>,
    ) -> bool {
        let s = self.state.unwrap();
        match r {
            Err(e) => run::is_start(
                i.name@,
                self.state,
                g.success,
                i.recover_iter,
                i.fresh,
                Err(e),
            ),
            Ok(p) => {
                &&& run::is_start(
                    i.name@,
                    self.state,
                    g.success,
                    i.recover_iter,
                    i.fresh,
                    Ok(Start::Continue { recover: s.iter_in_progress is Some, fresh: i.fresh }),
                )
                &&& match s.iter_in_progress {
                    Some(iter) => later == (Session { stage: Stage::Recalling, ..self }) && orders(p@)
                        == seq![Order::Forget(i.removal_order(iter)), Order::ReadRecords],
                    None => self.follows(later, i, Seq::empty(), orders(p@)),
                }
            },
        }
    }

    /// What follows the log, where an interrupted iteration is to be settled: the
    /// last commit is asked only where no record tells what happened.
    pub open spec fn after_recall(
        self,
        later: Session,
        i: RunInputs,
        v: Vec<IterationRecord>,
        r: Result<Vec<Errand>, Error>,
    ) -> bool {
        let s = self.state.unwrap();
        if run::first_record(v@, s.iter_in_progress.unwrap()) < v@.len() {
            later == (Session { stage: Stage::Settling, records: v, ..self }) && gives(
                r,
                seq![Order::Clock],
            )
        } else {
            later == (Session { stage: Stage::Telling, records: v, ..self }) && gives(
                r,
                seq![Order::Git(i.subject_order(s.branch@))],
            )
        }
    }

    /// What follows the last commit's subject.
    pub open spec fn after_subject(
        self,
        later: Session,
        i: RunInputs,
        g: GitReply,
        r: Result<Vec<Errand>, Error>,
    ) -> bool {
        if !g.success {
            worktree::is_failure(r, i.subject_order(self.state.unwrap().branch@), g)
        } else {
            &&& later == (Session { stage: Stage::Settling, subject: later.subject, ..self })
            &&& later.subject@ == text::trimmed(g.stdout@)
            &&& gives(r, seq![Order::Clock])
        }
    }

    /// What follows once an interrupted iteration can be settled.
    pub open spec fn after_settling(
        self,
        later: Session,
        i: RunInputs,
        now: Timestamp,
        r: Result<Vec<Errand>, Error>,
    ) -> bool {
        let s = self.state.unwrap();
        let t = later.state.unwrap();
        let settled = |o: Result<Option<IterationRecord>, Error>|
            run::is_reconciled(
                s,
                t,
                self.records@,
                self.subject@,
                i.cfg.objective.direction,
                now,
                o,
            );
        let kept = Session { state: later.state, ..self };
        &&& later.state is Some
        &&& r matches Ok(p)
        &&& if run::first_record(self.records@, s.iter_in_progress.unwrap()) < self.records@.len() {
            settled(Ok(None)) && kept.follows(later, i, seq![Order::Save(t)], orders(p@))
        } else {
            &&& orders(p@).len() > 0
            &&& orders(p@)[0] matches Order::Append(rec)
            &&& settled(Ok(Some(rec)))
            &&& kept.follows(later, i, seq![Order::Append(rec), Order::Save(t)], orders(p@))
        }
    }

    /// What follows the deadline of a fresh start.
    pub open spec fn after_refresh(
        self,
        later: Session,
        i: RunInputs,
        d: Deadline,
        now: Timestamp,
        r: Result<Vec<Errand>, Error>,
    ) -> bool {
        let t = run::refreshed(self.state.unwrap(), d.0, now);
        if now.nanos >= d.0.nanos {
            r matches Err(Error::Schedule(m)) && m@ == run::past_text(i.cfg.schedule)
        } else {
            later == (Session { stage: Stage::Reading, state: Some(t), ..self }) && gives(
                r,
                seq![Order::Save(t), Order::ReadRecords],
            )
        }
    }

    /// What follows the commit that the experiment builds on.
    pub open spec fn after_head(
        self,
        later: Session,
        i: RunInputs,
        g: GitReply,
        r: Result<Vec<Errand>, Error>,
    ) -> bool {
        if !g.success {
            worktree::is_failure(r, i.head_order(), g)
        } else {
            &&& later == (Session { stage: Stage::Branching, base: later.base, ..self })
            &&& later.base@ == text::trimmed(g.stdout@)
            &&& gives(r, seq![Order::Git(i.branch_order())])
        }
    }

    /// What follows the question for the tracking branch.
    pub open spec fn after_branch(
        self,
        later: Session,
        i: RunInputs,
        g: GitReply,
        r: Result<Vec<Errand>, Error>,
    ) -> bool {
        if g.success {
            later == (Session { stage: Stage::Founding, ..self }) && gives(r, seq![Order::Clock])
        } else {
            later == (Session { stage: Stage::Creating, ..self }) && gives(
                r,
                seq![Order::Git(i.create_order(self.base@))],
            )
        }
    }

    /// What follows the making of the tracking branch.
    pub open spec fn after_creation(
        self,
        later: Session,
        i: RunInputs,
        g: GitReply,
        r: Result<Vec<Errand>, Error>,
    ) -> bool {
        if !g.success {
            worktree::is_failure(r, i.create_order(self.base@), g)
        } else {
            later == (Session { stage: Stage::Founding, ..self }) && gives(r, seq![Order::Clock])
        }
    }

    /// What follows once the first checkpoint can be made.
    pub open spec fn after_founding(
        self,
        later: Session,
        i: RunInputs,
        now: Timestamp,
        r: Result<Vec<Errand>, Error>,
    ) -> bool {
        &&& later == (Session { stage: Stage::Reading, state: later.state, ..self })
        &&& later.state matches Some(t)
        &&& is_first_state(t, i, self.base@, self.deadline.unwrap(), now)
        &&& gives(r, seq![Order::MakeHome, Order::Save(t), Order::ReadRecords])
    }

    /// What follows the time between iterations: the end, or an iteration.
    pub open spec fn after_clock(
        self,
        later: Session,
        i: RunInputs,
        now: Timestamp,
        r: Result<Vec<Errand>, Error>,
    ) -> bool {
        let s = self.state.unwrap();
        match run::stop_reason(s, *i.cfg, now) {
            Some(why) => later == (Session { stage: Stage::Over, stopped: Some(why), ..self })
                && gives(r, Seq::empty()),
            None => later == (Session { stage: Stage::Iterating, ..self }) && gives(
                r,
                seq![
                    Order::Iterate(
                        (run::used_number(s, self.records@) + 1) as u64,
                        best_in(s),
                        shown(self.records@),
                    ),
                ],
            ),
        }
    }

    /// What follows an iteration: its record is added to the log before the
    /// checkpoint counts it.
    pub open spec fn after_round(
        self,
        later: Session,
        rec: IterationRecord,
        r: Result<Vec<Errand>, Error>,
    ) -> bool {
        let s = self.state.unwrap();
        let t = iteration::settled(s, rec, best_in(s));
        &&& later == (Session {
            stage: Stage::Deciding,
            state: Some(t),
            records: later.records,
            ..self
        })
        &&& later.records@ == self.records@.push(rec)
        &&& gives(r, seq![Order::Append(rec), Order::Save(t), Order::Clock])
    }

    /// What follows the news of the last errand.
    pub open spec fn advanced(
        self,
        later: Session,
        i: RunInputs,
        n: News,
        r: Result<Vec<Errand>, Error>,
    ) -> bool {
        match (self.stage, n) {
            (Stage::Entering, News::Reply(g)) => self.after_entry(later, i, g, r),
            (Stage::Sweeping, News::Reply(g)) => self.after_sweep(later, i, g, r),
            (Stage::Restoring, News::State(s)) => self.after_state(later, i, s, r),
            (Stage::Reaching, News::Reply(g)) => self.after_reach(later, i, g, r),
            (Stage::Recalling, News::Records(v)) => self.after_recall(later, i, v, r),
            (Stage::Telling, News::Reply(g)) => self.after_subject(later, i, g, r),
            (Stage::Settling, News::Time(t)) => self.after_settling(later, i, t, r),
            (Stage::Refreshing, News::Deadline(d, t)) => self.after_refresh(later, i, d, t, r),
            (Stage::Scheduling, News::Deadline(d, _)) => later == (Session {
                stage: Stage::Heading,
                deadline: Some(d),
                ..self
            }) && gives(r, seq![Order::Git(i.head_order())]),
            (Stage::Heading, News::Reply(g)) => self.after_head(later, i, g, r),
            (Stage::Branching, News::Reply(g)) => self.after_branch(later, i, g, r),
            (Stage::Creating, News::Reply(g)) => self.after_creation(later, i, g, r),
            (Stage::Founding, News::Time(t)) => self.after_founding(later, i, t, r),
            (Stage::Reading, News::Records(v)) => later == (Session {
                stage: Stage::Backfilling,
                records: v,
                ..self
            }) && gives(r, seq![Order::Backfill]),
            (Stage::Backfilling, News::Records(v)) => later == (Session {
                stage: Stage::Deciding,
                records: v,
                ..self
            }) && gives(r, seq![Order::Clock]),
            (Stage::Deciding, News::Time(t)) => self.after_clock(later, i, t, r),
            (Stage::Iterating, News::Finished(rec)) => self.after_round(later, rec, r),
            _ => true,
        }
    }

    /// Begins a run.
    pub fn begin(i: &RunInputs) -> (r: (Session, Vec<Errand>))
        ensures
            r.0.begun(),
            r.0.wf(),
            orders(r.1@) == seq![
                Order::Git(
                    Call {
                        args: seq!["rev-parse"@, "--is-inside-work-tree"@],
                        cwd: i.git.root(),
                    },
                ),
            ],
    {
        let first = one_errand(Errand::Git(i.git.is_inside_repo_call()));
        (
            Session {
                stage: Stage::Entering,
                state: None,
                records: Vec::new(),
                subject: String::new(),
                deadline: None,
                base: String::new(),
                stopped: None,
            },
            first,
        )
    }

    fn take_entry(&mut self, i: &RunInputs, g: &GitReply) -> (r: Result<Vec<Errand>, Error>)
        ensures
            old(self).after_entry(*final(self), *i, *g, r),
            r is Ok ==> final(self).wf(),
    {
        if let Err(e) = run::check_repo(i.git.is_inside_repo(g)) {
            return Err(e);
        }
        if i.allow_dirty {
            self.stage = Stage::Restoring;
            Ok(one_errand(Errand::ReadState))
        } else {
            self.stage = Stage::Sweeping;
            Ok(one_errand(Errand::Git(i.git.is_clean_call())))
        }
    }

    fn take_sweep(&mut self, i: &RunInputs, g: &GitReply) -> (r: Result<Vec<Errand>, Error>)
        ensures
            old(self).after_sweep(*final(self), *i, *g, r),
            r is Ok ==> final(self).wf(),
    {
        let clean = match i.git.is_clean_excluding(&run::own_prefixes(), g) {
            Ok(clean) => clean,
            Err(e) => {
                return Err(e);
            },
        };
        if let Err(e) = run::check_clean(clean) {
            return Err(e);
        }
        self.stage = Stage::Restoring;
        Ok(one_errand(Errand::ReadState))
    }

    fn take_state(&mut self, i: &RunInputs, s: Option<StateSnapshot>) -> (r: Result<
        Vec<Errand>,
        Error,
    >)
        ensures
            old(self).after_state(*final(self), *i, s, r),
            r is Ok ==> final(self).wf(),
    {
        match s {
            None => {
                if let Err(e) = run::start(i.name, &None, false, i.recover_iter, i.fresh) {
                    return Err(e);
                }
                self.stage = Stage::Scheduling;
                Ok(one_errand(Errand::Deadline))
            },
            Some(t) => {
                let ask = i.git.resolve_ref_call(t.base_commit.as_str());
                self.stage = Stage::Reaching;
                self.state = Some(t);
                Ok(one_errand(Errand::Git(ask)))
            },
        }
    }

    fn follow(&mut self, i: &RunInputs, done: Vec<Errand>) -> (p: Vec<Errand>)
        requires
            old(self).state is Some,
        ensures
            old(self).follows(*final(self), *i, orders(done@), orders(p@)),
            final(self).wf(),
    {
        let mut p = done;
        if i.fresh {
            self.stage = Stage::Refreshing;
            add_errand(&mut p, Errand::Deadline);
        } else {
            self.stage = Stage::Reading;
            add_errand(&mut p, Errand::ReadRecords);
        }
        p
    }

    fn take_reach(&mut self, i: &RunInputs, g: &GitReply) -> (r: Result<Vec<Errand>, Error>)
        requires
            old(self).state is Some,
        ensures
            old(self).after_reach(*final(self), *i, *g, r),
            r is Ok ==> final(self).wf(),
    {
        let reachable = i.git.resolve_ref(g).is_some();
        if let Err(e) = run::start(i.name, &self.state, reachable, i.recover_iter, i.fresh) {
            return Err(e);
        }
        let cut = match &self.state {
            Some(s) => s.iter_in_progress,
            None => None,
        };
        match cut {
            Some(iter) => {
                let wt = path_join(i.paths.iter_dir(iter).as_str(), "wt");
                let removal = i.git.worktree_remove_call(wt.as_str());
                self.stage = Stage::Recalling;
                Ok(two_errands(Errand::Forget(removal), Errand::ReadRecords))
            },
            None => {
                let none: Vec<Errand> = Vec::new();
                assert(orders(none@) =~= Seq::empty());
                Ok(self.follow(i, none))
            },
        }
    }

    fn take_recall(&mut self, i: &RunInputs, v: Vec<IterationRecord>) -> (r: Result<
        Vec<Errand>,
        Error,
    >)
        requires
            old(self).state matches Some(s) && s.iter_in_progress is Some,
        ensures
            old(self).after_recall(*final(self), *i, v, r),
            r is Ok ==> final(self).wf(),
    {
        let (found, ask) = match &self.state {
            Some(s) => {
                let found = match s.iter_in_progress {
                    Some(iter) => {
                        let at = run::find_record(&v, iter);
                        proof {
                            match at {
                                Some(n) => run::lemma_first_record(v@, iter, n as int),
                                None => run::lemma_no_record(v@, iter),
                            }
                        }
                        at.is_some()
                    },
                    None => false,
                };
                (found, i.git.log_subject_call(s.branch.as_str()))
            },
            None => (false, i.git.head_sha_call()),
        };
        self.records = v;
        if found {
            self.stage = Stage::Settling;
            Ok(one_errand(Errand::Clock))
        } else {
            self.stage = Stage::Telling;
            Ok(one_errand(Errand::Git(ask)))
        }
    }

    fn take_subject(&mut self, i: &RunInputs, g: &GitReply) -> (r: Result<Vec<Errand>, Error>)
        requires
            old(self).state matches Some(s) && s.iter_in_progress is Some,
        ensures
            old(self).after_subject(*final(self), *i, *g, r),
            r is Ok ==> final(self).wf(),
    {
        let ask = match &self.state {
            Some(s) => i.git.log_subject_call(s.branch.as_str()),
            None => i.git.head_sha_call(),
        };
        match worktree::run_git_trim(&ask, g) {
            Err(e) => Err(e),
            Ok(subject) => {
                self.subject = subject;
                self.stage = Stage::Settling;
                Ok(one_errand(Errand::Clock))
            },
        }
    }

    fn take_settling(&mut self, i: &RunInputs, now: Timestamp) -> (r: Result<Vec<Errand>, Error>)
        requires
            old(self).state matches Some(s) && s.iter_in_progress is Some
                && iteration::countable(s),
        ensures
            old(self).after_settling(*final(self), *i, now, r),
            r is Ok ==> final(self).wf(),
    {
        let mut state = match self.state.take() {
            Some(s) => s,
            None => {
                return Ok(Vec::new());
            },
        };
        let settled = run::reconcile_in_progress(
            &mut state,
            &self.records,
            self.subject.as_str(),
            i.cfg.objective.direction,
            now,
        );
        let added = match settled {
            Ok(added) => added,
            Err(e) => {
                return Err(e);
            },
        };
        let saved = Errand::Save(state.clone());
        self.state = Some(state);
        match added {
            None => {
                let done = one_errand(saved);
                Ok(self.follow(i, done))
            },
            Some(rec) => {
                let done = two_errands(Errand::Append(rec), saved);
                Ok(self.follow(i, done))
            },
        }
    }

    fn take_refresh(&mut self, i: &RunInputs, d: Deadline, now: Timestamp) -> (r: Result<
        Vec<Errand>,
        Error,
    >)
        requires
            old(self).state is Some,
        ensures
            old(self).after_refresh(*final(self), *i, d, now, r),
            r is Ok ==> final(self).wf(),
    {
        let mut state = match self.state.take() {
            Some(s) => s,
            None => {
                return Ok(Vec::new());
            },
        };
        if let Err(e) = run::apply_fresh_reset(&mut state, &i.cfg.schedule, d, now) {
            return Err(e);
        }
        let saved = Errand::Save(state.clone());
        self.state = Some(state);
        self.stage = Stage::Reading;
        Ok(two_errands(saved, Errand::ReadRecords))
    }

    fn take_head(&mut self, i: &RunInputs, g: &GitReply) -> (r: Result<Vec<Errand>, Error>)
        requires
            old(self).deadline is Some,
        ensures
            old(self).after_head(*final(self), *i, *g, r),
            r is Ok ==> final(self).wf(),
    {
        match i.git.head_sha(g) {
            Err(e) => Err(e),
            Ok(sha) => {
                self.base = sha;
                self.stage = Stage::Branching;
                Ok(one_errand(Errand::Git(i.git.branch_exists_call(i.branch))))
            },
        }
    }

    fn take_branch(&mut self, i: &RunInputs, g: &GitReply) -> (r: Result<Vec<Errand>, Error>)
        requires
            old(self).deadline is Some,
        ensures
            old(self).after_branch(*final(self), *i, *g, r),
            r is Ok ==> final(self).wf(),
    {
        if i.git.branch_exists(g) {
            self.stage = Stage::Founding;
            Ok(one_errand(Errand::Clock))
        } else {
            self.stage = Stage::Creating;
            Ok(one_errand(Errand::Git(i.git.create_branch_at_call(i.branch, self.base.as_str()))))
        }
    }

    fn take_creation(&mut self, i: &RunInputs, g: &GitReply) -> (r: Result<Vec<Errand>, Error>)
        requires
            old(self).deadline is Some,
        ensures
            old(self).after_creation(*final(self), *i, *g, r),
            r is Ok ==> final(self).wf(),
    {
        if let Err(e) = i.git.create_branch_at(i.branch, self.base.as_str(), g) {
            return Err(e);
        }
        self.stage = Stage::Founding;
        Ok(one_errand(Errand::Clock))
    }

    fn take_founding(&mut self, i: &RunInputs, now: Timestamp) -> (r: Result<Vec<Errand>, Error>)
        requires
            old(self).deadline is Some,
        ensures
            old(self).after_founding(*final(self), *i, now, r),
            r is Ok ==> final(self).wf(),
    {
        let deadline = match self.deadline {
            Some(d) => d,
            None => {
                return Ok(Vec::new());
            },
        };
        let state = run::first_state(
            text::owned(i.name),
            text::owned(i.branch),
            self.base.clone(),
            deadline,
            now,
        );
        let mut p = two_errands(Errand::MakeHome, Errand::Save(state.clone()));
        add_errand(&mut p, Errand::ReadRecords);
        assert(orders(p@) =~= seq![Order::MakeHome, Order::Save(state), Order::ReadRecords]);
        self.state = Some(state);
        self.stage = Stage::Reading;
        Ok(p)
    }

    fn take_clock(&mut self, i: &RunInputs, now: Timestamp) -> (r: Result<Vec<Errand>, Error>)
        requires
            old(self).state matches Some(s) && run::used_number(s, old(self).records@) < u64::MAX,
        ensures
            old(self).after_clock(*final(self), *i, now, r),
            r is Ok ==> final(self).wf(),
    {
        let mut p: Vec<Errand> = Vec::new();
        assert(orders(p@) =~= Seq::empty());
        match &self.state {
            None => {},
            Some(s) => {
                match run::should_stop(s, i.cfg, now) {
                    Some(why) => {
                        self.stopped = Some(why);
                        self.stage = Stage::Over;
                    },
                    None => {
                        let round = Round {
                            iter: run::next_iter_number(s, &self.records),
                            best: run::best_of(s),
                            recent: run::recent_slice(&self.records, RECENT),
                        };
                        p = one_errand(Errand::Iterate(round));
                        self.stage = Stage::Iterating;
                    },
                }
            },
        }
        Ok(p)
    }

    fn take_round(&mut self, rec: IterationRecord) -> (r: Result<Vec<Errand>, Error>)
        requires
            old(self).state matches Some(s) && iteration::countable(s),
        ensures
            old(self).after_round(*final(self), rec, r),
            r is Ok ==> final(self).wf(),
    {
        let mut state = match self.state.take() {
            Some(s) => s,
            None => {
                return Ok(Vec::new());
            },
        };
        let best = run::best_of(&state);
        iteration::settle(&mut state, &rec, best);
        let mut p = two_errands(Errand::Append(rec.clone()), Errand::Save(state.clone()));
        add_errand(&mut p, Errand::Clock);
        assert(orders(p@) =~= seq![Order::Append(rec), Order::Save(state), Order::Clock]);
        self.records.push(rec);
        self.state = Some(state);
        self.stage = Stage::Deciding;
        Ok(p)
    }

    /// Takes the news of the last errand and hands out what is to be done next;
    /// nothing once the run is over.
    pub fn advance(&mut self, i: &RunInputs, n: News) -> (r: Result<Vec<Errand>, Error>)
        requires
            old(self).wf(),
            old(self).awaits(n),
            old(self).room(),
        ensures
            r is Ok ==> final(self).wf(),
            old(self).advanced(*final(self), *i, n, r),
    {
        match (self.stage, n) {
            (Stage::Entering, News::Reply(g)) => self.take_entry(i, &g),
            (Stage::Sweeping, News::Reply(g)) => self.take_sweep(i, &g),
            (Stage::Restoring, News::State(s)) => self.take_state(i, s),
            (Stage::Reaching, News::Reply(g)) => self.take_reach(i, &g),
            (Stage::Recalling, News::Records(v)) => self.take_recall(i, v),
            (Stage::Telling, News::Reply(g)) => self.take_subject(i, &g),
            (Stage::Settling, News::Time(t)) => self.take_settling(i, t),
            (Stage::Refreshing, News::Deadline(d, t)) => self.take_refresh(i, d, t),
            (Stage::Scheduling, News::Deadline(d, _)) => {
                self.deadline = Some(d);
                self.stage = Stage::Heading;
                Ok(one_errand(Errand::Git(i.git.head_sha_call())))
            },
            (Stage::Heading, News::Reply(g)) => self.take_head(i, &g),
            (Stage::Branching, News::Reply(g)) => self.take_branch(i, &g),
            (Stage::Creating, News::Reply(g)) => self.take_creation(i, &g),
            (Stage::Founding, News::Time(t)) => self.take_founding(i, t),
            (Stage::Reading, News::Records(v)) => {
                self.records = v;
                self.stage = Stage::Backfilling;
                Ok(one_errand(Errand::Backfill))
            },
            (Stage::Backfilling, News::Records(v)) => {
                self.records = v;
                self.stage = Stage::Deciding;
                Ok(one_errand(Errand::Clock))
            },
            (Stage::Deciding, News::Time(t)) => self.take_clock(i, t),
            (Stage::Iterating, News::Finished(rec)) => self.take_round(rec),
            _ => Ok(Vec::new()),
        }
    }
}

/// One step of a run: what was known, the news, what is known then, and what was
/// handed out.
pub struct Step {
    pub before: Session,
    pub news: News,
    pub after: Session,
    pub handed: Result<Vec<Errand>, Error>,
}

impl Step {
    /// The step is one that a session takes, and it did not fail.
    #[verifier::opaque]
    pub open spec fn taken(self, i: RunInputs) -> bool {
        &&& self.before.wf()
        &&& self.before.awaits(self.news)
        &&& self.before.room()
        &&& self.handed is Ok
        &&& self.before.advanced(self.after, i, self.news, self.handed)
    }

    /// The step in which the directory was found to be inside a repository.
    pub open spec fn entered(self) -> bool {
        self.before.stage == Stage::Entering && (self.news matches News::Reply(g) && inside(g))
    }

    /// The step in which the working tree was found to be clean.
    pub open spec fn cleared(self) -> bool {
        self.before.stage == Stage::Sweeping && (self.news matches News::Reply(g) && g.success
            && swept(g))
    }
}

/// The steps of a run from its beginning.
pub open spec fn is_run(i: RunInputs, t: Seq<Step>) -> bool {
    &&& t.len() > 0 ==> t[0].before.begun()
    &&& forall|k: int| 0 <= k < t.len() ==> (#[trigger] t[k]).taken(i)
    &&& forall|j: int, k: int|
        0 <= j && k == j + 1 && k < t.len() ==> (#[trigger] t[j]).after == (#[trigger] t[k]).before
}

proof fn lemma_step(i: RunInputs, s: Step)
    requires
        s.taken(i),
    ensures
        s.after.stage != Stage::Entering,
        s.before.stage == Stage::Entering ==> s.entered() && (s.after.stage == Stage::Sweeping
            || i.allow_dirty),
        s.before.stage == Stage::Sweeping ==> s.cleared(),
        s.after.stage == Stage::Sweeping ==> s.before.stage == Stage::Entering,
{
    reveal(Step::taken);
}

proof fn lemma_checked(i: RunInputs, t: Seq<Step>)
    requires
        is_run(i, t),
        t.len() > 0,
    ensures
        t.last().after.stage != Stage::Entering,
        exists|k: int| 0 <= k < t.len() && (#[trigger] t[k]).entered(),
        t.last().after.stage == Stage::Sweeping || i.allow_dirty || exists|k: int|
            0 <= k < t.len() && (#[trigger] t[k]).cleared(),
    decreases t.len(),
{
    let n = t.len() - 1;
    assert(t[n].taken(i));
    lemma_step(i, t[n]);
    if n > 0 {
        let before = t.drop_last();
        assert forall|k: int| 0 <= k < before.len() implies (#[trigger] before[k]).taken(i) by {
            assert(t[k].taken(i));
        }
        assert forall|j: int, k: int| 0 <= j && k == j + 1 && k < before.len() implies (
        #[trigger] before[j]).after == (#[trigger] before[k]).before by {
            assert(t[j].after == t[k].before);
        }
        lemma_checked(i, before);
        let e = choose|k: int| 0 <= k < before.len() && (#[trigger] before[k]).entered();
        assert(t[e].entered());
        assert(t[n - 1].after == t[n].before);
        assert(before.last() == t[n - 1]);
        if t[n].before.stage != Stage::Sweeping && !i.allow_dirty {
            let c = choose|k: int| 0 <= k < before.len() && (#[trigger] before[k]).cleared();
            assert(t[c].cleared());
        }
    }
}

/// No iteration begins before the checks: a run that comes to an iteration found
/// itself inside a repository, and found the working tree clean unless it was
/// told not to look.
pub proof fn law_checks_come_first(i: RunInputs, t: Seq<Step>)
    requires
        is_run(i, t),
        t.len() > 0,
        t.last().after.stage == Stage::Iterating,
    ensures
        exists|k: int| 0 <= k < t.len() && (#[trigger] t[k]).entered(),
        i.allow_dirty || exists|k: int| 0 <= k < t.len() && (#[trigger] t[k]).cleared(),
{
    lemma_checked(i, t);
}

/// An iteration begins only while no limit is reached, and under a number above
/// all that were used.
pub proof fn law_iterations_are_admitted(
    s: Session,
    later: Session,
    i: RunInputs,
    now: Timestamp,
    r: Result<Vec<Errand>, Error>,
)
    requires
        s.stage == Stage::Deciding,
        s.wf(),
        s.room(),
        s.advanced(later, i, News::Time(now), r),
    ensures
        later.stage == Stage::Iterating <==> run::stop_reason(s.state.unwrap(), *i.cfg, now) is None,
        later.stage == Stage::Iterating ==> (r matches Ok(p) && orders(p@).len() == 1 && (orders(
            p@,
        )[0] matches Order::Iterate(n, _, _) && forall|k: int|
            0 <= k < s.records@.len() ==> (#[trigger] s.records@[k]).iter < n)),
        later.stage != Stage::Iterating ==> later.stage == Stage::Over && later.stopped is Some,
{
    run::law_numbers_increase(s.state.unwrap(), s.records@);
}

/// A run that is not told to recover never goes on over an iteration that was
/// interrupted, fresh or not.
pub proof fn law_interruption_needs_recovery(
    s: Session,
    later: Session,
    i: RunInputs,
    g: GitReply,
    r: Result<Vec<Errand>, Error>,
)
    requires
        s.stage == Stage::Reaching,
        s.state matches Some(t) && t.iter_in_progress is Some,
        !i.recover_iter,
        s.advanced(later, i, News::Reply(g), r),
    ensures
        r is Err,
{
}

/// An iteration is shown the end of the log: its last records in their order,
/// ten of them or all that there are. So the latest record is always among
/// them, and last. It starts from the best score that the checkpoint knows.
pub proof fn law_iteration_sees_the_latest_records(
    a: Session,
    b: Session,
    i: RunInputs,
    now: Timestamp,
    v: Vec<Errand>,
    number: u64,
    best: Option<(Score, u64)>,
    recent: Seq<IterationRecord>,
)
    requires
        a.stage == Stage::Deciding,
        a.state is Some,
        a.advanced(b, i, News::Time(now), Ok(v)),
        orders(v@).contains(Order::Iterate(number, best, recent)),
    ensures
        recent.len() == if a.records@.len() < 10 {
            a.records@.len()
        } else {
            10
        },
        forall|k: int|
            0 <= k < recent.len() ==> #[trigger] recent[k] == a.records@[a.records@.len()
                - recent.len() + k],
        a.records@.len() > 0 ==> recent.last() == a.records@.last(),
        (a.state->Some_0.best_score is None || a.state->Some_0.best_iter is None) ==> best is None,
        a.state->Some_0.best_score matches Some(s) ==> a.state->Some_0.best_iter matches Some(n)
            ==> best == Some((s, n)),
        b.records@ == a.records@ && b.state == a.state,
{
    let all = orders(v@);
    let k = choose|k: int|
        0 <= k < all.len() && all[k] == Order::Iterate(number, best, recent);
    assert(all[k] == Order::Iterate(number, best, recent));
}

/// A run asks git about its own repository, its own branch and its own base: the
/// branch that is looked up is the one that is made, it is made at the base, and
/// the base that is looked for is the one that the checkpoint holds.
pub proof fn law_run_asks_about_its_own(
    i: RunInputs,
    base: Seq<char>,
    iter: u64,
)
    ensures
        i.status_order().args == seq!["status"@, "--porcelain"@],
        i.head_order().args == seq!["rev-parse"@, "HEAD"@],
        i.reach_order(base).args == seq!["rev-parse"@, "--verify"@, base + "^{}"@],
        i.subject_order(i.branch@).args == seq!["log"@, "-1"@, "--format=%s"@, i.branch@],
        i.branch_order().args == seq![
            "show-ref"@,
            "--verify"@,
            "--quiet"@,
            "refs/heads/"@ + i.branch@,
        ],
        i.create_order(base).args == seq!["branch"@, i.branch@, base],
        i.removal_order(iter).args == seq![
            "worktree"@,
            "remove"@,
            "--force"@,
            path_joined(i.paths.attempt_dir(iter), "wt"@),
        ],
        i.status_order().cwd == i.git.root() && i.head_order().cwd == i.git.root(),
        i.reach_order(base).cwd == i.git.root() && i.subject_order(base).cwd == i.git.root(),
        i.branch_order().cwd == i.git.root() && i.create_order(base).cwd == i.git.root(),
        i.removal_order(iter).cwd == i.git.root(),
{
}

/// The repository is swept exactly if every path that git tells of lies below
/// the harness's own directories.
pub proof fn law_swept_spares_only_the_harness(g: GitReply, k: int, x: char, y: char, path: Seq<char>)
    requires
        0 <= k < text::lines_of(g.stdout@).len(),
        text::lines_of(g.stdout@)[k] == seq![x, y, ' '] + path,
        swept(g),
    ensures
        text::begins_with(path, ".autorize/"@) || text::begins_with(path, "logs/"@),
{
    let own = seq![".autorize/"@, "logs/"@];
    worktree::law_status_line_tells_its_path(x, y, path, own);
    assert(!worktree::dirt(text::lines_of(g.stdout@)[k], own));
    let j = choose|j: int| 0 <= j < own.len() && text::begins_with(path, #[trigger] own[j]);
    assert(own[j] == ".autorize/"@ || own[j] == "logs/"@);
}

/// The first checkpoint of an experiment tells where it started from, and counts
/// nothing.
pub proof fn law_first_checkpoint_is_blank(
    s: StateSnapshot,
    i: RunInputs,
    base: Seq<char>,
    deadline: Deadline,
    now: Timestamp,
)
    requires
        is_first_state(s, i, base, deadline, now),
    ensures
        s.experiment@ == i.name@ && s.branch@ == i.branch@ && s.base_commit@ == base,
        s.started_at == now && s.deadline == deadline.0,
        s.best_score is None && s.best_iter is None && s.iter_in_progress is None,
        s.iterations_completed == 0 && s.run_iterations_completed == 0 && s.consecutive_noops == 0,
        best_in(s) is None,
{
}

/// An iteration that has ended is in the log before the checkpoint counts it, as
/// it was recorded and last.
pub proof fn law_finished_iteration_is_logged(
    a: Session,
    b: Session,
    i: RunInputs,
    rec: IterationRecord,
    v: Vec<Errand>,
)
    requires
        a.stage == Stage::Iterating,
        a.state is Some,
        iteration::countable(a.state->Some_0),
        a.advanced(b, i, News::Finished(rec), Ok(v)),
    ensures
        b.records@ == a.records@.push(rec),
        b.stage == Stage::Deciding,
        b.state is Some,
        b.state->Some_0.iterations_completed == a.state->Some_0.iterations_completed + 1,
        b.state->Some_0.iter_in_progress is None,
        b.state->Some_0.best_score == rec.best_so_far,
        orders(v@).len() == 3,
        orders(v@)[0] == Order::Append(rec),
        orders(v@)[1] == Order::Save(b.state->Some_0),
        orders(v@)[2] == Order::Clock,
{
}

/// A run is let in only inside a repository, and, unless uncommitted changes are
/// allowed, only where there are none but the harness's own.
pub proof fn law_run_is_let_in(
    a: Session,
    b: Session,
    i: RunInputs,
    g: GitReply,
    r: Result<Vec<Errand>, Error>,
)
    requires
        a.stage == Stage::Entering || a.stage == Stage::Sweeping,
        a.advanced(b, i, News::Reply(g), r),
    ensures
        a.stage == Stage::Entering ==> {
            &&& r is Ok <==> g.success && text::trimmed(g.stdout@) == "true"@
            &&& r matches Ok(v) ==> if i.allow_dirty {
                b.stage == Stage::Restoring && orders(v@) == seq![Order::ReadState]
            } else {
                b.stage == Stage::Sweeping && orders(v@) == seq![
                    Order::Git(
                        Call { args: seq!["status"@, "--porcelain"@], cwd: i.git.root() },
                    ),
                ]
            }
        },
        a.stage == Stage::Sweeping ==> {
            &&& r is Ok <==> g.success && swept(g)
            &&& r matches Ok(v) ==> b.stage == Stage::Restoring && orders(v@) == seq![
                Order::ReadState,
            ]
        },
{
}

/// A first run makes the tracking branch where it is missing, at the commit that
/// is checked out, and founds its checkpoint on that commit and on the deadline
/// that it was given.
pub proof fn law_first_run_founds_on_head(
    a: Session,
    b: Session,
    i: RunInputs,
    n: News,
    v: Vec<Errand>,
)
    requires
        a.awaits(n),
        a.advanced(b, i, n, Ok(v)),
    ensures
        a.stage == Stage::Scheduling ==> (n matches News::Deadline(d, _) && b.deadline == Some(d)
            && b.stage == Stage::Heading && orders(v@) == seq![
            Order::Git(Call { args: seq!["rev-parse"@, "HEAD"@], cwd: i.git.root() }),
        ]),
        a.stage == Stage::Heading ==> (n matches News::Reply(g) && g.success && b.base@
            == text::trimmed(g.stdout@) && b.stage == Stage::Branching && b.deadline == a.deadline
            && orders(v@) == seq![
            Order::Git(
                Call {
                    args: seq![
                        "show-ref"@,
                        "--verify"@,
                        "--quiet"@,
                        "refs/heads/"@ + i.branch@,
                    ],
                    cwd: i.git.root(),
                },
            ),
        ]),
        a.stage == Stage::Branching ==> (n matches News::Reply(g) && b.base == a.base
            && b.deadline == a.deadline && (if g.success {
            b.stage == Stage::Founding && orders(v@) == seq![Order::Clock]
        } else {
            b.stage == Stage::Creating && orders(v@) == seq![
                Order::Git(
                    Call { args: seq!["branch"@, i.branch@, a.base@], cwd: i.git.root() },
                ),
            ]
        })),
        a.stage == Stage::Creating ==> (n matches News::Reply(g) && g.success && b.stage
            == Stage::Founding && b.base == a.base && b.deadline == a.deadline),
        a.stage == Stage::Founding && a.deadline is Some ==> (n matches News::Time(now) && (
        b.state matches Some(t) && t.base_commit@ == a.base@ && t.branch@ == i.branch@
            && t.deadline == a.deadline->Some_0.0 && t.started_at == now && t.iterations_completed
            == 0 && orders(v@) == seq![Order::MakeHome, Order::Save(t), Order::ReadRecords])),
{
}

/// A saved run goes on from its checkpoint: the commit that it builds on is
/// looked for; the worktree of an interrupted iteration is removed; what became
/// of that iteration is looked up in the log, and only where the log does not
/// tell, in the last commit of the checkpoint's branch.
pub proof fn law_saved_run_goes_on(a: Session, b: Session, i: RunInputs, n: News, v: Vec<Errand>)
    requires
        a.awaits(n),
        a.advanced(b, i, n, Ok(v)),
    ensures
        a.stage == Stage::Restoring ==> (n matches News::State(Some(t)) ==> b.state == Some(t)
            && b.stage == Stage::Reaching && orders(v@) == seq![
            Order::Git(
                Call {
                    args: seq!["rev-parse"@, "--verify"@, t.base_commit@ + "^{}"@],
                    cwd: i.git.root(),
                },
            ),
        ]),
        a.stage == Stage::Restoring ==> (n matches News::State(None) ==> !i.recover_iter && b.stage
            == Stage::Scheduling && orders(v@) == seq![Order::Deadline]),
        a.stage == Stage::Reaching && a.state is Some ==> (n matches News::Reply(g) && g.success && (
        a.state->Some_0.iter_in_progress matches Some(k) ==> i.recover_iter && b.stage
            == Stage::Recalling && orders(v@) == seq![
            Order::Forget(
                Call {
                    args: seq![
                        "worktree"@,
                        "remove"@,
                        "--force"@,
                        path_joined(i.paths.attempt_dir(k), "wt"@),
                    ],
                    cwd: i.git.root(),
                },
            ),
            Order::ReadRecords,
        ])),
        a.stage == Stage::Reaching && a.state is Some && a.state->Some_0.iter_in_progress is None
            ==> b.state == a.state && (if i.fresh {
            b.stage == Stage::Refreshing && orders(v@) == seq![Order::Deadline]
        } else {
            b.stage == Stage::Reading && orders(v@) == seq![Order::ReadRecords]
        }),
        a.stage == Stage::Recalling && a.state is Some && a.state->Some_0.iter_in_progress is Some
            ==> (n matches News::Records(l) && b.records == l && b.state == a.state && (if exists|
            k: int,
        |
            0 <= k < l@.len() && (#[trigger] l@[k]).iter == a.state->Some_0.iter_in_progress->Some_0 {
            b.stage == Stage::Settling && orders(v@) == seq![Order::Clock]
        } else {
            b.stage == Stage::Telling && orders(v@) == seq![
                Order::Git(
                    Call {
                        args: seq!["log"@, "-1"@, "--format=%s"@, a.state->Some_0.branch@],
                        cwd: i.git.root(),
                    },
                ),
            ]
        })),
        a.stage == Stage::Telling ==> (n matches News::Reply(g) && g.success && b.subject@
            == text::trimmed(g.stdout@) && b.stage == Stage::Settling && b.records == a.records
            && b.state == a.state && orders(v@) == seq![Order::Clock]),
        a.stage == Stage::Refreshing && a.state is Some ==> (n matches News::Deadline(d, now)
            && now.nanos < d.0.nanos && (b.state matches Some(t) && t.deadline == d.0
            && t.started_at == now && t.run_iterations_completed == 0 && t.iterations_completed
            == a.state->Some_0.iterations_completed && orders(v@) == seq![
            Order::Save(t),
            Order::ReadRecords,
        ])),
        a.stage == Stage::Reading ==> (n matches News::Records(l) && b.records == l && b.state
            == a.state && orders(v@) == seq![Order::Backfill]),
        a.stage == Stage::Backfilling ==> (n matches News::Records(l) && b.records == l && b.state
            == a.state && orders(v@) == seq![Order::Clock]),
{
    if a.stage == Stage::Recalling && a.state is Some && a.state->Some_0.iter_in_progress is Some {
        if let News::Records(l) = n {
            run::law_recovery_follows_the_evidence(
                l@,
                Seq::empty(),
                a.state->Some_0.iter_in_progress->Some_0,
            );
        }
    }
}

/// What the recovery of an interrupted iteration comes to is saved, the record
/// that it makes up for before the checkpoint that counts it; then a fresh start
/// asks for its deadline, and any other reads the log.
pub proof fn law_recovery_is_saved(
    a: Session,
    b: Session,
    i: RunInputs,
    now: Timestamp,
    r: Result<Vec<Errand>, Error>,
)
    requires
        a.stage == Stage::Settling,
        a.state is Some && a.state->Some_0.iter_in_progress is Some,
        a.advanced(b, i, News::Time(now), r),
    ensures
        r is Ok,
        b.state is Some,
        ({
            let p = orders(r->Ok_0@);
            let n = p.len() as int;
            &&& n >= 2
            &&& p[n - 2] == Order::Save(b.state->Some_0)
            &&& p[n - 1] == (if i.fresh {
                Order::Deadline
            } else {
                Order::ReadRecords
            })
            &&& n == 2 <==> exists|k: int|
                0 <= k < a.records@.len() && (#[trigger] a.records@[k]).iter
                    == a.state->Some_0.iter_in_progress->Some_0
            &&& n != 2 ==> n == 3 && (p[0] matches Order::Append(rec) && run::is_reconciled(
                a.state->Some_0,
                b.state->Some_0,
                a.records@,
                a.subject@,
                i.cfg.objective.direction,
                now,
                Ok(Some(rec)),
            ))
            &&& n == 2 ==> run::is_reconciled(
                a.state->Some_0,
                b.state->Some_0,
                a.records@,
                a.subject@,
                i.cfg.objective.direction,
                now,
                Ok(None),
            )
        }),
{
    run::law_recovery_follows_the_evidence(
        a.records@,
        Seq::empty(),
        a.state->Some_0.iter_in_progress->Some_0,
    );
}

} // verus!
