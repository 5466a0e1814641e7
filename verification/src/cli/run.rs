//! The experiment loop: how it starts, when it stops, and how it recovers.
use vstd::prelude::*;

use crate::config::{Config, Direction, Schedule};
use crate::error::Error;
use crate::iteration::is_merge_message;
use crate::prompt;
use crate::schedule::Deadline;
use crate::score::{self, Score};
use crate::shortest;
use crate::storage::{CurrentStep, IterationRecord, Outcome, StateSnapshot};
use crate::text;
use crate::time::Timestamp;

verus! {

/// What running takes.
#[derive(Debug)]
pub struct RunArgs {
    pub name: String,
    /// Go on even with uncommitted changes.
    pub allow_dirty: bool,
    /// Start another run on a finished experiment, building on its best score.
    pub fresh: bool,
}

/// What the loop takes.
#[derive(Debug)]
pub struct LoopArgs {
    pub name: String,
    pub allow_dirty: bool,
    /// Take up an iteration that was in progress.
    pub recover_iter: bool,
    pub fresh: bool,
}

/// The loop that running runs: it leaves an iteration that was in progress
/// alone.
pub fn run(args: RunArgs) -> (r: LoopArgs)
    ensures
        r == (LoopArgs {
            name: args.name,
            allow_dirty: args.allow_dirty,
            recover_iter: false,
            fresh: args.fresh,
        }),
{
    LoopArgs {
        name: args.name,
        allow_dirty: args.allow_dirty,
        recover_iter: false,
        fresh: args.fresh,
    }
}

/// The message for an experiment that is not there.
pub open spec fn not_found_text(name: Seq<char>, root: Seq<char>) -> Seq<char> {
    "experiment "@ + text::quoted(name) + " not found at "@ + text::quoted(root)
        + "; run `autorize init "@ + name + "` first"@
}

/// The error for an experiment that is not there.
pub fn not_found(name: &str, root: &str) -> (r: Error)
    ensures
        r matches Error::Config(m) && m@ == not_found_text(name@, root@),
{
    let mut m = text::owned("experiment ");
    m.push_str(text::quote(name).as_str());
    m.push_str(" not found at ");
    m.push_str(text::quote(root).as_str());
    m.push_str("; run `autorize init ");
    m.push_str(name);
    m.push_str("` first");
    Error::Config(m)
}

/// What is told outside a repository.
pub const NO_REPO: &'static str = "not a git repository (cd into one or `git init`)";

/// Accepts a directory inside a repository.
pub fn check_repo(inside: bool) -> (r: Result<(), Error>)
    ensures
        if inside {
            r is Ok
        } else {
            r matches Err(Error::Git(m)) && m@ == NO_REPO@
        },
{
    if !inside {
        return Err(Error::Git(text::owned(NO_REPO)));
    }
    Ok(())
}

/// What is told of uncommitted changes.
pub const DIRTY: &'static str =
    "working tree has uncommitted changes; pass --allow-dirty to override";

/// Accepts a working tree without uncommitted changes.
pub fn check_clean(clean: bool) -> (r: Result<(), Error>)
    ensures
        if clean {
            r is Ok
        } else {
            r matches Err(Error::Git(m)) && m@ == DIRTY@
        },
{
    if !clean {
        return Err(Error::Git(text::owned(DIRTY)));
    }
    Ok(())
}

/// The prefixes under which uncommitted changes never matter: the harness's own
/// bookkeeping and its log.
pub fn own_prefixes() -> (r: Vec<String>)
    ensures
        text::texts(r@) == seq![".autorize/"@, "logs/"@],
{
    let mut v: Vec<String> = Vec::new();
    v.push(text::owned(".autorize/"));
    v.push(text::owned("logs/"));
    assert(text::texts(v@) =~= seq![".autorize/"@, "logs/"@]);
    v
}

/// The branch that an experiment's improvements are kept on.
pub fn tracking_branch(name: &str) -> (r: String)
    ensures
        r@ == "autorize/"@ + name@,
{
    let mut out = text::owned("autorize/");
    out.push_str(name);
    out
}

/// How the loop starts.
#[derive(Debug, Clone, Copy, PartialEq, Eq, Structural)]
pub enum Start {
    /// Without a checkpoint: make the branch and the first checkpoint.
    Create,
    /// From a checkpoint.
    Continue {
        /// First settle the iteration that was in progress.
        recover: bool,
        /// Then reset the run's limits.
        fresh: bool,
    },
}

/// How the loop starts, or why it cannot.
pub open spec fn is_start(
    name: Seq<char>,
    state: Option<StateSnapshot>,
    reachable: bool,
    recover_iter: bool,
    fresh: bool,
    r: Result<Start, Error>,
) -> bool {
    match state {
        None => if recover_iter {
            r matches Err(Error::Config(m)) && m@ == "no state.json for experiment "@
                + text::quoted(name) + "; nothing to resume \u{2014} run `autorize run "@ + name
                + "` first"@
        } else {
            r == Ok::<Start, Error>(Start::Create)
        },
        Some(s) => if !reachable {
            r matches Err(Error::Git(m)) && m@ == "base_commit "@ + s.base_commit@
                + " unreachable; aborting"@
        } else if s.iter_in_progress is Some && !recover_iter {
            r matches Err(Error::Config(m)) && m@
                == "in-progress iteration found; use `autorize resume`"@
        } else {
            r == Ok::<Start, Error>(
                Start::Continue { recover: s.iter_in_progress is Some, fresh },
            )
        },
    }
}

/// Tells how the loop starts, or why it cannot. `reachable` tells whether the
/// commit that the checkpoint builds on is still there.
pub fn start(
    name: &str,
    state: &Option<StateSnapshot>,
    reachable: bool,
    recover_iter: bool,
    fresh: bool,
) -> (r: Result<Start, Error>)
    ensures
        is_start(name@, *state, reachable, recover_iter, fresh, r),
{
    match state {
        None => {
            if recover_iter {
                let mut m = text::owned("no state.json for experiment ");
                m.push_str(text::quote(name).as_str());
                m.push_str("; nothing to resume \u{2014} run `autorize run ");
                m.push_str(name);
                m.push_str("` first");
                return Err(Error::Config(m));
            }
            Ok(Start::Create)
        },
        Some(s) => {
            if !reachable {
                let mut m = text::owned("base_commit ");
                m.push_str(s.base_commit.as_str());
                m.push_str(" unreachable; aborting");
                return Err(Error::Git(m));
            }
            if s.iter_in_progress.is_some() && !recover_iter {
                return Err(
                    Error::Config(
                        text::owned("in-progress iteration found; use `autorize resume`"),
                    ),
                );
            }
            Ok(Start::Continue { recover: s.iter_in_progress.is_some(), fresh })
        },
    }
}

/// The first checkpoint of an experiment.
pub fn first_state(
    name: String,
    branch: String,
    base_commit: String,
    deadline: Deadline,
    now: Timestamp,
) -> (r: StateSnapshot)
    ensures
        r == (StateSnapshot {
            experiment: name,
            branch,
            base_commit,
            iter_in_progress: None,
            current_step: CurrentStep::Idle,
            best_score: None,
            best_iter: None,
            started_at: now,
            deadline: deadline.0,
            iterations_completed: 0,
            run_iterations_completed: 0,
            consecutive_noops: 0,
        }),
{
    StateSnapshot {
        experiment: name,
        branch,
        base_commit,
        iter_in_progress: None,
        current_step: CurrentStep::Idle,
        best_score: None,
        best_iter: None,
        started_at: now,
        deadline: deadline.at(),
        iterations_completed: 0,
        run_iterations_completed: 0,
        consecutive_noops: 0,
    }
}

/// Why the loop stops.
#[derive(Debug, Clone, Copy, PartialEq, Eq, Structural)]
pub enum Stop {
    Deadline,
    MaxIterations,
    MaxConsecutiveNoops,
}

/// Why the loop stops, if it does.
pub open spec fn stop_reason(s: StateSnapshot, c: Config, now: Timestamp) -> Option<Stop> {
    if now.nanos >= s.deadline.nanos {
        Some(Stop::Deadline)
    } else if c.iteration.max_iterations > 0 && s.run_iterations_completed
        >= c.iteration.max_iterations {
        Some(Stop::MaxIterations)
    } else if s.consecutive_noops >= c.iteration.max_consecutive_noops {
        Some(Stop::MaxConsecutiveNoops)
    } else {
        None
    }
}

/// Tells whether the loop stops before its next iteration, and why.
pub fn should_stop(state: &StateSnapshot, cfg: &Config, now: Timestamp) -> (r: Option<Stop>)
    ensures
        r == stop_reason(*state, *cfg, now),
{
    let deadline = Deadline(state.deadline);
    if deadline.is_expired(now) {
        return Some(Stop::Deadline);
    }
    if cfg.iteration.max_iterations > 0 && state.run_iterations_completed
        >= cfg.iteration.max_iterations {
        return Some(Stop::MaxIterations);
    }
    if state.consecutive_noops >= cfg.iteration.max_consecutive_noops {
        return Some(Stop::MaxConsecutiveNoops);
    }
    None
}

/// A run is bounded: an iteration that the limits let begin ends with no more
/// iterations than its limit allows, and with no longer streak of iterations
/// that changed nothing.
pub proof fn law_run_is_bounded(
    s: StateSnapshot,
    c: Config,
    now: Timestamp,
    r: IterationRecord,
    best: Option<(Score, u64)>,
)
    requires
        crate::iteration::countable(s),
        stop_reason(s, c, now) is None,
    ensures
        now.nanos < s.deadline.nanos,
        c.iteration.max_iterations > 0 ==> crate::iteration::settled(s, r, best).run_iterations_completed
            <= c.iteration.max_iterations,
        crate::iteration::settled(s, r, best).consecutive_noops <= c.iteration.max_consecutive_noops,
{
}

/// The greatest number among the records, zero where there are none.
pub open spec fn last_number(records: Seq<IterationRecord>) -> u64
    decreases records.len(),
{
    if records.len() == 0 {
        0
    } else {
        let before = last_number(records.drop_last());
        if records.last().iter > before {
            records.last().iter
        } else {
            before
        }
    }
}

/// The greatest number that was given to an iteration.
pub open spec fn used_number(s: StateSnapshot, records: Seq<IterationRecord>) -> u64 {
    let from_records = last_number(records);
    match s.iter_in_progress {
        Some(i) => if i > from_records {
            i
        } else {
            from_records
        },
        None => from_records,
    }
}

/// The number of the next iteration.
pub fn next_iter_number(state: &StateSnapshot, records: &Vec<IterationRecord>) -> (r: u64)
    requires
        used_number(*state, records@) < u64::MAX,
    ensures
        r == used_number(*state, records@) + 1,
{
    let mut top: u64 = 0;
    let mut i: usize = 0;
    while i < records.len()
        invariant
            i <= records.len(),
            top == last_number(records@.take(i as int)),
        decreases records.len() - i,
    {
        assert(records@.take(i as int + 1).drop_last() == records@.take(i as int));
        if records[i].iter > top {
            top = records[i].iter;
        }
        i += 1;
    }
    assert(records@.take(records@.len() as int) == records@);
    let mut used: u64 = top;
    if let Some(n) = state.iter_in_progress {
        if n > top {
            used = n;
        }
    }
    used + 1
}

proof fn lemma_last_number(records: Seq<IterationRecord>, k: int)
    requires
        0 <= k < records.len(),
    ensures
        records[k].iter <= last_number(records),
    decreases records.len(),
{
    if k < records.len() - 1 {
        lemma_last_number(records.drop_last(), k);
        assert(records.drop_last()[k] == records[k]);
    }
}

/// The next iteration's number is greater than that of every record and of the
/// iteration in progress: numbers strictly increase and are never used twice.
pub proof fn law_numbers_increase(s: StateSnapshot, records: Seq<IterationRecord>)
    ensures
        forall|k: int|
            0 <= k < records.len() ==> (#[trigger] records[k]).iter < used_number(s, records) + 1,
        s.iter_in_progress matches Some(i) ==> i < used_number(s, records) + 1,
{
    assert forall|k: int| 0 <= k < records.len() implies (#[trigger] records[k]).iter
        < used_number(s, records) + 1 by {
        lemma_last_number(records, k);
    }
}

/// The last `n` records.
pub fn recent_slice(records: &Vec<IterationRecord>, n: usize) -> (r: Vec<IterationRecord>)
    ensures
        r@ == records@.skip(if records@.len() <= n {
            0
        } else {
            records@.len() - n
        }),
{
    let from: usize = if records.len() <= n {
        0
    } else {
        records.len() - n
    };
    let mut out: Vec<IterationRecord> = Vec::new();
    let mut i: usize = from;
    while i < records.len()
        invariant
            from <= i <= records.len(),
            out@ == records@.subrange(from as int, i as int),
        decreases records.len() - i,
    {
        out.push(records[i].clone());
        assert(out@ =~= records@.subrange(from as int, i as int + 1));
        i += 1;
    }
    assert(records@.subrange(from as int, records@.len() as int) =~= records@.skip(from as int));
    out
}

/// The best score so far with its iteration, where both are known.
pub fn best_of(state: &StateSnapshot) -> (r: Option<(Score, u64)>)
    ensures
        r == match (state.best_score, state.best_iter) {
            (Some(s), Some(i)) => Some((s, i)),
            _ => None,
        },
{
    match (state.best_score, state.best_iter) {
        (Some(s), Some(i)) => Some((s, i)),
        _ => None,
    }
}

// ---------------------------------------------------------------------------
// A fresh start
// ---------------------------------------------------------------------------

/// The checkpoint after a fresh start: the run's limits are reset, all progress
/// stays.
pub open spec fn refreshed(s: StateSnapshot, deadline: Timestamp, now: Timestamp) -> StateSnapshot {
    StateSnapshot {
        deadline,
        consecutive_noops: 0,
        run_iterations_completed: 0,
        started_at: now,
        ..s
    }
}

/// What is told of a deadline that is over already.
pub open spec fn past_text(schedule: Schedule) -> Seq<char> {
    "schedule.deadline "@ + text::quoted(
        match schedule.deadline {
            Some(s) => s@,
            None => ""@,
        },
    ) + " is in the past; edit config.toml or switch to total_budget before `--fresh`"@
}

/// Resets the run's limits; refuses a deadline that is over already.
pub fn apply_fresh_reset(
    state: &mut StateSnapshot,
    schedule: &Schedule,
    deadline: Deadline,
    now: Timestamp,
) -> (r: Result<(), Error>)
    ensures
        if now.nanos >= deadline.0.nanos {
            &&& *final(state) == *old(state)
            &&& r matches Err(Error::Schedule(m)) && m@ == past_text(*schedule)
        } else {
            r is Ok && *final(state) == refreshed(*old(state), deadline.0, now)
        },
{
    if deadline.is_expired(now) {
        let shown = match &schedule.deadline {
            Some(s) => s.as_str(),
            None => "",
        };
        let mut m = text::owned("schedule.deadline ");
        m.push_str(text::quote(shown).as_str());
        m.push_str(
            " is in the past; edit config.toml or switch to total_budget before `--fresh`",
        );
        return Err(Error::Schedule(m));
    }
    state.deadline = deadline.at();
    state.consecutive_noops = 0;
    state.run_iterations_completed = 0;
    state.started_at = now;
    Ok(())
}

/// A fresh start keeps the best score, the branch and its base, and the count
/// of all iterations; it clears what stopped the last run.
pub proof fn law_fresh_start_keeps_progress(
    s: StateSnapshot,
    c: Config,
    deadline: Timestamp,
    now: Timestamp,
)
    requires
        now.nanos < deadline.nanos,
        c.iteration.max_consecutive_noops > 0,
    ensures
        refreshed(s, deadline, now).best_score == s.best_score,
        refreshed(s, deadline, now).best_iter == s.best_iter,
        refreshed(s, deadline, now).branch == s.branch,
        refreshed(s, deadline, now).base_commit == s.base_commit,
        refreshed(s, deadline, now).iterations_completed == s.iterations_completed,
        stop_reason(refreshed(s, deadline, now), c, now) is None,
{
}

// ---------------------------------------------------------------------------
// Recovery
// ---------------------------------------------------------------------------

/// The checkpoint with a score taken for the best one, if it improves on it.
pub open spec fn with_score(s: StateSnapshot, iter: u64, v: Score, direction: Direction) -> StateSnapshot {
    if score::improves(v, s.best_score, direction) {
        StateSnapshot { best_score: Some(v), best_iter: Some(iter), ..s }
    } else {
        s
    }
}

/// Takes a score for the best one, if it improves on it.
pub fn apply_score_to_best(
    state: &mut StateSnapshot,
    iter: u64,
    score: Score,
    direction: Direction,
)
    ensures
        *final(state) == with_score(*old(state), iter, score, direction),
{
    if score::is_improvement(&score, &state.best_score, direction) {
        state.best_score = Some(score);
        state.best_iter = Some(iter);
    }
}

/// The place of the record of an iteration, if there is one.
pub fn find_record(records: &Vec<IterationRecord>, iter: u64) -> (r: Option<usize>)
    ensures
        match r {
            Some(n) => n < records@.len() && records@[n as int].iter == iter && forall|k: int|
                0 <= k < n ==> (#[trigger] records@[k]).iter != iter,
            None => forall|k: int|
                0 <= k < records@.len() ==> (#[trigger] records@[k]).iter != iter,
        },
{
    let mut i: usize = 0;
    while i < records.len()
        invariant
            i <= records.len(),
            forall|k: int| 0 <= k < i ==> (#[trigger] records@[k]).iter != iter,
        decreases records.len() - i,
    {
        if records[i].iter == iter {
            return Some(i);
        }
        i += 1;
    }
    None
}

/// The checkpoint after the record of the interrupted iteration was replayed.
pub open spec fn replayed(s: StateSnapshot, r: IterationRecord, direction: Direction) -> StateSnapshot {
    let scored = match (r.outcome, r.score) {
        (Outcome::Merged, Some(v)) => with_score(s, r.iter, v, direction),
        _ => s,
    };
    StateSnapshot {
        iter_in_progress: None,
        current_step: CurrentStep::Idle,
        iterations_completed: (s.iterations_completed + 1) as u64,
        run_iterations_completed: if r.outcome == Outcome::Killed {
            s.run_iterations_completed
        } else {
            (s.run_iterations_completed + 1) as u64
        },
        consecutive_noops: crate::iteration::streak(s.consecutive_noops, r.outcome),
        ..scored
    }
}

/// Brings the checkpoint up to a record that was written before the crash.
pub fn replay_existing_record(
    state: &mut StateSnapshot,
    rec: &IterationRecord,
    direction: Direction,
)
    requires
        crate::iteration::countable(*old(state)),
    ensures
        *final(state) == replayed(*old(state), *rec, direction),
{
    if rec.outcome == Outcome::Merged {
        if let Some(s) = rec.score {
            apply_score_to_best(state, rec.iter, s, direction);
        }
    }
    state.iter_in_progress = None;
    state.current_step = CurrentStep::Idle;
    state.iterations_completed = state.iterations_completed + 1;
    if rec.outcome != Outcome::Killed {
        state.run_iterations_completed = state.run_iterations_completed + 1;
    }
    state.consecutive_noops = if rec.outcome == Outcome::Noop {
        state.consecutive_noops + 1
    } else {
        0
    };
}

/// The checkpoint after a merge whose record was lost in the crash.
pub open spec fn remerged(
    s: StateSnapshot,
    iter: u64,
    v: Score,
    direction: Direction,
) -> StateSnapshot {
    StateSnapshot {
        iter_in_progress: None,
        current_step: CurrentStep::Idle,
        iterations_completed: (s.iterations_completed + 1) as u64,
        run_iterations_completed: (s.run_iterations_completed + 1) as u64,
        consecutive_noops: 0,
        ..with_score(s, iter, v, direction)
    }
}

/// Makes up the record of a merge that was lost in the crash.
pub fn synthesize_merged_record(
    state: &mut StateSnapshot,
    iter: u64,
    score: Score,
    direction: Direction,
    now: Timestamp,
) -> (r: IterationRecord)
    requires
        old(state).iterations_completed < u64::MAX,
        old(state).run_iterations_completed < u64::MAX,
    ensures
        *final(state) == remerged(*old(state), iter, score, direction),
        r == (IterationRecord {
            iter,
            started_at: now,
            ended_at: now,
            outcome: Outcome::Merged,
            score: Some(score),
            best_so_far: final(state).best_score,
            agent_exit: None,
            agent_killed_by_budget: false,
            diff_lines: 0,
            notes: r.notes,
            summary: r.summary,
        }),
        r.notes@ == "reconciled from branch tip after crash"@,
        r.summary@.len() == 0,
{
    apply_score_to_best(state, iter, score, direction);
    let rec = IterationRecord {
        iter,
        started_at: now,
        ended_at: now,
        outcome: Outcome::Merged,
        score: Some(score),
        best_so_far: state.best_score,
        agent_exit: None,
        agent_killed_by_budget: false,
        diff_lines: 0,
        notes: text::owned("reconciled from branch tip after crash"),
        summary: String::new(),
    };
    state.iter_in_progress = None;
    state.current_step = CurrentStep::Idle;
    state.iterations_completed = state.iterations_completed + 1;
    state.run_iterations_completed = state.run_iterations_completed + 1;
    state.consecutive_noops = 0;
    rec
}

/// The checkpoint after an interrupted iteration was given up. It takes no slot
/// of the run's iterations, and it ends a streak of iterations that changed
/// nothing.
pub open spec fn given_up(s: StateSnapshot) -> StateSnapshot {
    StateSnapshot {
        iter_in_progress: None,
        current_step: CurrentStep::Idle,
        iterations_completed: (s.iterations_completed + 1) as u64,
        consecutive_noops: 0,
        ..s
    }
}

/// Makes the record of an interrupted iteration that was given up.
pub fn record_killed(state: &mut StateSnapshot, iter: u64, now: Timestamp) -> (r: IterationRecord)
    requires
        old(state).iterations_completed < u64::MAX,
    ensures
        *final(state) == given_up(*old(state)),
        r == (IterationRecord {
            iter,
            started_at: now,
            ended_at: now,
            outcome: Outcome::Killed,
            score: None,
            best_so_far: old(state).best_score,
            agent_exit: None,
            agent_killed_by_budget: false,
            diff_lines: 0,
            notes: r.notes,
            summary: r.summary,
        }),
        r.notes@ == "resumed after crash"@,
        r.summary@.len() == 0,
{
    let rec = IterationRecord {
        iter,
        started_at: now,
        ended_at: now,
        outcome: Outcome::Killed,
        score: None,
        best_so_far: state.best_score,
        agent_exit: None,
        agent_killed_by_budget: false,
        diff_lines: 0,
        notes: text::owned("resumed after crash"),
        summary: String::new(),
    };
    state.iter_in_progress = None;
    state.current_step = CurrentStep::Idle;
    state.iterations_completed = state.iterations_completed + 1;
    state.consecutive_noops = 0;
    rec
}

/// What follows the number in the subject of a merge.
pub const SCORE_MARK: &'static str = ": score ";

/// What the subject of a merge begins with.
pub const SUBJECT_MARK: &'static str = "autorize iter ";

/// A text without white space in it.
pub open spec fn is_solid(s: Seq<char>) -> bool {
    s.len() > 0 && forall|i: int| 0 <= i < s.len() ==> !text::is_white(#[trigger] s[i])
}

/// The score in the subject of a merge of an iteration: `autorize iter <N>:
/// score <S>`, where `<N>` is the iteration and `<S>` a number.
pub open spec fn merge_subject(subject: Seq<char>, iter: u64) -> Option<Score> {
    let t = text::trimmed(subject);
    let rest = t.skip(SUBJECT_MARK@.len() as int);
    let colon = text::find_char(rest, ':');
    let digits = rest.take(colon);
    let tail = rest.skip(colon);
    let body = tail.skip(SCORE_MARK@.len() as int);
    if text::begins_with(t, SUBJECT_MARK@) && digits.len() > 0 && text::all_digits(digits)
        && text::digits_value(digits) == iter && text::begins_with(tail, SCORE_MARK@) && is_solid(
        body,
    ) {
        score::score_of(body)
    } else {
        None
    }
}

fn is_solid_text(s: &str) -> (r: bool)
    ensures
        r == is_solid(s@),
{
    let v = text::chars_of(s);
    let mut i: usize = 0;
    while i < v.len()
        invariant
            i <= v.len(),
            v@ == s@,
            forall|k: int| 0 <= k < i ==> !text::is_white(#[trigger] s@[k]),
        decreases v.len() - i,
    {
        if text::char_is_white(v[i]) {
            assert(text::is_white(s@[i as int]));
            return false;
        }
        i += 1;
    }
    v.len() > 0
}

/// Reads the score off the subject of a merge of an iteration.
pub fn parse_merge_subject(subject: &str, expected_iter: u64) -> (r: Option<Score>)
    ensures
        r == merge_subject(subject@, expected_iter),
{
    let t = text::trim(subject);
    let rest = match text::strip_prefix(t.as_str(), SUBJECT_MARK) {
        Some(rest) => rest,
        None => {
            return None;
        },
    };
    proof {
        text::lemma_find_bounds(rest@, ':');
    }
    let v = text::chars_of(rest.as_str());
    assert(v@.skip(0) == v@);
    let colon = text::index_of(&v, 0, ':');
    let digits = text::slice_string(&v, 0, colon);
    let tail = text::slice_string(&v, colon, v.len());
    assert(digits@ == rest@.take(colon as int));
    assert(tail@ == rest@.skip(colon as int));
    let number = text::chars_of(digits.as_str());
    if number.len() == 0 || !text::only_digits(&number) {
        return None;
    }
    proof {
        text::lemma_plain_digits(digits@);
    }
    match text::parse_unsigned(digits.as_str(), u64::MAX) {
        Some(n) => {
            if n != expected_iter {
                return None;
            }
        },
        None => {
            return None;
        },
    }
    let body = match text::strip_prefix(tail.as_str(), SCORE_MARK) {
        Some(body) => body,
        None => {
            return None;
        },
    };
    if !is_solid_text(body.as_str()) {
        return None;
    }
    Score::parse(body.as_str())
}

/// The subject of a merge gives back the iteration's score, exactly, and no
/// score to any other iteration.
#[verifier::spinoff_prover]
#[verifier::rlimit(50)]
pub proof fn law_merge_subject_reads_back(msg: Seq<char>, iter: u64, s: Score, other: u64)
    requires
        s.finite(),
        is_merge_message(msg, iter, s),
    ensures
        merge_subject(msg, iter) == Some(s),
        other != iter ==> merge_subject(msg, other) is None,
{
    let t = choose|t: Seq<char>| #[trigger]
        shortest::shows(t, s) && msg == "autorize iter "@ + text::dec(iter as nat) + ": score "@ + t;
    shortest::law_shown_is_solid(t, s);
    shortest::law_shown_reads_back(t, s);
    text::law_dec_reads_back(iter as nat);
    reveal_strlit("autorize iter ");
    reveal_strlit(": score ");
    let n = text::dec(iter as nat);
    assert(msg[0] == 'a');
    assert(msg.last() == t.last());
    text::lemma_trimmed_whole(msg);
    let rest = n + (": score "@ + t);
    assert(msg.take(14) =~= "autorize iter "@);
    assert(msg.skip(14) =~= rest);
    assert(!n.contains(':')) by {
        if n.contains(':') {
            let k = choose|k: int| 0 <= k < n.len() && n[k] == ':';
            assert(text::is_digit(n[k]));
        }
    }
    text::lemma_find_first(n, ": score "@ + t, ':');
    assert(rest.take(n.len() as int) =~= n);
    let tail = rest.skip(n.len() as int);
    assert(tail =~= ": score "@ + t);
    assert(tail.take(8) =~= ": score "@);
    assert(tail.skip(8) =~= t);
}

/// How an interrupted iteration was settled: `later` is the checkpoint after it,
/// and `r` hands out the record that is to be added to the log.
pub open spec fn is_reconciled(
    s: StateSnapshot,
    later: StateSnapshot,
    existing: Seq<IterationRecord>,
    subject: Seq<char>,
    direction: Direction,
    now: Timestamp,
    r: Result<Option<IterationRecord>, Error>,
) -> bool {
    match s.iter_in_progress {
        None => later == s && (r matches Err(Error::Config(m)) && m@
            == "reconcile_in_progress called without in-progress iter"@),
        Some(iter) => match recovery(existing, subject, iter) {
            Recovery::Replay(k) => r == Ok::<Option<IterationRecord>, Error>(None) && later
                == replayed(s, existing[k], direction),
            Recovery::Remerge(v) => {
                &&& later == remerged(s, iter, v, direction)
                &&& r matches Ok(Some(rec))
                &&& rec.iter == iter
                &&& rec.outcome == Outcome::Merged
                &&& rec.score == Some(v)
                &&& rec.best_so_far == later.best_score
                &&& rec.started_at == now && rec.ended_at == now
                &&& rec.agent_exit is None && !rec.agent_killed_by_budget && rec.diff_lines == 0
                &&& rec.notes@ == "reconciled from branch tip after crash"@
                &&& rec.summary@.len() == 0
            },
            Recovery::GiveUp => {
                &&& later == given_up(s)
                &&& r matches Ok(Some(rec))
                &&& rec.iter == iter
                &&& rec.outcome == Outcome::Killed
                &&& rec.score is None
                &&& rec.best_so_far == s.best_score
                &&& rec.started_at == now && rec.ended_at == now
                &&& rec.agent_exit is None && !rec.agent_killed_by_budget && rec.diff_lines == 0
                &&& rec.notes@ == "resumed after crash"@
                &&& rec.summary@.len() == 0
            },
        },
    }
}

/// Settles the iteration that a crash interrupted. Where its record was
/// written, the record counts; where only its merge was made, which `subject`,
/// the last commit's, tells, the record is made up; otherwise the iteration is
/// given up. Hands out the record that is to be added to the log.
pub fn reconcile_in_progress(
    state: &mut StateSnapshot,
    existing: &Vec<IterationRecord>,
    subject: &str,
    direction: Direction,
    now: Timestamp,
) -> (r: Result<Option<IterationRecord>, Error>)
    requires
        crate::iteration::countable(*old(state)),
    ensures
        is_reconciled(*old(state), *final(state), existing@, subject@, direction, now, r),
{
    let iter = match state.iter_in_progress {
        Some(i) => i,
        None => {
            return Err(
                Error::Config(
                    text::owned("reconcile_in_progress called without in-progress iter"),
                ),
            );
        },
    };
    match find_record(existing, iter) {
        Some(n) => {
            proof {
                lemma_first_record(existing@, iter, n as int);
            }
            replay_existing_record(state, &existing[n], direction);
            return Ok(None);
        },
        None => {
            proof {
                lemma_no_record(existing@, iter);
            }
        },
    }
    match parse_merge_subject(subject, iter) {
        Some(v) => Ok(Some(synthesize_merged_record(state, iter, v, direction, now))),
        None => Ok(Some(record_killed(state, iter, now))),
    }
}

/// How an interrupted iteration is settled.
pub enum Recovery {
    /// By its record, at a place of the log.
    Replay(int),
    /// As merged with a score.
    Remerge(Score),
    /// As given up.
    GiveUp,
}

/// The place of the first record of an iteration, or the number of records.
pub open spec fn first_record(records: Seq<IterationRecord>, iter: u64) -> int
    decreases records.len(),
{
    if records.len() == 0 || records[0].iter == iter {
        0
    } else {
        1 + first_record(records.drop_first(), iter)
    }
}

/// How an interrupted iteration is settled.
pub open spec fn recovery(
    records: Seq<IterationRecord>,
    subject: Seq<char>,
    iter: u64,
) -> Recovery {
    if first_record(records, iter) < records.len() {
        Recovery::Replay(first_record(records, iter))
    } else {
        match merge_subject(subject, iter) {
            Some(v) => Recovery::Remerge(v),
            None => Recovery::GiveUp,
        }
    }
}

pub proof fn lemma_first_record(records: Seq<IterationRecord>, iter: u64, n: int)
    requires
        0 <= n < records.len(),
        records[n].iter == iter,
        forall|k: int| 0 <= k < n ==> (#[trigger] records[k]).iter != iter,
    ensures
        first_record(records, iter) == n,
    decreases n,
{
    if n > 0 {
        assert(records[0].iter != iter);
        let rest = records.drop_first();
        assert forall|k: int| 0 <= k < n - 1 implies (#[trigger] rest[k]).iter != iter by {
            assert(records[k + 1].iter != iter);
        }
        lemma_first_record(rest, iter, n - 1);
    }
}

pub proof fn lemma_no_record(records: Seq<IterationRecord>, iter: u64)
    requires
        forall|k: int| 0 <= k < records.len() ==> (#[trigger] records[k]).iter != iter,
    ensures
        first_record(records, iter) == records.len(),
    decreases records.len(),
{
    if records.len() > 0 {
        assert(records[0].iter != iter);
        let rest = records.drop_first();
        assert forall|k: int| 0 <= k < rest.len() implies (#[trigger] rest[k]).iter != iter by {
            assert(records[k + 1].iter != iter);
        }
        lemma_no_record(rest, iter);
    }
}

/// However an interrupted iteration is settled, nothing stays in progress, it
/// is counted once, and the best score gets no worse; given up, it takes no slot
/// of the run's iterations and leaves the best score alone. A record of the
/// iteration as given up leads to the same checkpoint as giving it up.
pub proof fn law_recovery_settles(
    s: StateSnapshot,
    r: IterationRecord,
    iter: u64,
    v: Score,
    direction: Direction,
)
    requires
        crate::iteration::countable(s),
    ensures
        replayed(s, r, direction).iter_in_progress is None,
        remerged(s, iter, v, direction).iter_in_progress is None,
        given_up(s).iter_in_progress is None,
        replayed(s, r, direction).iterations_completed == s.iterations_completed + 1,
        remerged(s, iter, v, direction).iterations_completed == s.iterations_completed + 1,
        given_up(s).iterations_completed == s.iterations_completed + 1,
        given_up(s).run_iterations_completed == s.run_iterations_completed,
        given_up(s).best_score == s.best_score,
        given_up(s).best_iter == s.best_iter,
        r.outcome == Outcome::Killed ==> replayed(s, r, direction) == given_up(s),
        s.best_score matches Some(b) ==> (remerged(s, iter, v, direction).best_score matches Some(w)
            && !b.better(w, direction)),
        s.best_score matches Some(b) ==> (replayed(s, r, direction).best_score matches Some(w)
            && !b.better(w, direction)),
{
}

/// After a crash between the merge of an iteration and its record, the score
/// that was merged is recovered from the commit, exactly.
pub proof fn law_lost_merge_is_recovered(
    records: Seq<IterationRecord>,
    msg: Seq<char>,
    iter: u64,
    s: Score,
)
    requires
        forall|k: int| 0 <= k < records.len() ==> (#[trigger] records[k]).iter != iter,
        s.finite(),
        is_merge_message(msg, iter, s),
    ensures
        recovery(records, msg, iter) == Recovery::Remerge(s),
{
    lemma_no_record(records, iter);
    law_merge_subject_reads_back(msg, iter, s, iter);
}

// ---------------------------------------------------------------------------
// Narrative
// ---------------------------------------------------------------------------

/// A score with six decimals, where there is one.
pub open spec fn told_score(s: Option<Score>) -> Seq<char> {
    match s {
        Some(v) => score::fixed_text(v, 6),
        None => "(none)"@,
    }
}

fn score_words(s: Option<Score>) -> (r: String)
    ensures
        r@ == told_score(s),
{
    match s {
        Some(v) => v.fixed(6),
        None => text::owned("(none)"),
    }
}

/// The line told of a finished iteration.
pub fn progress_line(rec: &IterationRecord, best: Option<Score>) -> (r: String)
    ensures
        r@ == "iter "@ + text::dec(rec.iter as nat) + ": "@ + prompt::outcome_word(rec.outcome)
            + " score="@ + told_score(rec.score) + " best="@ + told_score(best),
{
    let mut out = text::owned("iter ");
    out.push_str(text::dec_string(rec.iter).as_str());
    out.push_str(": ");
    out.push_str(prompt::outcome_label(rec.outcome));
    out.push_str(" score=");
    out.push_str(score_words(rec.score).as_str());
    out.push_str(" best=");
    out.push_str(score_words(best).as_str());
    out
}

/// The best iteration in words.
pub open spec fn told_best(iter: Option<u64>, s: Option<Score>) -> Seq<char> {
    match (iter, s) {
        (Some(i), Some(v)) => "iter "@ + text::dec(i as nat) + ", score "@ + score::fixed_text(v, 6),
        _ => "(none)"@,
    }
}

/// The best iteration in words.
pub fn best_words(iter: Option<u64>, s: Option<Score>) -> (r: String)
    ensures
        r@ == told_best(iter, s),
{
    match (iter, s) {
        (Some(i), Some(v)) => {
            let mut out = text::owned("iter ");
            out.push_str(text::dec_string(i).as_str());
            out.push_str(", score ");
            out.push_str(v.fixed(6).as_str());
            out
        },
        _ => text::owned("(none)"),
    }
}

/// The line told at the end of a run.
pub fn final_summary(state: &StateSnapshot) -> (r: String)
    ensures
        r@ == "run complete: experiment="@ + state.experiment@ + " iterations="@ + text::dec(
            state.iterations_completed as nat,
        ) + " best="@ + told_best(state.best_iter, state.best_score),
{
    let mut out = text::owned("run complete: experiment=");
    out.push_str(state.experiment.as_str());
    out.push_str(" iterations=");
    out.push_str(text::dec_string(state.iterations_completed).as_str());
    out.push_str(" best=");
    out.push_str(best_words(state.best_iter, state.best_score).as_str());
    out
}

/// The loop goes on exactly as long as no limit is reached: before the deadline,
/// below the run's number of iterations where one is set, and below the streak
/// of iterations that changed nothing. The reason for a stop is the limit that
/// is reached, the deadline before the others.
pub proof fn law_stops_at_the_limits(s: StateSnapshot, c: Config, now: Timestamp)
    ensures
        stop_reason(s, c, now) is None <==> now.nanos < s.deadline.nanos && (
        c.iteration.max_iterations == 0 || s.run_iterations_completed < c.iteration.max_iterations)
            && s.consecutive_noops < c.iteration.max_consecutive_noops,
        stop_reason(s, c, now) == Some(Stop::Deadline) <==> now.nanos >= s.deadline.nanos,
        stop_reason(s, c, now) == Some(Stop::MaxIterations) ==> c.iteration.max_iterations > 0
            && s.run_iterations_completed >= c.iteration.max_iterations,
        stop_reason(s, c, now) == Some(Stop::MaxConsecutiveNoops) ==> s.consecutive_noops
            >= c.iteration.max_consecutive_noops && (c.iteration.max_iterations == 0
            || s.run_iterations_completed < c.iteration.max_iterations),
{
}

/// Numbers leave no gap: the greatest number used is that of a record or of the
/// iteration in progress, and zero where there is neither.
pub proof fn law_numbers_leave_no_gap(s: StateSnapshot, records: Seq<IterationRecord>)
    ensures
        used_number(s, records) == 0 || s.iter_in_progress == Some(used_number(s, records))
            || exists|k: int|
            0 <= k < records.len() && (#[trigger] records[k]).iter == used_number(s, records),
{
    lemma_last_number_is_used(records);
}

proof fn lemma_last_number_is_used(records: Seq<IterationRecord>)
    ensures
        last_number(records) == 0 || exists|k: int|
            0 <= k < records.len() && (#[trigger] records[k]).iter == last_number(records),
    decreases records.len(),
{
    if records.len() > 0 {
        let init = records.drop_last();
        lemma_last_number_is_used(init);
        if last_number(records) == records.last().iter {
            assert(records[records.len() - 1].iter == last_number(records));
        } else if last_number(init) != 0 {
            let k = choose|k: int|
                0 <= k < init.len() && (#[trigger] init[k]).iter == last_number(init);
            assert(records[k] == init[k]);
        }
    }
}

/// A fresh start begins a new run now, with the new deadline and with its counts
/// at zero; nothing else changes.
pub proof fn law_fresh_start_begins_anew(s: StateSnapshot, deadline: Timestamp, now: Timestamp)
    ensures
        refreshed(s, deadline, now).deadline == deadline,
        refreshed(s, deadline, now).started_at == now,
        refreshed(s, deadline, now).run_iterations_completed == 0,
        refreshed(s, deadline, now).consecutive_noops == 0,
        refreshed(s, deadline, now).iter_in_progress == s.iter_in_progress,
        refreshed(s, deadline, now).current_step == s.current_step,
        refreshed(s, deadline, now).experiment == s.experiment,
{
}

/// An interrupted iteration is settled by the best evidence: its record where
/// there is one, else the commit that merged it, and else it is given up.
pub proof fn law_recovery_follows_the_evidence(
    records: Seq<IterationRecord>,
    subject: Seq<char>,
    iter: u64,
)
    ensures
        recovery(records, subject, iter) is Replay <==> exists|k: int|
            0 <= k < records.len() && (#[trigger] records[k]).iter == iter,
        recovery(records, subject, iter) matches Recovery::Replay(k) ==> 0 <= k < records.len()
            && records[k].iter == iter,
        recovery(records, subject, iter) matches Recovery::Remerge(v) ==> merge_subject(
            subject,
            iter,
        ) == Some(v),
        recovery(records, subject, iter) is GiveUp ==> merge_subject(subject, iter) is None,
{
    lemma_first_is_found(records, iter);
}

proof fn lemma_first_is_found(records: Seq<IterationRecord>, iter: u64)
    ensures
        0 <= first_record(records, iter) <= records.len(),
        first_record(records, iter) < records.len() ==> records[first_record(records, iter)].iter
            == iter,
        first_record(records, iter) == records.len() ==> forall|k: int|
            0 <= k < records.len() ==> (#[trigger] records[k]).iter != iter,
    decreases records.len(),
{
    if records.len() > 0 && records[0].iter != iter {
        let rest = records.drop_first();
        lemma_first_is_found(rest, iter);
        if first_record(rest, iter) == rest.len() {
            assert forall|k: int| 0 <= k < records.len() implies (#[trigger] records[k]).iter
                != iter by {
                if k > 0 {
                    assert(rest[k - 1] == records[k]);
                }
            }
        }
    }
}

/// A settled iteration leaves the experiment, its branch and base, and the run's
/// deadline as they are. It counts for the run unless it was killed. The best
/// score moves only with a merge that improves on it, and then to that merge's
/// score and number; a record that is added tells that number, too.
pub proof fn law_recovery_moves_only_the_counts(
    s: StateSnapshot,
    later: StateSnapshot,
    existing: Seq<IterationRecord>,
    subject: Seq<char>,
    direction: Direction,
    now: Timestamp,
    r: Result<Option<IterationRecord>, Error>,
    iter: u64,
)
    requires
        crate::iteration::countable(s),
        s.iter_in_progress == Some(iter),
        is_reconciled(s, later, existing, subject, direction, now, r),
    ensures
        r is Ok,
        later.iter_in_progress is None,
        later.current_step == CurrentStep::Idle,
        later.experiment == s.experiment && later.branch == s.branch && later.base_commit
            == s.base_commit,
        later.deadline == s.deadline && later.started_at == s.started_at,
        later.iterations_completed == s.iterations_completed + 1,
        r->Ok_0 is Some <==> !(recovery(existing, subject, iter) is Replay),
        r->Ok_0 matches Some(rec) ==> {
            &&& rec.iter == iter
            &&& rec.started_at == now && rec.ended_at == now
            &&& rec.best_so_far == later.best_score
            &&& rec.outcome == Outcome::Merged || rec.outcome == Outcome::Killed
            &&& rec.outcome == Outcome::Merged <==> merge_subject(subject, iter) is Some
            &&& rec.outcome == Outcome::Merged ==> rec.score == merge_subject(subject, iter)
        },
        recovery(existing, subject, iter) matches Recovery::Replay(k) ==> {
            let old = existing[k];
            &&& later.run_iterations_completed == s.run_iterations_completed + (if old.outcome
                == Outcome::Killed {
                0int
            } else {
                1int
            })
            &&& later.consecutive_noops == (if old.outcome == Outcome::Noop {
                s.consecutive_noops + 1
            } else {
                0
            })
            &&& old.outcome != Outcome::Merged ==> later.best_score == s.best_score
                && later.best_iter == s.best_iter
            &&& old.outcome == Outcome::Merged ==> (old.score matches Some(v) ==> if
            score::improves(v, s.best_score, direction) {
                later.best_score == Some(v) && later.best_iter == Some(old.iter)
            } else {
                later.best_score == s.best_score && later.best_iter == s.best_iter
            })
        },
        recovery(existing, subject, iter) matches Recovery::Remerge(v) ==> {
            &&& later.run_iterations_completed == s.run_iterations_completed + 1
            &&& later.consecutive_noops == 0
            &&& if score::improves(v, s.best_score, direction) {
                later.best_score == Some(v) && later.best_iter == Some(iter)
            } else {
                later.best_score == s.best_score && later.best_iter == s.best_iter
            }
        },
        recovery(existing, subject, iter) is GiveUp ==> {
            &&& later.run_iterations_completed == s.run_iterations_completed
            &&& later.consecutive_noops == 0
            &&& later.best_score == s.best_score && later.best_iter == s.best_iter
        },
{
}

/// A loop starts only where it may: nothing is resumed where nothing was begun,
/// nothing goes on without its base commit, and an interrupted iteration is not
/// passed over.
pub proof fn law_start_is_admitted(
    name: Seq<char>,
    state: Option<StateSnapshot>,
    reachable: bool,
    recover_iter: bool,
    fresh: bool,
    r: Result<Start, Error>,
)
    requires
        is_start(name, state, reachable, recover_iter, fresh, r),
    ensures
        r is Ok <==> match state {
            None => !recover_iter,
            Some(s) => reachable && (s.iter_in_progress is None || recover_iter),
        },
        r == Ok::<Start, Error>(Start::Create) ==> state is None,
        r matches Ok(Start::Continue { recover, fresh: f }) ==> f == fresh && (state matches Some(s)
            && recover == (s.iter_in_progress is Some)),
{
}

/// Messages name what they are about: the experiment that is not there and how
/// to make it, and the deadline that is over.
pub proof fn law_messages_name_their_subject(
    name: Seq<char>,
    root: Seq<char>,
    schedule: Schedule,
    deadline: String,
)
    requires
        schedule.deadline == Some(deadline),
    ensures
        text::begins_with(not_found_text(name, root), "experiment "@ + text::quoted(name)),
        text::finishes_with(
            not_found_text(name, root),
            "; run `autorize init "@ + name + "` first"@,
        ),
        text::occurs_in(text::quoted(root), not_found_text(name, root)),
        text::begins_with(past_text(schedule), "schedule.deadline "@ + text::quoted(deadline@)),
{
    let q = text::quoted(name);
    let r = text::quoted(root);
    let end = "; run `autorize init "@ + name + "` first"@;
    let t = not_found_text(name, root);
    let mid = " not found at "@ + r;
    assert(t == "experiment "@ + q + (mid + end));
    text::lemma_starts("experiment "@ + q, mid + end);
    assert(t.skip(t.len() - end.len()) == end);
    assert(t == ("experiment "@ + q + " not found at "@) + r + end);
    text::lemma_occurs_between(r, "experiment "@ + q + " not found at "@, end);
    text::lemma_starts(
        "schedule.deadline "@ + text::quoted(deadline@),
        " is in the past; edit config.toml or switch to total_budget before `--fresh`"@,
    );
}

/// The best iteration is told with its number and its score, and so is a score
/// alone; where there is none, that is told.
pub proof fn law_best_is_told(n: u64, v: Score)
    ensures
        told_best(Some(n), Some(v)) == "iter "@ + text::dec(n as nat) + ", score "@
            + score::fixed_text(v, 6),
        told_best(None, Some(v)) == "(none)"@ && told_best(Some(n), None) == "(none)"@,
        told_score(Some(v)) == score::fixed_text(v, 6),
        told_score(None) == "(none)"@,
{
}

} // verus!
