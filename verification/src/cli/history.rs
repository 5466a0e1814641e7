//! Whole runs: what becomes of the log, the checkpoint and the tracking branch.
use vstd::prelude::*;

use crate::cli::run;
use crate::cli::session::{self, News, Order, RunInputs, Session, Stage, Step};
use crate::iteration::{self, IterationInputs, Move};
use crate::schedule::Deadline;
use crate::score::{self, Score};
use crate::storage::{IterationRecord, Outcome, StateSnapshot};
use crate::time::Timestamp;
use crate::worktree::Call;

verus! {

/// What a run finds and leaves outside of itself.
#[verifier::ext_equal]
pub struct World {
    /// The checkpoint on disk.
    pub saved: Option<StateSnapshot>,
    /// The records in the log.
    pub log: Seq<IterationRecord>,
    /// The commit that the tracking branch points at.
    pub tip: Seq<char>,
}

/// Whether inputs are those of an iteration that a run hands out.
pub open spec fn is_round(
    ins: IterationInputs,
    i: RunInputs,
    iter: u64,
    best: Option<(Score, u64)>,
    recent: Seq<IterationRecord>,
) -> bool {
    &&& ins.cfg == i.cfg
    &&& ins.paths == i.paths
    &&& ins.git == i.git
    &&& ins.branch == i.branch
    &&& ins.iter == iter
    &&& ins.best == best
    &&& ins.recent@ == recent
}

/// Whether a record is that of an iteration which a run handed out. The tracking
/// branch moves only where the iteration moves a branch.
pub open spec fn iterated(
    i: RunInputs,
    w: World,
    later: World,
    iter: u64,
    best: Option<(Score, u64)>,
    recent: Seq<IterationRecord>,
    rec: IterationRecord,
) -> bool {
    exists|ins: IterationInputs, vars: Map<Seq<char>, Seq<char>>, t: Seq<Move>|
        {
            &&& is_round(ins, i, iter, best, recent)
            &&& #[trigger] iteration::is_attempt(ins, vars, t, rec)
            &&& iteration::stays_put(ins, vars, t) ==> later.tip == w.tip
        }
}

/// Whether records are others with summaries that were made up for: none where
/// summaries are not wanted, and otherwise only summaries that were missing.
pub open spec fn made_up(
    i: RunInputs,
    before: Seq<IterationRecord>,
    after: Seq<IterationRecord>,
) -> bool {
    &&& after.len() == before.len()
    &&& forall|k: int|
        0 <= k < before.len() ==> {
            ||| (#[trigger] after[k]) == before[k]
            ||| {
                &&& i.cfg.summarize.enabled
                &&& iteration::wants_summary(before[k], false)
                &&& after[k] == (IterationRecord { summary: after[k].summary, ..before[k] })
            }
        }
}

/// What an order does to the world. An iteration notes its steps in the
/// checkpoint; no git command moves the tracking branch but one that makes or
/// repoints a branch; and the log is written anew only for summaries.
pub open spec fn did(i: RunInputs, o: Order, w: World, later: World) -> bool {
    match o {
        Order::Save(s) => later == (World { saved: Some(s), ..w }),
        Order::Append(r) => later == (World { log: w.log.push(r), ..w }),
        Order::Git(c) | Order::Forget(c) => {
            &&& later.saved == w.saved
            &&& later.log == w.log
            &&& !iteration::repoints(c) ==> later.tip == w.tip
        },
        Order::Backfill => {
            &&& later.saved == w.saved
            &&& later.tip == w.tip
            &&& made_up(i, w.log, later.log)
        },
        Order::Iterate(_, _, _) => later.log == w.log,
        _ => later == w,
    }
}

/// What the news of an order tells of the world. The tracking branch that was
/// made points at the commit it was made at.
pub open spec fn brings(i: RunInputs, o: Order, w: World, later: World, n: News) -> bool {
    match o {
        Order::ReadState => n == News::State(later.saved),
        Order::ReadRecords => n matches News::Records(v) && v@ == later.log,
        Order::Backfill => n matches News::Records(v) && made_up(i, w.log, v@),
        Order::Git(c) => n matches News::Reply(g) && forall|commit: Seq<char>|
            g.success && c == #[trigger] i.create_order(commit) ==> later.tip == commit,
        Order::Iterate(iter, best, recent) => n matches News::Finished(rec) && iterated(
            i,
            w,
            later,
            iter,
            best,
            recent,
            rec,
        ),
        _ => true,
    }
}

/// What orders do to the world, one after the other.
pub open spec fn carried_out(i: RunInputs, p: Seq<Order>, v: Seq<World>) -> bool {
    &&& v.len() == p.len() + 1
    &&& forall|k: int| 0 <= k < p.len() ==> did(i, #[trigger] p[k], v[k], v[k + 1])
}

/// Whether orders lead through worlds from one to another, and the last order
/// brings the news.
pub open spec fn leads(
    i: RunInputs,
    p: Seq<Order>,
    v: Seq<World>,
    w: World,
    later: World,
    n: News,
) -> bool {
    &&& carried_out(i, p, v)
    &&& v[0] == w
    &&& v[p.len() as int] == later
    &&& brings(i, p.last(), v[p.len() - 1], later, n)
}

/// Whether orders lead from one world to another, and the last one brings the
/// news.
pub open spec fn answered(i: RunInputs, p: Seq<Order>, w: World, later: World, n: News) -> bool {
    p.len() > 0 && exists|v: Seq<World>| leads(i, p, v, w, later, n)
}

/// The steps of a run from its beginning, with the world at the news of each.
pub open spec fn is_history(i: RunInputs, t: Seq<Step>, w: Seq<World>) -> bool {
    &&& session::is_run(i, t)
    &&& w.len() == t.len()
    &&& forall|j: int, k: int|
        0 <= j && k == j + 1 && k < t.len() ==> ((#[trigger] t[j]).handed matches Ok(p) && answered(
            i,
            session::orders(p@),
            w[j],
            w[k],
            (#[trigger] t[k]).news,
        ))
}

/// The records that a run has added to a log.
pub open spec fn added(before: Seq<IterationRecord>, log: Seq<IterationRecord>) -> Seq<
    IterationRecord,
> {
    log.skip(before.len() as int)
}

/// Whether no record is that of a merge.
pub open spec fn unmerged(records: Seq<IterationRecord>) -> bool {
    forall|k: int| 0 <= k < records.len() ==> (#[trigger] records[k]).outcome != Outcome::Merged
}

/// A checkpoint knows its best score with the iteration that reached it, or
/// neither.
pub open spec fn paired(s: StateSnapshot) -> bool {
    s.best_score is Some <==> s.best_iter is Some
}

/// How iterations have built on a checkpoint and a log. The log has only grown,
/// by records with the numbers that follow, but for summaries that were made up
/// for; each of the records is counted. Where the checkpoint knew its best score
/// with its iteration, the best score is what it was, or better, and moves only
/// with a merge.
pub open spec fn built_on(
    i: RunInputs,
    s: StateSnapshot,
    before: Seq<IterationRecord>,
    e: StateSnapshot,
    log: Seq<IterationRecord>,
) -> bool {
    let fresh = added(before, log);
    &&& log.len() >= before.len()
    &&& made_up(i, before, log.take(before.len() as int))
    &&& forall|k: int|
        0 <= k < fresh.len() ==> (#[trigger] fresh[k]).iter == run::last_number(before) + 1 + k
    &&& e.iterations_completed == s.iterations_completed + fresh.len()
    &&& e.run_iterations_completed == s.run_iterations_completed + fresh.len()
    &&& e.iter_in_progress is None
    &&& paired(s) ==> {
        &&& paired(e)
        &&& e.best_score == s.best_score || (e.best_score matches Some(v) && score::improves(
            v,
            s.best_score,
            i.cfg.objective.direction,
        ))
        &&& unmerged(fresh) ==> e.best_score == s.best_score && e.best_iter == s.best_iter
    }
    &&& e.experiment == s.experiment
    &&& e.branch == s.branch
    &&& e.base_commit == s.base_commit
    &&& e.started_at == s.started_at
    &&& e.deadline == s.deadline
}

/// How iterations that began in one world have left another: they have built on
/// its checkpoint and its log, and without a merge the tip of the tracking
/// branch is where it was.
pub open spec fn grew(i: RunInputs, b: World, w: World) -> bool {
    &&& b.saved matches Some(s) && w.saved matches Some(e) && built_on(i, s, b.log, e, w.log)
    &&& unmerged(added(b.log, w.log)) ==> w.tip == b.tip
}

/// Whether an iteration that a checkpoint tells to be in progress was settled:
/// `t` is the checkpoint then, and `later` the log.
pub open spec fn recovered(
    i: RunInputs,
    s: StateSnapshot,
    log: Seq<IterationRecord>,
    t: StateSnapshot,
    later: Seq<IterationRecord>,
) -> bool {
    exists|subject: Seq<char>, now: Timestamp, r: Option<IterationRecord>|
        {
            &&& #[trigger] run::is_reconciled(
                s,
                t,
                log,
                subject,
                i.cfg.objective.direction,
                now,
                Ok(r),
            )
            &&& later == match r {
                Some(rec) => log.push(rec),
                None => log,
            }
        }
}

/// Whether `b` is a world as a run that found `old` begins its first iteration
/// in, but for summaries. A first run founds the experiment, on a branch that was
/// there or that it makes; another one takes the checkpoint up, once an
/// interrupted iteration is settled; and a fresh start resets the run's limits.
pub open spec fn starts(i: RunInputs, old: World, b: World) -> bool {
    match old.saved {
        None => {
            &&& !i.recover_iter
            &&& b.log == old.log
            &&& b.saved matches Some(s) && founded(i, s) && (b.tip == old.tip || b.tip
                == s.base_commit@)
        },
        Some(s) => {
            &&& b.tip == old.tip
            &&& s.iter_in_progress is Some ==> i.recover_iter
            &&& b.saved matches Some(u) && exists|t: StateSnapshot|
                {
                    &&& #[trigger] taken_up(i, s, old.log, t, b.log)
                    &&& if i.fresh {
                        u == run::refreshed(t, u.deadline, u.started_at) && u.started_at.nanos
                            < u.deadline.nanos
                    } else {
                        u == t
                    }
                }
        },
    }
}

/// Whether a checkpoint is the first one of an experiment.
pub open spec fn founded(i: RunInputs, s: StateSnapshot) -> bool {
    session::is_first_state(s, i, s.base_commit@, Deadline(s.deadline), s.started_at)
}

/// Whether a checkpoint `t` and a log `later` are what a checkpoint `s` and a log
/// are taken up as: the same where nothing was in progress.
pub open spec fn taken_up(
    i: RunInputs,
    s: StateSnapshot,
    log: Seq<IterationRecord>,
    t: StateSnapshot,
    later: Seq<IterationRecord>,
) -> bool {
    if s.iter_in_progress is Some {
        recovered(i, s, log, t, later)
    } else {
        t == s && later == log
    }
}

proof fn lemma_made_up(i: RunInputs, a: Seq<IterationRecord>, b: Seq<IterationRecord>)
    requires
        made_up(i, a, b),
    ensures
        run::last_number(b) == run::last_number(a),
        !i.cfg.summarize.enabled ==> a == b,
    decreases a.len(),
{
    if a.len() > 0 {
        let (c, d) = (a.drop_last(), b.drop_last());
        assert forall|k: int| 0 <= k < c.len() implies {
            ||| (#[trigger] d[k]) == c[k]
            ||| {
                &&& i.cfg.summarize.enabled
                &&& iteration::wants_summary(c[k], false)
                &&& d[k] == (IterationRecord { summary: d[k].summary, ..c[k] })
            }
        } by {
            assert(b[k] == d[k]);
        }
        lemma_made_up(i, c, d);
        assert(b[b.len() - 1].iter == a[a.len() - 1].iter);
    }
    if !i.cfg.summarize.enabled {
        assert(a =~= b);
    }
}

proof fn lemma_last_number_grows(
    log: Seq<IterationRecord>,
    fresh: Seq<IterationRecord>,
)
    requires
        forall|k: int|
            0 <= k < fresh.len() ==> (#[trigger] fresh[k]).iter == run::last_number(log) + 1 + k,
    ensures
        run::last_number(log + fresh) == run::last_number(log) + fresh.len(),
    decreases fresh.len(),
{
    if fresh.len() == 0 {
        assert(log + fresh =~= log);
    } else {
        let less = fresh.drop_last();
        assert forall|k: int| 0 <= k < less.len() implies (#[trigger] less[k]).iter
            == run::last_number(log) + 1 + k by {
            assert(less[k] == fresh[k]);
        }
        lemma_last_number_grows(log, less);
        assert((log + fresh).drop_last() =~= log + less);
        assert((log + fresh).last() == fresh[fresh.len() - 1]);
    }
}

proof fn lemma_led(i: RunInputs, p: Seq<Order>, w: World, later: World, n: News) -> (v: Seq<World>)
    requires
        answered(i, p, w, later, n),
    ensures
        leads(i, p, v, w, later, n),
        did(i, p[0], w, v[1]),
        p.len() == 2 ==> did(i, p[1], v[1], v[2]),
        p.len() == 3 ==> did(i, p[1], v[1], v[2]) && did(i, p[2], v[2], v[3]),
{
    let v = choose|v: Seq<World>| leads(i, p, v, w, later, n);
    assert(did(i, p[0], v[0], v[1]));
    if p.len() >= 2 {
        assert(did(i, p[1], v[1], v[2]));
    }
    if p.len() == 3 {
        assert(did(i, p[2], v[2], v[3]));
    }
    v
}

proof fn lemma_questions(c: Call)
    requires
        c.args.len() > 0,
        c.args[0] == "rev-parse"@ || c.args[0] == "status"@ || c.args[0] == "worktree"@ || c.args[0]
            == "log"@ || c.args[0] == "show-ref"@,
    ensures
        !iteration::repoints(c),
{
    reveal_strlit("rev-parse");
    reveal_strlit("status");
    reveal_strlit("worktree");
    reveal_strlit("log");
    reveal_strlit("show-ref");
    reveal_strlit("update-ref");
    reveal_strlit("branch");
    assert("update-ref"@.len() == 10);
    assert("branch"@[0] == 'b');
    assert("rev-parse"@.len() == 9);
    assert("status"@[0] == 's');
    assert("worktree"@.len() == 8);
    assert("log"@.len() == 3);
    assert("show-ref"@.len() == 8);
}

/// What holds of a run at each stage before its iterations, with the news that
/// came: `old` is the world it found.
spec fn opens(i: RunInputs, old: World, x: Session, w: World, n: News) -> bool {
    match x.stage {
        Stage::Entering | Stage::Sweeping => w == old,
        Stage::Restoring => w == old && n == News::State(old.saved),
        Stage::Reaching => w == old && x.state is Some && x.state == old.saved,
        Stage::Recalling => {
            &&& w == old
            &&& x.state == old.saved
            &&& i.recover_iter
            &&& n matches News::Records(v) && v@ == old.log
        },
        Stage::Telling | Stage::Settling => {
            &&& w == old
            &&& x.state == old.saved
            &&& i.recover_iter
            &&& x.records@ == old.log
        },
        Stage::Refreshing => {
            &&& i.fresh
            &&& w.tip == old.tip
            &&& w.saved == x.state
            &&& old.saved matches Some(s)
            &&& s.iter_in_progress is Some ==> i.recover_iter
            &&& x.state matches Some(t) && taken_up(i, s, old.log, t, w.log)
        },
        Stage::Scheduling | Stage::Heading | Stage::Branching => {
            &&& w == old
            &&& old.saved is None
            &&& !i.recover_iter
        },
        Stage::Creating => {
            &&& old.saved is None
            &&& !i.recover_iter
            &&& w.log == old.log
            &&& n matches News::Reply(g) && (g.success ==> w.tip == x.base@)
        },
        Stage::Founding => {
            &&& old.saved is None
            &&& !i.recover_iter
            &&& w.log == old.log
            &&& w.tip == old.tip || w.tip == x.base@
        },
        Stage::Reading => {
            &&& starts(i, old, w)
            &&& w.saved == x.state
            &&& n matches News::Records(v) && v@ == w.log
        },
        _ => false,
    }
}

/// What holds of a run at each stage of its iterations, with the news that came:
/// `b` is the world that they began in, but for summaries.
spec fn loops(i: RunInputs, b: World, x: Session, w: World, n: News) -> bool {
    match x.stage {
        Stage::Backfilling => {
            &&& b.saved is Some
            &&& b.saved == x.state
            &&& w.saved == x.state
            &&& w.tip == b.tip
            &&& made_up(i, b.log, w.log)
            &&& n matches News::Records(v) && made_up(i, b.log, v@)
        },
        Stage::Deciding => {
            &&& w.saved == x.state
            &&& grown(i, b, x, w)
            &&& unmerged(added(b.log, w.log)) ==> w.tip == b.tip
        },
        Stage::Iterating => {
            &&& grown(i, b, x, w)
            &&& n matches News::Finished(rec)
            &&& rec.iter == run::last_number(x.records@) + 1
            &&& paired(x.state.unwrap()) ==> fits(i, x.state.unwrap(), rec)
            &&& unmerged(added(b.log, w.log)) && rec.outcome != Outcome::Merged ==> w.tip == b.tip
        },
        _ => false,
    }
}

/// The checkpoint and the records that a session knows have grown from those of
/// a world, and so has the log.
spec fn grown(i: RunInputs, b: World, x: Session, w: World) -> bool {
    &&& b.saved matches Some(s)
    &&& x.state matches Some(e)
    &&& built_on(i, s, b.log, e, x.records@)
    &&& built_on(i, s, b.log, e, w.log)
    &&& added(b.log, x.records@) == added(b.log, w.log)
}

/// A record that is true to the best score of a checkpoint.
spec fn fits(i: RunInputs, s: StateSnapshot, rec: IterationRecord) -> bool {
    if rec.outcome == Outcome::Merged {
        &&& rec.best_so_far == rec.score
        &&& rec.score matches Some(v) && score::improves(
            v,
            s.best_score,
            i.cfg.objective.direction,
        )
    } else {
        rec.best_so_far == s.best_score
    }
}

proof fn lemma_checks(i: RunInputs, old: World, x: Step, w: World, later: World, n: News)
    requires
        x.taken(i),
        opens(i, old, x.before, w, x.news),
        x.handed matches Ok(p) && answered(i, session::orders(p@), w, later, n),
        x.before.stage == Stage::Entering || x.before.stage == Stage::Sweeping || x.before.stage
            == Stage::Restoring,
    ensures
        opens(i, old, x.after, later, n),
{
    reveal(Step::taken);
    let p = session::orders(x.handed.unwrap()@);
    let v = lemma_led(i, p, w, later, n);
    lemma_questions(i.status_order());
    if let Some(s) = old.saved {
        lemma_questions(i.reach_order(s.base_commit@));
    }
    assert(later =~= old);
}

proof fn lemma_reached(i: RunInputs, old: World, x: Step, w: World, later: World, n: News)
    requires
        x.taken(i),
        opens(i, old, x.before, w, x.news),
        x.handed matches Ok(p) && answered(i, session::orders(p@), w, later, n),
        x.before.stage == Stage::Reaching,
    ensures
        opens(i, old, x.after, later, n),
{
    reveal(Step::taken);
    let p = session::orders(x.handed.unwrap()@);
    let s = x.before.state.unwrap();
    let v = lemma_led(i, p, w, later, n);
    if let Some(iter) = s.iter_in_progress {
        lemma_questions(i.removal_order(iter));
        assert(v[1] =~= old);
        assert(later =~= old);
    } else {
        assert(later =~= old);
        assert(taken_up(i, s, old.log, s, old.log));
    }
}

proof fn lemma_recalled(i: RunInputs, old: World, x: Step, w: World, later: World, n: News)
    requires
        x.taken(i),
        opens(i, old, x.before, w, x.news),
        x.handed matches Ok(p) && answered(i, session::orders(p@), w, later, n),
        x.before.stage == Stage::Recalling || x.before.stage == Stage::Telling,
    ensures
        opens(i, old, x.after, later, n),
{
    reveal(Step::taken);
    let p = session::orders(x.handed.unwrap()@);
    let s = x.before.state.unwrap();
    let v = lemma_led(i, p, w, later, n);
    lemma_questions(i.subject_order(s.branch@));
    assert(later =~= old);
}

proof fn lemma_settled(i: RunInputs, old: World, x: Step, w: World, later: World, n: News)
    requires
        x.taken(i),
        opens(i, old, x.before, w, x.news),
        x.handed matches Ok(p) && answered(i, session::orders(p@), w, later, n),
        x.before.stage == Stage::Settling,
    ensures
        opens(i, old, x.after, later, n),
{
    reveal(Step::taken);
    let p = session::orders(x.handed.unwrap()@);
    let s = x.before.state.unwrap();
    let t = x.after.state.unwrap();
    let v = lemma_led(i, p, w, later, n);
    if let News::Time(now) = x.news {
        let r: Option<IterationRecord> = if run::first_record(old.log, s.iter_in_progress.unwrap())
            < old.log.len() {
            None
        } else {
            Some(p[0]->Append_0)
        };
        assert(run::is_reconciled(
            s,
            t,
            old.log,
            x.before.subject@,
            i.cfg.objective.direction,
            now,
            Ok(r),
        ));
        assert(taken_up(i, s, old.log, t, later.log));
    }
}

proof fn lemma_refreshed(i: RunInputs, old: World, x: Step, w: World, later: World, n: News)
    requires
        x.taken(i),
        opens(i, old, x.before, w, x.news),
        x.handed matches Ok(p) && answered(i, session::orders(p@), w, later, n),
        x.before.stage == Stage::Refreshing,
    ensures
        opens(i, old, x.after, later, n),
{
    reveal(Step::taken);
    let p = session::orders(x.handed.unwrap()@);
    let s = old.saved.unwrap();
    let t = x.before.state.unwrap();
    let v = lemma_led(i, p, w, later, n);
    assert(taken_up(i, s, old.log, t, later.log));
}

proof fn lemma_founding(i: RunInputs, old: World, x: Step, w: World, later: World, n: News)
    requires
        x.taken(i),
        opens(i, old, x.before, w, x.news),
        x.handed matches Ok(p) && answered(i, session::orders(p@), w, later, n),
        x.before.stage == Stage::Scheduling || x.before.stage == Stage::Heading || x.before.stage
            == Stage::Branching || x.before.stage == Stage::Creating || x.before.stage
            == Stage::Founding,
    ensures
        opens(i, old, x.after, later, n),
{
    reveal(Step::taken);
    let p = session::orders(x.handed.unwrap()@);
    let v = lemma_led(i, p, w, later, n);
    lemma_questions(i.head_order());
    lemma_questions(i.branch_order());
    match x.before.stage {
        Stage::Scheduling | Stage::Heading => {
            assert(later =~= old);
        },
        Stage::Branching => {
            if x.after.stage == Stage::Creating {
                assert(p[0] == Order::Git(i.create_order(x.before.base@)));
            }
        },
        _ => {},
    }
}

proof fn lemma_read(i: RunInputs, x: Step, w: World, later: World, n: News)
    requires
        x.taken(i),
        x.before.stage == Stage::Reading,
        w.saved is Some,
        w.saved == x.before.state,
        x.news matches News::Records(v) && v@ == w.log,
        x.handed matches Ok(p) && answered(i, session::orders(p@), w, later, n),
    ensures
        loops(i, w, x.after, later, n),
{
    reveal(Step::taken);
    let p = session::orders(x.handed.unwrap()@);
    let v = lemma_led(i, p, w, later, n);
}

proof fn lemma_backfilled(i: RunInputs, b: World, x: Step, w: World, later: World, n: News)
    requires
        b.saved matches Some(s) && s.iter_in_progress is None,
        x.taken(i),
        x.before.stage == Stage::Backfilling,
        loops(i, b, x.before, w, x.news),
        x.handed matches Ok(p) && answered(i, session::orders(p@), w, later, n),
    ensures
        loops(i, b, x.after, later, n),
{
    reveal(Step::taken);
    let p = session::orders(x.handed.unwrap()@);
    let v = lemma_led(i, p, w, later, n);
    let records = x.after.records@;
    assert(records.take(b.log.len() as int) =~= records);
    assert(w.log.take(b.log.len() as int) =~= w.log);
    assert(added(b.log, records) =~= Seq::empty());
    assert(added(b.log, w.log) =~= Seq::empty());
}

proof fn lemma_decided(i: RunInputs, b: World, x: Step, w: World, later: World, n: News)
    requires
        x.taken(i),
        x.before.stage == Stage::Deciding,
        loops(i, b, x.before, w, x.news),
        x.handed matches Ok(p) && answered(i, session::orders(p@), w, later, n),
    ensures
        loops(i, b, x.after, later, n),
{
    reveal(Step::taken);
    let p = session::orders(x.handed.unwrap()@);
    let e = x.before.state.unwrap();
    let iter = (run::used_number(e, x.before.records@) + 1) as u64;
    let best = session::best_in(e);
    let recent = session::shown(x.before.records@);
    assert(x.after.stage == Stage::Iterating);
    let v = lemma_led(i, p, w, later, n);
    if let News::Finished(rec) = n {
        let (ins, vars, t): (IterationInputs, Map<Seq<char>, Seq<char>>, Seq<Move>) =
            choose|ins: IterationInputs, vars: Map<Seq<char>, Seq<char>>, t: Seq<Move>|
            {
                &&& is_round(ins, i, iter, best, recent)
                &&& #[trigger] iteration::is_attempt(ins, vars, t, rec)
                &&& iteration::stays_put(ins, vars, t) ==> later.tip == w.tip
            };
        iteration::law_unmerged_iteration_stays_put(ins, vars, t, rec);
        if paired(e) {
            assert(ins.best_score() == e.best_score);
            assert(fits(i, e, rec));
        }
    }
}

/// A record with the next number, added to a log that was built on another.
proof fn lemma_one_more(
    i: RunInputs,
    s: StateSnapshot,
    before: Seq<IterationRecord>,
    e: StateSnapshot,
    log: Seq<IterationRecord>,
    rec: IterationRecord,
)
    requires
        built_on(i, s, before, e, log),
        iteration::countable(e),
        rec.iter == run::last_number(before) + 1 + added(before, log).len(),
        paired(e) ==> fits(i, e, rec),
    ensures
        built_on(i, s, before, iteration::settled(e, rec, session::best_in(e)), log.push(rec)),
        added(before, log.push(rec)) == added(before, log).push(rec),
{
    let f = iteration::settled(e, rec, session::best_in(e));
    let less = added(before, log);
    let more = added(before, log.push(rec));
    assert(more =~= less.push(rec));
    assert(log.push(rec).take(before.len() as int) =~= log.take(before.len() as int));
    assert(unmerged(more) ==> unmerged(less) && rec.outcome != Outcome::Merged) by {
        if unmerged(more) {
            assert(more[less.len() as int] == rec);
            assert forall|k: int| 0 <= k < less.len() implies (#[trigger] less[k]).outcome
                != Outcome::Merged by {
                assert(more[k] == less[k]);
            }
        }
    }
    if let (Some(v), Some(u), Some(t)) = (f.best_score, e.best_score, s.best_score) {
        score::law_better_orders(v, u, t, i.cfg.objective.direction);
    }
}

proof fn lemma_numbered(
    i: RunInputs,
    s: StateSnapshot,
    before: Seq<IterationRecord>,
    e: StateSnapshot,
    log: Seq<IterationRecord>,
)
    requires
        built_on(i, s, before, e, log),
    ensures
        run::last_number(log) == run::last_number(before) + added(before, log).len(),
{
    let kept = log.take(before.len() as int);
    lemma_made_up(i, before, kept);
    lemma_last_number_grows(kept, added(before, log));
    assert(kept + added(before, log) =~= log);
}

proof fn lemma_finished(i: RunInputs, b: World, x: Step, w: World, later: World, n: News)
    requires
        x.taken(i),
        x.before.stage == Stage::Iterating,
        loops(i, b, x.before, w, x.news),
        x.handed matches Ok(p) && answered(i, session::orders(p@), w, later, n),
    ensures
        loops(i, b, x.after, later, n),
{
    reveal(Step::taken);
    let p = session::orders(x.handed.unwrap()@);
    let s = b.saved.unwrap();
    let e = x.before.state.unwrap();
    let v = lemma_led(i, p, w, later, n);
    if let News::Finished(rec) = x.news {
        lemma_numbered(i, s, b.log, e, x.before.records@);
        lemma_one_more(i, s, b.log, e, x.before.records@, rec);
        lemma_one_more(i, s, b.log, e, w.log, rec);
        let less = added(b.log, w.log);
        let more = added(b.log, later.log);
        assert(unmerged(more) ==> unmerged(less) && rec.outcome != Outcome::Merged) by {
            if unmerged(more) {
                assert(more[less.len() as int] == rec);
                assert forall|k: int| 0 <= k < less.len() implies (#[trigger] less[k]).outcome
                    != Outcome::Merged by {
                    assert(more[k] == less[k]);
                }
            }
        }
    }
}

proof fn lemma_starts_idle(i: RunInputs, old: World, b: World)
    requires
        starts(i, old, b),
    ensures
        b.saved matches Some(s) && s.iter_in_progress is None,
{
    if let Some(s) = old.saved {
        let u = b.saved.unwrap();
        let t = choose|t: StateSnapshot|
            {
                &&& #[trigger] taken_up(i, s, old.log, t, b.log)
                &&& if i.fresh {
                    u == run::refreshed(t, u.deadline, u.started_at) && u.started_at.nanos
                        < u.deadline.nanos
                } else {
                    u == t
                }
            };
        assert(taken_up(i, s, old.log, t, b.log));
        if s.iter_in_progress is Some {
            let (subject, now, r): (Seq<char>, Timestamp, Option<IterationRecord>) =
                choose|subject: Seq<char>, now: Timestamp, r: Option<IterationRecord>|
                {
                    &&& #[trigger] run::is_reconciled(
                        s,
                        t,
                        old.log,
                        subject,
                        i.cfg.objective.direction,
                        now,
                        Ok(r),
                    )
                    &&& b.log == match r {
                        Some(rec) => old.log.push(rec),
                        None => old.log,
                    }
                };
            assert(t.iter_in_progress is None);
        }
    }
}

proof fn lemma_history(i: RunInputs, t: Seq<Step>, w: Seq<World>, k: int)
    requires
        is_history(i, t, w),
        0 <= k < t.len(),
    ensures
        opens(i, w[0], t[k].before, w[k], t[k].news) || exists|b: World| #[trigger]
            starts(i, w[0], b) && loops(i, b, t[k].before, w[k], t[k].news),
    decreases k,
{
    if k > 0 {
        lemma_history(i, t, w, k - 1);
        let x = t[k - 1];
        let (old, v, u, n) = (w[0], w[k - 1], w[k], t[k].news);
        assert(x.taken(i));
        assert(x.after == t[k].before);
        if opens(i, old, x.before, v, x.news) {
            match x.before.stage {
                Stage::Entering | Stage::Sweeping | Stage::Restoring => {
                    lemma_checks(i, old, x, v, u, n);
                },
                Stage::Reaching => {
                    lemma_reached(i, old, x, v, u, n);
                },
                Stage::Recalling | Stage::Telling => {
                    lemma_recalled(i, old, x, v, u, n);
                },
                Stage::Settling => {
                    lemma_settled(i, old, x, v, u, n);
                },
                Stage::Refreshing => {
                    lemma_refreshed(i, old, x, v, u, n);
                },
                Stage::Reading => {
                    lemma_starts_idle(i, old, v);
                    lemma_read(i, x, v, u, n);
                    assert(starts(i, old, v) && loops(i, v, t[k].before, u, n));
                },
                _ => {
                    lemma_founding(i, old, x, v, u, n);
                },
            }
        } else {
            let b = choose|b: World| #[trigger]
                starts(i, old, b) && loops(i, b, x.before, v, x.news);
            lemma_starts_idle(i, old, b);
            match x.before.stage {
                Stage::Backfilling => {
                    lemma_backfilled(i, b, x, v, u, n);
                },
                Stage::Deciding => {
                    lemma_decided(i, b, x, v, u, n);
                },
                _ => {
                    lemma_finished(i, b, x, v, u, n);
                },
            }
            assert(starts(i, old, b) && loops(i, b, t[k].before, u, n));
        }
    }
}

/// Every run that comes to its end builds on what its iterations began with:
/// the first checkpoint, or the one it found, once an interrupted iteration was
/// settled, and with the limits reset by a fresh start. The log has only grown,
/// by records whose numbers follow the greatest one, but for summaries that were
/// missing and were made up for, and each of the records is counted. The best
/// score was never reset: it is what it was, or strictly better. Without a merge
/// the best score, its iteration and the tip of the tracking branch are as they
/// were. The run ends with a limit that is reached.
pub proof fn law_run_builds_on_its_start(i: RunInputs, t: Seq<Step>, w: Seq<World>)
    requires
        is_history(i, t, w),
        t.len() > 0,
        t.last().after.stage == Stage::Over,
    ensures
        exists|b: World| #[trigger] starts(i, w[0], b) && grew(i, b, w.last()),
        w.last().saved is Some,
        w.last().saved == t.last().after.state,
        t.last().after.stopped is Some,
        t.last().news matches News::Time(now) && t.last().after.stopped == run::stop_reason(
            w.last().saved.unwrap(),
            *i.cfg,
            now,
        ),
{
    let k = t.len() - 1;
    lemma_history(i, t, w, k);
    assert(t[k].taken(i));
    reveal(Step::taken);
    assert(t[k].before.stage == Stage::Deciding);
    let b = choose|b: World| #[trigger]
        starts(i, w[0], b) && loops(i, b, t[k].before, w[k], t[k].news);
    assert(grew(i, b, w.last()));
}

/// A first run founds the experiment and builds on its first checkpoint. Without
/// a merge the tracking branch points where the run found it, or at the commit
/// that the experiment builds on.
pub proof fn law_first_run_founds(i: RunInputs, t: Seq<Step>, w: Seq<World>)
    requires
        is_history(i, t, w),
        t.len() > 0,
        t.last().after.stage == Stage::Over,
        w[0].saved is None,
    ensures
        exists|b: World|
            {
                &&& b.saved matches Some(s) && founded(i, s)
                &&& b.log == w[0].log
                &&& b.tip == w[0].tip || b.tip == b.saved.unwrap().base_commit@
                &&& #[trigger] grew(i, b, w.last())
            },
{
    law_run_builds_on_its_start(i, t, w);
    let b = choose|b: World| #[trigger] starts(i, w[0], b) && grew(i, b, w.last());
    assert(grew(i, b, w.last()));
}

/// A run that goes on, with nothing in progress, builds on what it found.
pub proof fn law_continued_run_builds_on_progress(
    i: RunInputs,
    t: Seq<Step>,
    w: Seq<World>,
    s: StateSnapshot,
)
    requires
        is_history(i, t, w),
        t.len() > 0,
        t.last().after.stage == Stage::Over,
        w[0].saved == Some(s),
        s.iter_in_progress is None,
        !i.fresh,
    ensures
        grew(i, w[0], w.last()),
{
    law_run_builds_on_its_start(i, t, w);
    let b = choose|b: World| #[trigger] starts(i, w[0], b) && grew(i, b, w.last());
    assert(b =~= w[0]);
}

/// A fresh run, with nothing in progress, builds on what it found, with the
/// run's limits reset and all progress kept.
pub proof fn law_fresh_run_builds_on_progress(
    i: RunInputs,
    t: Seq<Step>,
    w: Seq<World>,
    s: StateSnapshot,
)
    requires
        is_history(i, t, w),
        t.len() > 0,
        t.last().after.stage == Stage::Over,
        w[0].saved == Some(s),
        s.iter_in_progress is None,
        i.fresh,
    ensures
        w.last().saved matches Some(e) && grew(
            i,
            (World { saved: Some(run::refreshed(s, e.deadline, e.started_at)), ..w[0] }),
            w.last(),
        ),
{
    law_run_builds_on_its_start(i, t, w);
    let b = choose|b: World| #[trigger] starts(i, w[0], b) && grew(i, b, w.last());
    let e = w.last().saved.unwrap();
    assert(b =~= (World { saved: Some(run::refreshed(s, e.deadline, e.started_at)), ..w[0] }));
}

/// A resumed run settles the iteration that was interrupted and builds on what
/// comes of that; it moves the tracking branch only with a merge.
pub proof fn law_resumed_run_builds_on_recovery(
    i: RunInputs,
    t: Seq<Step>,
    w: Seq<World>,
    s: StateSnapshot,
)
    requires
        is_history(i, t, w),
        t.len() > 0,
        t.last().after.stage == Stage::Over,
        w[0].saved == Some(s),
        s.iter_in_progress is Some,
        !i.fresh,
    ensures
        i.recover_iter,
        exists|b: World|
            {
                &&& b.saved matches Some(u) && recovered(i, s, w[0].log, u, b.log)
                &&& b.tip == w[0].tip
                &&& #[trigger] grew(i, b, w.last())
            },
{
    law_run_builds_on_its_start(i, t, w);
    let b = choose|b: World| #[trigger] starts(i, w[0], b) && grew(i, b, w.last());
    assert(grew(i, b, w.last()));
}

/// Where summaries are not wanted, a log that a run has built on is kept as it
/// is, and the records that were added follow it.
pub proof fn law_unsummarized_log_is_kept(
    i: RunInputs,
    s: StateSnapshot,
    before: Seq<IterationRecord>,
    e: StateSnapshot,
    log: Seq<IterationRecord>,
)
    requires
        !i.cfg.summarize.enabled,
        built_on(i, s, before, e, log),
    ensures
        log == before + added(before, log),
{
    lemma_made_up(i, before, log.take(before.len() as int));
    assert(log =~= log.take(before.len() as int) + added(before, log));
}

} // verus!
