//! How an experiment stands.
use vstd::prelude::*;

use crate::cli::run;
use crate::error::Error;
use crate::prompt;
use crate::schedule::Deadline;
use crate::storage::{CurrentStep, IterationRecord, StateSnapshot};
use crate::text;
use crate::time::{Duration, Timestamp, NANOS};

verus! {

/// What showing the status takes.
#[derive(Debug)]
pub struct StatusArgs {
    pub name: String,
}

/// How a span of seconds and nanoseconds is said.
pub uninterp spec fn said_span(secs: u64, nanos: u32) -> Seq<char>;

/// Says a span with `humantime::format_duration`. The text is a function of the
/// span alone.
#[verifier::external_body]
fn say_span(d: Duration) -> (r: String)
    requires
        d.nanos < NANOS,
    ensures
        r@ == said_span(d.secs, d.nanos),
{
    humantime::format_duration(std::time::Duration::new(d.secs, d.nanos)).to_string()
}

/// The seconds and nanoseconds of a span.
pub open spec fn said(total: nat) -> Seq<char> {
    said_span((total / NANOS as nat) as u64, (total % NANOS as nat) as u32)
}

/// The name of a step.
pub open spec fn step_word(s: CurrentStep) -> Seq<char> {
    match s {
        CurrentStep::Idle => "Idle"@,
        CurrentStep::AllocateIter => "AllocateIter"@,
        CurrentStep::CreateWorktree => "CreateWorktree"@,
        CurrentStep::RunSetup => "RunSetup"@,
        CurrentStep::BuildPrompt => "BuildPrompt"@,
        CurrentStep::InvokeAgent => "InvokeAgent"@,
        CurrentStep::CaptureDiff => "CaptureDiff"@,
        CurrentStep::RunTeardown => "RunTeardown"@,
        CurrentStep::Score => "Score"@,
        CurrentStep::Decide => "Decide"@,
        CurrentStep::Merge => "Merge"@,
        CurrentStep::Discard => "Discard"@,
        CurrentStep::Cleanup => "Cleanup"@,
        CurrentStep::Record => "Record"@,
        CurrentStep::CheckDeadline => "CheckDeadline"@,
        CurrentStep::Done => "Done"@,
    }
}

/// The name of a step.
pub fn step_name(s: CurrentStep) -> (r: &'static str)
    ensures
        r@ == step_word(s),
{
    match s {
        CurrentStep::Idle => "Idle",
        CurrentStep::AllocateIter => "AllocateIter",
        CurrentStep::CreateWorktree => "CreateWorktree",
        CurrentStep::RunSetup => "RunSetup",
        CurrentStep::BuildPrompt => "BuildPrompt",
        CurrentStep::InvokeAgent => "InvokeAgent",
        CurrentStep::CaptureDiff => "CaptureDiff",
        CurrentStep::RunTeardown => "RunTeardown",
        CurrentStep::Score => "Score",
        CurrentStep::Decide => "Decide",
        CurrentStep::Merge => "Merge",
        CurrentStep::Discard => "Discard",
        CurrentStep::Cleanup => "Cleanup",
        CurrentStep::Record => "Record",
        CurrentStep::CheckDeadline => "CheckDeadline",
        CurrentStep::Done => "Done",
    }
}

/// How the last iteration ended.
pub open spec fn last_word(records: Seq<IterationRecord>) -> Seq<char> {
    if records.len() == 0 {
        "(none)"@
    } else {
        prompt::outcome_word(records.last().outcome)
    }
}

/// A line that is left out where it says nothing.
pub open spec fn optional_line(label: Seq<char>, t: Seq<char>) -> Seq<char> {
    if t.len() == 0 {
        Seq::empty()
    } else {
        label + t + "\n"@
    }
}

fn optional_text(label: &str, t: &str) -> (r: String)
    ensures
        r@ == optional_line(label@, t@),
{
    if text::chars_of(t).len() == 0 {
        return String::new();
    }
    let mut out = text::owned(label);
    out.push_str(t);
    out.push_str("\n");
    out
}

/// Why the last iteration ended as it did, and its summary.
pub open spec fn last_section(records: Seq<IterationRecord>) -> Seq<char> {
    if records.len() == 0 {
        Seq::empty()
    } else {
        optional_line("last reason  "@, records.last().notes@) + optional_line(
            "last summary "@,
            records.last().summary@,
        )
    }
}

/// The line for an iteration in progress.
pub open spec fn progress_section(s: StateSnapshot) -> Seq<char> {
    match s.iter_in_progress {
        Some(i) => "in progress  iter "@ + text::dec(i as nat) + " at step "@ + step_word(
            s.current_step,
        ) + "\n"@,
        None => Seq::empty(),
    }
}

/// The status with the two spans already said.
pub open spec fn status_text(
    s: StateSnapshot,
    records: Seq<IterationRecord>,
    elapsed: Seq<char>,
    remaining: Seq<char>,
) -> Seq<char> {
    "experiment   "@ + s.experiment@ + "\nbranch       "@ + s.branch@ + "\nbase_commit  "@
        + s.base_commit@ + "\niterations   "@ + text::dec(s.iterations_completed as nat)
        + "\nnoop streak  "@ + text::dec(s.consecutive_noops as nat) + "\nlast outcome "@
        + last_word(records) + "\n"@ + last_section(records) + "best         "@ + run::told_best(
        s.best_iter,
        s.best_score,
    )
        + "\nelapsed      "@ + elapsed + "\nremaining    "@ + remaining + "\n"@ + progress_section(s)
}

/// Writes the status with the two spans already said.
pub fn status_lines(
    state: &StateSnapshot,
    records: &Vec<IterationRecord>,
    elapsed: &str,
    remaining: &str,
) -> (r: String)
    ensures
        r@ == status_text(*state, records@, elapsed@, remaining@),
{
    let mut s = text::owned("experiment   ");
    s.push_str(state.experiment.as_str());
    s.push_str("\nbranch       ");
    s.push_str(state.branch.as_str());
    s.push_str("\nbase_commit  ");
    s.push_str(state.base_commit.as_str());
    s.push_str("\niterations   ");
    s.push_str(text::dec_string(state.iterations_completed).as_str());
    s.push_str("\nnoop streak  ");
    s.push_str(text::dec_string(state.consecutive_noops as u64).as_str());
    s.push_str("\nlast outcome ");
    if records.len() == 0 {
        s.push_str("(none)");
    } else {
        s.push_str(prompt::outcome_label(records[records.len() - 1].outcome));
    }
    s.push_str("\n");
    let mut last = String::new();
    if records.len() > 0 {
        last = optional_text("last reason  ", records[records.len() - 1].notes.as_str());
        last.push_str(
            optional_text("last summary ", records[records.len() - 1].summary.as_str()).as_str(),
        );
    }
    s.push_str(last.as_str());
    s.push_str("best         ");
    s.push_str(run::best_words(state.best_iter, state.best_score).as_str());
    s.push_str("\nelapsed      ");
    s.push_str(elapsed);
    s.push_str("\nremaining    ");
    s.push_str(remaining);
    s.push_str("\n");
    let progress = match state.iter_in_progress {
        Some(i) => {
            let mut p = text::owned("in progress  iter ");
            p.push_str(text::dec_string(i).as_str());
            p.push_str(" at step ");
            p.push_str(step_name(state.current_step));
            p.push_str("\n");
            p
        },
        None => String::new(),
    };
    s.push_str(progress.as_str());
    s
}

/// Writes the status: what was reached, how long it took and how long there is.
pub fn format_summary(state: &StateSnapshot, records: &Vec<IterationRecord>, now: Timestamp) -> (r:
    String)
    requires
        state.started_at.valid(),
        state.deadline.valid(),
        now.valid(),
    ensures
        r@ == status_text(
            *state,
            records@,
            said(Timestamp::span(state.started_at, now)),
            said(Timestamp::span(now, state.deadline)),
        ),
{
    let elapsed = Timestamp::until(state.started_at, now);
    let remaining = Deadline(state.deadline).remaining(now);
    proof {
        lemma_said(elapsed);
        lemma_said(remaining);
    }
    status_lines(state, records, say_span(elapsed).as_str(), say_span(remaining).as_str())
}

proof fn lemma_said(d: Duration)
    requires
        d.valid(),
    ensures
        said(d.total()) == said_span(d.secs, d.nanos),
{
    assert(d.total() / NANOS as nat == d.secs);
    assert(d.total() % NANOS as nat == d.nanos);
}

/// The error for an experiment without a checkpoint.
pub fn not_started(name: &str) -> (r: Error)
    ensures
        r matches Error::Config(m) && m@ == "no state.json for experiment "@ + text::quoted(name@)
            + "; has it been started?"@,
{
    let mut m = text::owned("no state.json for experiment ");
    m.push_str(text::quote(name).as_str());
    m.push_str("; has it been started?");
    Error::Config(m)
}

spec fn status_parts(
    s: StateSnapshot,
    records: Seq<IterationRecord>,
    elapsed: Seq<char>,
    remaining: Seq<char>,
) -> Seq<Seq<char>> {
    seq![
        last_section(records),
        "best         "@,
        run::told_best(s.best_iter, s.best_score),
        "\nelapsed      "@,
        elapsed,
        "\nremaining    "@,
        remaining,
        "\n"@,
        progress_section(s),
    ]
}

spec fn status_head(s: StateSnapshot, records: Seq<IterationRecord>) -> Seq<char> {
    "experiment   "@ + s.experiment@ + "\nbranch       "@ + s.branch@ + "\nbase_commit  "@
        + s.base_commit@ + "\niterations   "@ + text::dec(s.iterations_completed as nat)
        + "\nnoop streak  "@ + text::dec(s.consecutive_noops as nat) + "\nlast outcome "@
        + last_word(records) + "\n"@
}

#[verifier::spinoff_prover]
#[verifier::rlimit(50)]
proof fn lemma_status_parts(
    s: StateSnapshot,
    records: Seq<IterationRecord>,
    elapsed: Seq<char>,
    remaining: Seq<char>,
)
    ensures
        status_text(s, records, elapsed, remaining) == text::followed(
            status_head(s, records),
            status_parts(s, records, elapsed, remaining),
        ),
{
    reveal_with_fuel(text::followed, 10);
    let m = status_parts(s, records, elapsed, remaining);
    let m1 = m.drop_first();
    let m2 = m1.drop_first();
    let m3 = m2.drop_first();
    let m4 = m3.drop_first();
    let m5 = m4.drop_first();
    let m6 = m5.drop_first();
    let m7 = m6.drop_first();
    let m8 = m7.drop_first();
    assert(m8.len() == 1 && m8[0] == m[8]);
    assert(m7[0] == m[7] && m6[0] == m[6] && m5[0] == m[5] && m4[0] == m[4]);
    assert(m3[0] == m[3] && m2[0] == m[2] && m1[0] == m[1]);
}

/// The status begins with what the experiment is and where it stands: its name,
/// its branch and base, the number of its iterations, the streak without a
/// change, and how the last iteration ended.
pub proof fn law_status_tells_where_it_stands(
    s: StateSnapshot,
    records: Seq<IterationRecord>,
    elapsed: Seq<char>,
    remaining: Seq<char>,
)
    ensures
        text::begins_with(
            status_text(s, records, elapsed, remaining),
            "experiment   "@ + s.experiment@ + "\nbranch       "@ + s.branch@
                + "\nbase_commit  "@ + s.base_commit@ + "\niterations   "@ + text::dec(
                s.iterations_completed as nat,
            ) + "\nnoop streak  "@ + text::dec(s.consecutive_noops as nat) + "\nlast outcome "@ + (
            if records.len() > 0 {
                prompt::outcome_word(records.last().outcome)
            } else {
                "(none)"@
            }) + "\n"@,
        ),
{
    lemma_status_parts(s, records, elapsed, remaining);
    let tail = text::lemma_followed_grows(
        status_head(s, records),
        status_parts(s, records, elapsed, remaining),
    );
    text::lemma_starts(status_head(s, records), tail);
}

/// The status tells why the last iteration ended as it did, and its summary,
/// where there are any; the best score with its iteration; and the iteration in
/// progress with its step.
pub proof fn law_status_tells_last_and_best(
    s: StateSnapshot,
    records: Seq<IterationRecord>,
    elapsed: Seq<char>,
    remaining: Seq<char>,
)
    ensures
        ({
            let t = status_text(s, records, elapsed, remaining);
            &&& records.len() > 0 && records.last().notes@.len() > 0 ==> text::occurs_in(
                "last reason  "@ + records.last().notes@ + "\n"@,
                t,
            )
            &&& records.len() > 0 && records.last().summary@.len() > 0 ==> text::occurs_in(
                "last summary "@ + records.last().summary@ + "\n"@,
                t,
            )
            &&& s.best_iter matches Some(n) ==> s.best_score matches Some(v) ==> text::occurs_in(
                "iter "@ + text::dec(n as nat) + ", score "@ + crate::score::fixed_text(v, 6),
                t,
            )
            &&& s.iter_in_progress matches Some(n) ==> text::occurs_in(
                "in progress  iter "@ + text::dec(n as nat) + " at step "@ + step_word(
                    s.current_step,
                ) + "\n"@,
                t,
            )
            &&& text::occurs_in(elapsed, t) && text::occurs_in(remaining, t)
        }),
{
    let m = status_parts(s, records, elapsed, remaining);
    let head = status_head(s, records);
    lemma_status_parts(s, records, elapsed, remaining);
    text::lemma_occurs_whole(m[2]);
    text::lemma_occurs_whole(m[4]);
    text::lemma_occurs_whole(m[6]);
    text::lemma_occurs_whole(m[8]);
    text::lemma_followed_holds(m[2], head, m);
    text::lemma_followed_holds(m[4], head, m);
    text::lemma_followed_holds(m[6], head, m);
    text::lemma_followed_holds(m[8], head, m);
    if records.len() > 0 {
        let a = optional_line("last reason  "@, records.last().notes@);
        let b = optional_line("last summary "@, records.last().summary@);
        text::lemma_occurs_whole(a);
        text::lemma_occurs_whole(b);
        text::lemma_occurs_left(a, a, b);
        text::lemma_occurs_right(b, a, b);
        assert(m[0] == a + b);
        text::lemma_followed_holds(a, head, m);
        text::lemma_followed_holds(b, head, m);
    }
}

/// Each step has its own name.
pub proof fn law_steps_have_their_names(a: CurrentStep, b: CurrentStep)
    ensures
        step_word(a) == step_word(b) ==> a == b,
{
    reveal_strlit("Idle");
    reveal_strlit("AllocateIter");
    reveal_strlit("CreateWorktree");
    reveal_strlit("RunSetup");
    reveal_strlit("BuildPrompt");
    reveal_strlit("InvokeAgent");
    reveal_strlit("CaptureDiff");
    reveal_strlit("RunTeardown");
    reveal_strlit("Score");
    reveal_strlit("Decide");
    reveal_strlit("Merge");
    reveal_strlit("Discard");
    reveal_strlit("Cleanup");
    reveal_strlit("Record");
    reveal_strlit("CheckDeadline");
    reveal_strlit("Done");
    if step_word(a) == step_word(b) {
        assert(step_word(a).len() == step_word(b).len());
        assert(step_word(a)[0] == step_word(b)[0]);
        assert(step_word(a)[1] == step_word(b)[1]);
        assert(step_word(a)[2] == step_word(b)[2]);
        assert(step_word(a)[3] == step_word(b)[3]);
    }
}

} // verus!
